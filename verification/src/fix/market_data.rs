//! Market data (MsgType=W / X) parsing into bid / offer / trade entries
//! with prices and sizes, and the tick they describe.
use vstd::prelude::*;

use super::messages::{field_in_range, fix_field};
use crate::decimal::{decimal_checked_sub, decimal_from_str, opt_parts, Dec};
use super::market_tick::mid_of;
use crate::text::{
    chars_of, contains_chars, contains_seq, lemma_split_nonempty, lemma_split_step, soh, split_on,
    string_from_range,
};

verus! {

/// Entry type of the NoMDEntries group (tag 269).
#[derive(Debug, Clone, Copy, PartialEq, Eq, Structural)]
pub enum MDEntryType {
    Bid,
    Offer,
    Trade,
}

/// `'0'` is a bid, `'1'` an offer, `'2'` a trade.
pub open spec fn entry_type_of(c: char) -> Option<MDEntryType> {
    if c == '0' {
        Some(MDEntryType::Bid)
    } else if c == '1' {
        Some(MDEntryType::Offer)
    } else if c == '2' {
        Some(MDEntryType::Trade)
    } else {
        None
    }
}

impl MDEntryType {
    pub fn from_char(c: char) -> (r: Option<Self>)
        ensures
            r == entry_type_of(c),
    {
        match c {
            '0' => Some(Self::Bid),
            '1' => Some(Self::Offer),
            '2' => Some(Self::Trade),
            _ => None,
        }
    }
}

/// One entry of the NoMDEntries group.
#[derive(Debug, Clone, Copy)]
pub struct MarketDataEntry {
    pub entry_type: MDEntryType,
    pub price: Dec,
    pub size: Dec,
}

/// Entry under construction: type, price and size (as decimal parts).
pub type EntryState = (Option<MDEntryType>, Option<(i128, u32)>, Option<(i128, u32)>);

pub type EntryView = (MDEntryType, (i128, u32), (i128, u32));

/// Parser state: symbol, entry under construction, finished entries.
pub type ParseState = (Option<Seq<char>>, EntryState, Seq<EntryView>);

pub open spec fn built_entry(b: EntryState) -> Option<EntryView> {
    match (b.0, b.1, b.2) {
        (Some(t), Some(p), Some(q)) => Some((t, p, q)),
        _ => None,
    }
}

/// Type of an entry from the first character of the field value.
pub open spec fn entry_type_of_text(v: Seq<char>) -> Option<MDEntryType> {
    if v.len() == 0 {
        None
    } else {
        entry_type_of(v[0])
    }
}

/// Effect of one field: 55 sets the symbol; 269 closes the entry under
/// construction (kept if complete) and starts a new one of the given type;
/// 270 sets the price and 271 the size of the current entry.
pub open spec fn md_handle(tag: u32, value: Seq<char>, st: ParseState) -> ParseState {
    if tag == 55 {
        (Some(value), st.1, st.2)
    } else if tag == 269 {
        let entries = match built_entry(st.1) {
            Some(e) => st.2.push(e),
            None => st.2,
        };
        (st.0, (entry_type_of_text(value), None, None), entries)
    } else if tag == 270 {
        (st.0, (st.1.0, decimal_from_str(value), st.1.2), st.2)
    } else if tag == 271 {
        (st.0, (st.1.0, st.1.1, decimal_from_str(value)), st.2)
    } else {
        st
    }
}

pub open spec fn md_run(pieces: Seq<Seq<char>>) -> ParseState
    decreases pieces.len(),
{
    if pieces.len() == 0 {
        (None, (None, None, None), Seq::empty())
    } else {
        let prev = md_run(pieces.drop_last());
        match fix_field(pieces.last()) {
            Some(p) => md_handle(p.0, p.1, prev),
            None => prev,
        }
    }
}

/// Symbol and entries of a market-data message; `None` without a symbol.
pub open spec fn market_data(raw: Seq<char>) -> Option<(Seq<char>, Seq<EntryView>)> {
    let st = md_run(split_on(raw, soh()));
    let entries = match built_entry(st.1) {
        Some(e) => st.2.push(e),
        None => st.2,
    };
    match st.0 {
        Some(sym) => Some((sym, entries)),
        None => None,
    }
}

pub open spec fn entries_view(v: Seq<MarketDataEntry>) -> Seq<EntryView> {
    v.map_values(|e: MarketDataEntry| (e.entry_type, e.price@, e.size@))
}

/// Price and size of the last entry of the given type, if any.
pub open spec fn last_entry_of(entries: Seq<EntryView>, t: MDEntryType) -> Option<(
    (i128, u32),
    (i128, u32),
)>
    decreases entries.len(),
{
    if entries.len() == 0 {
        None
    } else if entries.last().0 == t {
        Some((entries.last().1, entries.last().2))
    } else {
        last_entry_of(entries.drop_last(), t)
    }
}

pub open spec fn is_market_data_text(raw: Seq<char>) -> bool {
    contains_seq(raw, "35=W\x01"@) || contains_seq(raw, "35=X\x01"@)
}

/// A trading instrument as announced by cTrader.
#[derive(Debug, Clone)]
pub struct Symbol {
    pub id: u32,
    pub name: String,
    pub digits: u8,
}

impl Symbol {
    pub fn new(id: u32, name: String, digits: u8) -> (s: Symbol)
        ensures
            s.id == id,
            s.name@ == name@,
            s.digits == digits,
    {
        Symbol { id, name, digits }
    }
}

/// Market tick with prices and sizes of both sides.
#[derive(Debug, Clone)]
pub struct MarketTick {
    pub symbol_id: String,
    /// When the tick was received, in milliseconds since the Unix epoch
    pub timestamp_millis: i64,
    pub bid_price: Option<Dec>,
    pub bid_size: Option<Dec>,
    pub ask_price: Option<Dec>,
    pub ask_size: Option<Dec>,
}

impl MarketTick {
    /// Price and size of one side, when both are known.
    pub open spec fn side_view(&self, t: MDEntryType) -> Option<((i128, u32), (i128, u32))> {
        let (p, q) = if t == MDEntryType::Bid {
            (self.bid_price, self.bid_size)
        } else {
            (self.ask_price, self.ask_size)
        };
        match (p, q) {
            (Some(p), Some(q)) => Some((p@, q@)),
            _ => None,
        }
    }

    /// An empty tick stamped with the current time.
    pub fn new(symbol_id: String) -> (t: MarketTick)
        ensures
            t.symbol_id@ == symbol_id@,
            t.bid_price is None && t.bid_size is None,
            t.ask_price is None && t.ask_size is None,
    {
        let now = crate::clock::now_millis();
        Self::new_at(symbol_id, now)
    }

    /// An empty tick stamped with `timestamp_millis`.
    pub fn new_at(symbol_id: String, timestamp_millis: i64) -> (t: MarketTick)
        ensures
            t.symbol_id@ == symbol_id@,
            t.timestamp_millis == timestamp_millis,
            t.bid_price is None && t.bid_size is None,
            t.ask_price is None && t.ask_size is None,
    {
        MarketTick {
            symbol_id,
            timestamp_millis,
            bid_price: None,
            bid_size: None,
            ask_price: None,
            ask_size: None,
        }
    }

    /// Mid price `(bid + ask) / 2` when both prices are known.
    pub fn mid_price(&self) -> (r: Option<Dec>)
        ensures
            opt_parts(r) == (match (self.bid_price, self.ask_price) {
                (Some(b), Some(a)) => mid_of(b, a),
                _ => None,
            }),
    {
        match (self.bid_price, self.ask_price) {
            (Some(bid), Some(ask)) => match bid.checked_add(ask) {
                Some(sum) => sum.checked_div(Dec::new(2, 0)),
                None => None,
            },
            _ => None,
        }
    }

    /// Spread `ask - bid` when both prices are known.
    pub fn spread(&self) -> (r: Option<Dec>)
        ensures
            opt_parts(r) == (match (self.bid_price, self.ask_price) {
                (Some(b), Some(a)) => decimal_checked_sub(a@, b@),
                _ => None,
            }),
    {
        match (self.bid_price, self.ask_price) {
            (Some(bid), Some(ask)) => ask.checked_sub(bid),
            _ => None,
        }
    }

    /// Both prices are known.
    pub fn is_complete(&self) -> (b: bool)
        ensures
            b == (self.bid_price is Some && self.ask_price is Some),
    {
        self.bid_price.is_some() && self.ask_price.is_some()
    }
}

struct EntryBuilder {
    entry_type: Option<MDEntryType>,
    price: Option<Dec>,
    size: Option<Dec>,
}

impl EntryBuilder {
    spec fn state(&self) -> EntryState {
        (
            self.entry_type,
            match self.price {
                Some(p) => Some(p@),
                None => None,
            },
            match self.size {
                Some(p) => Some(p@),
                None => None,
            },
        )
    }

    fn new() -> (b: Self)
        ensures
            b.state() == (None::<MDEntryType>, None::<(i128, u32)>, None::<(i128, u32)>),
    {
        Self { entry_type: None, price: None, size: None }
    }

    fn set_entry_type(&mut self, cs: &Vec<char>, lo: usize, hi: usize)
        requires
            lo <= hi <= cs@.len(),
        ensures
            final(self).state() == (
                entry_type_of_text(cs@.subrange(lo as int, hi as int)),
                old(self).state().1,
                old(self).state().2,
            ),
    {
        if lo < hi {
            self.entry_type = MDEntryType::from_char(cs[lo]);
        } else {
            self.entry_type = None;
        }
    }

    fn set_price(&mut self, cs: &Vec<char>, lo: usize, hi: usize)
        requires
            lo <= hi <= cs@.len(),
        ensures
            final(self).state() == (
                old(self).state().0,
                decimal_from_str(cs@.subrange(lo as int, hi as int)),
                old(self).state().2,
            ),
    {
        let text = string_from_range(cs, lo, hi);
        self.price = Dec::parse(text.as_str());
    }

    fn set_size(&mut self, cs: &Vec<char>, lo: usize, hi: usize)
        requires
            lo <= hi <= cs@.len(),
        ensures
            final(self).state() == (
                old(self).state().0,
                old(self).state().1,
                decimal_from_str(cs@.subrange(lo as int, hi as int)),
            ),
    {
        let text = string_from_range(cs, lo, hi);
        self.size = Dec::parse(text.as_str());
    }

    fn try_build(&self) -> (r: Option<MarketDataEntry>)
        ensures
            match r {
                Some(e) => built_entry(self.state()) == Some((e.entry_type, e.price@, e.size@)),
                None => built_entry(self.state()) is None,
            },
    {
        match (self.entry_type, self.price, self.size) {
            (Some(et), Some(p), Some(q)) => Some(MarketDataEntry { entry_type: et, price: p, size: q }),
            _ => None,
        }
    }

    fn reset(&mut self)
        ensures
            final(self).state() == (None::<MDEntryType>, None::<(i128, u32)>, None::<(i128, u32)>),
    {
        self.entry_type = None;
        self.price = None;
        self.size = None;
    }
}

/// Parser for market-data messages.
pub struct MarketDataParser {
    buffer: Vec<u8>,
}

impl MarketDataParser {
    /// The bytes the parser holds back (none: each message is parsed whole).
    pub closed spec fn buffered(&self) -> Seq<u8> {
        self.buffer@
    }

    /// A parser with nothing held back.
    pub fn new() -> (p: Self)
        ensures
            p.buffered() == Seq::<u8>::empty(),
    {
        MarketDataParser { buffer: Vec::with_capacity(4096) }
    }

    fn handle_field(
        tag: u32,
        cs: &Vec<char>,
        lo: usize,
        hi: usize,
        symbol_id: &mut Option<String>,
        builder: &mut EntryBuilder,
        entries: &mut Vec<MarketDataEntry>,
    )
        requires
            lo <= hi <= cs@.len(),
        ensures
            (
                match *final(symbol_id) {
                    Some(s) => Some(s@),
                    None => None,
                },
                final(builder).state(),
                entries_view(final(entries)@),
            ) == md_handle(
                tag,
                cs@.subrange(lo as int, hi as int),
                (
                    match *old(symbol_id) {
                        Some(s) => Some(s@),
                        None => None,
                    },
                    old(builder).state(),
                    entries_view(old(entries)@),
                ),
            ),
    {
        if tag == 55 {
            *symbol_id = Some(string_from_range(cs, lo, hi));
        } else if tag == 269 {
            match builder.try_build() {
                Some(entry) => {
                    entries.push(entry);
                    assert(entries_view(entries@) =~= entries_view(old(entries)@).push(
                        (entry.entry_type, entry.price@, entry.size@),
                    ));
                },
                None => {},
            }
            builder.reset();
            builder.set_entry_type(cs, lo, hi);
        } else if tag == 270 {
            builder.set_price(cs, lo, hi);
        } else if tag == 271 {
            builder.set_size(cs, lo, hi);
        }
    }

    /// Parse a snapshot or incremental refresh: symbol (tag 55) and the
    /// complete bid / offer entries; `None` when the message names no symbol.
    pub fn parse_market_data(&self, raw_message: &str) -> (r: Option<(String, Vec<MarketDataEntry>)>)
        ensures
            match r {
                Some(p) => market_data(raw_message@) == Some((p.0@, entries_view(p.1@))),
                None => market_data(raw_message@) is None,
            },
    {
        let cs = chars_of(raw_message);
        let mut symbol_id: Option<String> = None;
        let mut entries: Vec<MarketDataEntry> = Vec::new();
        let mut builder = EntryBuilder::new();
        let mut start: usize = 0;
        let mut i: usize = 0;
        proof {
            assert(cs@.take(0) =~= Seq::<char>::empty());
            assert(split_on(cs@.take(0), soh()).drop_last() =~= Seq::<Seq<char>>::empty());
            assert(cs@.subrange(0, 0) =~= Seq::<char>::empty());
            assert(entries_view(entries@) =~= Seq::empty());
        }
        while i < cs.len()
            invariant
                start <= i <= cs@.len(),
                cs@ == raw_message@,
                split_on(cs@.take(i as int), soh()).last() == cs@.subrange(
                    start as int,
                    i as int,
                ),
                (
                    match symbol_id {
                        Some(s) => Some(s@),
                        None => None,
                    },
                    builder.state(),
                    entries_view(entries@),
                ) == md_run(split_on(cs@.take(i as int), soh()).drop_last()),
            decreases cs.len() - i,
        {
            proof {
                lemma_split_step(cs@, i as int, soh());
                lemma_split_nonempty(cs@.take(i as int), soh());
            }
            let ghost prev = split_on(cs@.take(i as int), soh());
            if cs[i] == '\x01' {
                match field_in_range(&cs, start, i) {
                    Some(p) => {
                        Self::handle_field(
                            p.0,
                            &cs,
                            p.1,
                            i,
                            &mut symbol_id,
                            &mut builder,
                            &mut entries,
                        );
                    },
                    None => {},
                }
                proof {
                    let next = split_on(cs@.take(i + 1), soh());
                    assert(next.drop_last() =~= prev);
                    assert(prev =~= prev.drop_last().push(prev.last()));
                    assert(cs@.subrange(i + 1, i + 1) =~= Seq::<char>::empty());
                }
                start = i + 1;
            } else {
                proof {
                    let next = split_on(cs@.take(i + 1), soh());
                    assert(next.drop_last() =~= prev.drop_last());
                    assert(cs@.subrange(start as int, i + 1) =~= cs@.subrange(
                        start as int,
                        i as int,
                    ).push(cs@[i as int]));
                }
            }
            i = i + 1;
        }
        match field_in_range(&cs, start, i) {
            Some(p) => {
                Self::handle_field(p.0, &cs, p.1, i, &mut symbol_id, &mut builder, &mut entries);
            },
            None => {},
        }
        proof {
            assert(cs@.take(i as int) =~= cs@);
            let pieces = split_on(cs@, soh());
            lemma_split_nonempty(cs@, soh());
            assert(pieces =~= pieces.drop_last().push(pieces.last()));
        }
        match builder.try_build() {
            Some(entry) => {
                entries.push(entry);
                assert(entries_view(entries@) =~= entries_view(entries@.drop_last()).push(
                    (entry.entry_type, entry.price@, entry.size@),
                ));
            },
            None => {},
        }
        match symbol_id {
            Some(sym) => Some((sym, entries)),
            None => None,
        }
    }

    /// A tick (stamped now) holding price and size of the last bid and of the
    /// last offer among the entries; trade entries leave it unchanged.
    pub fn build_tick(&self, symbol_id: String, entries: Vec<MarketDataEntry>) -> (t: MarketTick)
        ensures
            t.symbol_id@ == symbol_id@,
            t.side_view(MDEntryType::Bid) == last_entry_of(entries_view(entries@), MDEntryType::Bid),
            t.side_view(MDEntryType::Offer) == last_entry_of(
                entries_view(entries@),
                MDEntryType::Offer,
            ),
    {
        let mut tick = MarketTick::new(symbol_id);
        let mut i: usize = 0;
        while i < entries.len()
            invariant
                i <= entries@.len(),
                tick.symbol_id@ == symbol_id@,
                tick.side_view(MDEntryType::Bid) == last_entry_of(
                    entries_view(entries@.take(i as int)),
                    MDEntryType::Bid,
                ),
                tick.side_view(MDEntryType::Offer) == last_entry_of(
                    entries_view(entries@.take(i as int)),
                    MDEntryType::Offer,
                ),
            decreases entries.len() - i,
        {
            let entry = entries[i];
            proof {
                assert(entries_view(entries@.take(i + 1)).drop_last() =~= entries_view(
                    entries@.take(i as int),
                ));
            }
            match entry.entry_type {
                MDEntryType::Bid => {
                    tick.bid_price = Some(entry.price);
                    tick.bid_size = Some(entry.size);
                },
                MDEntryType::Offer => {
                    tick.ask_price = Some(entry.price);
                    tick.ask_size = Some(entry.size);
                },
                MDEntryType::Trade => {},
            }
            i = i + 1;
        }
        assert(entries@.take(i as int) =~= entries@);
        tick
    }

    /// The message is a snapshot (`35=W`) or an incremental refresh (`35=X`).
    pub fn is_market_data_message(raw_message: &str) -> (b: bool)
        ensures
            b == is_market_data_text(raw_message@),
    {
        let cs = chars_of(raw_message);
        let w = chars_of("35=W\x01");
        let x = chars_of("35=X\x01");
        contains_chars(&cs, &w) || contains_chars(&cs, &x)
    }
}

} // verus!
