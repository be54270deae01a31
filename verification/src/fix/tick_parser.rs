//! Market data (MsgType=W / X) parsing into bid / offer entries.
use vstd::prelude::*;

use super::market_tick::MarketTick;
use super::messages::{field_in_range, fix_field};
use crate::decimal::{decimal_from_str, Dec};
use crate::text::{
    chars_of, contains_chars, contains_seq, lemma_split_nonempty, lemma_split_step, soh, split_on,
    string_from_range,
};

verus! {

/// Entry type of the NoMDEntries group (tag 269).
#[derive(Debug, Clone, Copy, PartialEq, Eq, Structural)]
pub enum MDEntryType {
    Bid,
    Offer,
}

/// `'0'` is a bid, `'1'` an offer.
pub open spec fn entry_type_of(c: char) -> Option<MDEntryType> {
    if c == '0' {
        Some(MDEntryType::Bid)
    } else if c == '1' {
        Some(MDEntryType::Offer)
    } else {
        None
    }
}

impl MDEntryType {
    pub fn from_char(c: char) -> (r: Option<Self>)
        ensures
            r == entry_type_of(c),
    {
        match c {
            '0' => Some(Self::Bid),
            '1' => Some(Self::Offer),
            _ => None,
        }
    }
}

/// One entry of the NoMDEntries group.
#[derive(Debug, Clone, Copy)]
pub struct MarketDataEntry {
    pub entry_type: MDEntryType,
    pub price: Dec,
}

/// Entry under construction: type and price (as decimal parts).
pub type EntryState = (Option<MDEntryType>, Option<(i128, u32)>);

pub type EntryView = (MDEntryType, (i128, u32));

/// Parser state: symbol, entry under construction, finished entries.
pub type ParseState = (Option<Seq<char>>, EntryState, Seq<EntryView>);

pub open spec fn built_entry(b: EntryState) -> Option<EntryView> {
    match (b.0, b.1) {
        (Some(t), Some(p)) => Some((t, p)),
        _ => None,
    }
}

/// Type of an entry from the first character of the field value.
pub open spec fn entry_type_of_text(v: Seq<char>) -> Option<MDEntryType> {
    if v.len() == 0 {
        None
    } else {
        entry_type_of(v[0])
    }
}

/// Effect of one field: 55 sets the symbol; 269 closes the entry under
/// construction (kept if complete) and starts a new one of the given type;
/// 270 sets the price of the current entry.
pub open spec fn md_handle(tag: u32, value: Seq<char>, st: ParseState) -> ParseState {
    if tag == 55 {
        (Some(value), st.1, st.2)
    } else if tag == 269 {
        let entries = match built_entry(st.1) {
            Some(e) => st.2.push(e),
            None => st.2,
        };
        (st.0, (entry_type_of_text(value), None), entries)
    } else if tag == 270 {
        (st.0, (st.1.0, decimal_from_str(value)), st.2)
    } else {
        st
    }
}

pub open spec fn md_run(pieces: Seq<Seq<char>>) -> ParseState
    decreases pieces.len(),
{
    if pieces.len() == 0 {
        (None, (None, None), Seq::empty())
    } else {
        let prev = md_run(pieces.drop_last());
        match fix_field(pieces.last()) {
            Some(p) => md_handle(p.0, p.1, prev),
            None => prev,
        }
    }
}

/// Symbol and entries of a market-data message; `None` without a symbol.
pub open spec fn market_data(raw: Seq<char>) -> Option<(Seq<char>, Seq<EntryView>)> {
    let st = md_run(split_on(raw, soh()));
    let entries = match built_entry(st.1) {
        Some(e) => st.2.push(e),
        None => st.2,
    };
    match st.0 {
        Some(sym) => Some((sym, entries)),
        None => None,
    }
}

pub open spec fn entries_view(v: Seq<MarketDataEntry>) -> Seq<EntryView> {
    v.map_values(|e: MarketDataEntry| (e.entry_type, e.price@))
}

/// Price of the last entry of the given type, if any.
pub open spec fn last_price_of(entries: Seq<EntryView>, t: MDEntryType) -> Option<(i128, u32)>
    decreases entries.len(),
{
    if entries.len() == 0 {
        None
    } else if entries.last().0 == t {
        Some(entries.last().1)
    } else {
        last_price_of(entries.drop_last(), t)
    }
}

pub open spec fn is_market_data_text(raw: Seq<char>) -> bool {
    contains_seq(raw, "35=W\x01"@) || contains_seq(raw, "35=X\x01"@)
}

struct EntryBuilder {
    entry_type: Option<MDEntryType>,
    price: Option<Dec>,
}

impl EntryBuilder {
    spec fn state(&self) -> EntryState {
        (
            self.entry_type,
            match self.price {
                Some(p) => Some(p@),
                None => None,
            },
        )
    }

    fn new() -> (b: Self)
        ensures
            b.state() == (None::<MDEntryType>, None::<(i128, u32)>),
    {
        Self { entry_type: None, price: None }
    }

    fn set_entry_type(&mut self, cs: &Vec<char>, lo: usize, hi: usize)
        requires
            lo <= hi <= cs@.len(),
        ensures
            final(self).state() == (
                entry_type_of_text(cs@.subrange(lo as int, hi as int)),
                old(self).state().1,
            ),
    {
        if lo < hi {
            self.entry_type = MDEntryType::from_char(cs[lo]);
        } else {
            self.entry_type = None;
        }
    }

    fn set_price(&mut self, cs: &Vec<char>, lo: usize, hi: usize)
        requires
            lo <= hi <= cs@.len(),
        ensures
            final(self).state() == (
                old(self).state().0,
                decimal_from_str(cs@.subrange(lo as int, hi as int)),
            ),
    {
        let text = string_from_range(cs, lo, hi);
        self.price = Dec::parse(text.as_str());
    }

    fn try_build(&self) -> (r: Option<MarketDataEntry>)
        ensures
            match r {
                Some(e) => built_entry(self.state()) == Some((e.entry_type, e.price@)),
                None => built_entry(self.state()) is None,
            },
    {
        match (self.entry_type, self.price) {
            (Some(et), Some(p)) => Some(MarketDataEntry { entry_type: et, price: p }),
            _ => None,
        }
    }

    fn reset(&mut self)
        ensures
            final(self).state() == (None::<MDEntryType>, None::<(i128, u32)>),
    {
        self.entry_type = None;
        self.price = None;
    }
}

/// Parser for market-data messages.
pub struct MarketDataParser {
    buffer: Vec<u8>,
}

impl MarketDataParser {
    /// The bytes the parser holds back (none: each message is parsed whole).
    pub closed spec fn buffered(&self) -> Seq<u8> {
        self.buffer@
    }

    /// A parser with nothing held back.
    pub fn new() -> (p: Self)
        ensures
            p.buffered() == Seq::<u8>::empty(),
    {
        MarketDataParser { buffer: Vec::with_capacity(4096) }
    }

    fn handle_field(
        tag: u32,
        cs: &Vec<char>,
        lo: usize,
        hi: usize,
        symbol_id: &mut Option<String>,
        builder: &mut EntryBuilder,
        entries: &mut Vec<MarketDataEntry>,
    )
        requires
            lo <= hi <= cs@.len(),
        ensures
            (
                match *final(symbol_id) {
                    Some(s) => Some(s@),
                    None => None,
                },
                final(builder).state(),
                entries_view(final(entries)@),
            ) == md_handle(
                tag,
                cs@.subrange(lo as int, hi as int),
                (
                    match *old(symbol_id) {
                        Some(s) => Some(s@),
                        None => None,
                    },
                    old(builder).state(),
                    entries_view(old(entries)@),
                ),
            ),
    {
        if tag == 55 {
            *symbol_id = Some(string_from_range(cs, lo, hi));
        } else if tag == 269 {
            match builder.try_build() {
                Some(entry) => {
                    entries.push(entry);
                    assert(entries_view(entries@) =~= entries_view(old(entries)@).push(
                        (entry.entry_type, entry.price@),
                    ));
                },
                None => {},
            }
            builder.reset();
            builder.set_entry_type(cs, lo, hi);
        } else if tag == 270 {
            builder.set_price(cs, lo, hi);
        }
    }

    /// Parse a snapshot or incremental refresh: symbol (tag 55) and the
    /// complete bid / offer entries; `None` when the message names no symbol.
    pub fn parse_market_data(&self, raw_message: &str) -> (r: Option<(String, Vec<MarketDataEntry>)>)
        ensures
            match r {
                Some(p) => market_data(raw_message@) == Some((p.0@, entries_view(p.1@))),
                None => market_data(raw_message@) is None,
            },
    {
        let cs = chars_of(raw_message);
        let mut symbol_id: Option<String> = None;
        let mut entries: Vec<MarketDataEntry> = Vec::new();
        let mut builder = EntryBuilder::new();
        let mut start: usize = 0;
        let mut i: usize = 0;
        proof {
            assert(cs@.take(0) =~= Seq::<char>::empty());
            assert(split_on(cs@.take(0), soh()).drop_last() =~= Seq::<Seq<char>>::empty());
            assert(cs@.subrange(0, 0) =~= Seq::<char>::empty());
            assert(entries_view(entries@) =~= Seq::empty());
        }
        while i < cs.len()
            invariant
                start <= i <= cs@.len(),
                cs@ == raw_message@,
                split_on(cs@.take(i as int), soh()).last() == cs@.subrange(
                    start as int,
                    i as int,
                ),
                (
                    match symbol_id {
                        Some(s) => Some(s@),
                        None => None,
                    },
                    builder.state(),
                    entries_view(entries@),
                ) == md_run(split_on(cs@.take(i as int), soh()).drop_last()),
            decreases cs.len() - i,
        {
            proof {
                lemma_split_step(cs@, i as int, soh());
                lemma_split_nonempty(cs@.take(i as int), soh());
            }
            let ghost prev = split_on(cs@.take(i as int), soh());
            if cs[i] == '\x01' {
                match field_in_range(&cs, start, i) {
                    Some(p) => {
                        Self::handle_field(
                            p.0,
                            &cs,
                            p.1,
                            i,
                            &mut symbol_id,
                            &mut builder,
                            &mut entries,
                        );
                    },
                    None => {},
                }
                proof {
                    let next = split_on(cs@.take(i + 1), soh());
                    assert(next.drop_last() =~= prev);
                    assert(prev =~= prev.drop_last().push(prev.last()));
                    assert(cs@.subrange(i + 1, i + 1) =~= Seq::<char>::empty());
                }
                start = i + 1;
            } else {
                proof {
                    let next = split_on(cs@.take(i + 1), soh());
                    assert(next.drop_last() =~= prev.drop_last());
                    assert(cs@.subrange(start as int, i + 1) =~= cs@.subrange(
                        start as int,
                        i as int,
                    ).push(cs@[i as int]));
                }
            }
            i = i + 1;
        }
        match field_in_range(&cs, start, i) {
            Some(p) => {
                Self::handle_field(p.0, &cs, p.1, i, &mut symbol_id, &mut builder, &mut entries);
            },
            None => {},
        }
        proof {
            assert(cs@.take(i as int) =~= cs@);
            let pieces = split_on(cs@, soh());
            lemma_split_nonempty(cs@, soh());
            assert(pieces =~= pieces.drop_last().push(pieces.last()));
        }
        match builder.try_build() {
            Some(entry) => {
                entries.push(entry);
                assert(entries_view(entries@) =~= entries_view(entries@.drop_last()).push(
                    (entry.entry_type, entry.price@),
                ));
            },
            None => {},
        }
        match symbol_id {
            Some(sym) => Some((sym, entries)),
            None => None,
        }
    }

    /// A tick (stamped now) holding the last bid and last offer price of the entries.
    pub fn build_tick(&self, symbol_id: String, entries: Vec<MarketDataEntry>) -> (t: MarketTick)
        ensures
            t.symbol_id@ == symbol_id@,
            match t.bid_price {
                Some(p) => last_price_of(entries_view(entries@), MDEntryType::Bid) == Some(p@),
                None => last_price_of(entries_view(entries@), MDEntryType::Bid) is None,
            },
            match t.ask_price {
                Some(p) => last_price_of(entries_view(entries@), MDEntryType::Offer) == Some(p@),
                None => last_price_of(entries_view(entries@), MDEntryType::Offer) is None,
            },
    {
        let mut tick = MarketTick::new(symbol_id);
        let mut i: usize = 0;
        while i < entries.len()
            invariant
                i <= entries@.len(),
                tick.symbol_id@ == symbol_id@,
                match tick.bid_price {
                    Some(p) => last_price_of(entries_view(entries@.take(i as int)), MDEntryType::Bid)
                        == Some(p@),
                    None => last_price_of(
                        entries_view(entries@.take(i as int)),
                        MDEntryType::Bid,
                    ) is None,
                },
                match tick.ask_price {
                    Some(p) => last_price_of(
                        entries_view(entries@.take(i as int)),
                        MDEntryType::Offer,
                    ) == Some(p@),
                    None => last_price_of(
                        entries_view(entries@.take(i as int)),
                        MDEntryType::Offer,
                    ) is None,
                },
            decreases entries.len() - i,
        {
            let entry = entries[i];
            proof {
                assert(entries_view(entries@.take(i + 1)).drop_last() =~= entries_view(
                    entries@.take(i as int),
                ));
            }
            match entry.entry_type {
                MDEntryType::Bid => {
                    tick.bid_price = Some(entry.price);
                },
                MDEntryType::Offer => {
                    tick.ask_price = Some(entry.price);
                },
            }
            i = i + 1;
        }
        assert(entries@.take(i as int) =~= entries@);
        tick
    }

    /// The message is a snapshot (`35=W`) or an incremental refresh (`35=X`).
    pub fn is_market_data_message(raw_message: &str) -> (b: bool)
        ensures
            b == is_market_data_text(raw_message@),
    {
        let cs = chars_of(raw_message);
        let w = chars_of("35=W\x01");
        let x = chars_of("35=X\x01");
        contains_chars(&cs, &w) || contains_chars(&cs, &x)
    }
}

} // verus!
