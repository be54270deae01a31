//! Names under which FIX ticks are broadcast to WebSocket clients: the
//! symbol id to name map kept by the bridge, and the ticker topics.
use vstd::prelude::*;

use crate::text::{chars_eq, chars_of, push_str, string_from_chars};

verus! {

/// The map built by inserting these (id, name) pairs in order: a later pair
/// replaces an earlier one with the same id.
pub open spec fn pairs_map(pairs: Seq<(Seq<char>, Seq<char>)>) -> Map<Seq<char>, Seq<char>>
    decreases pairs.len(),
{
    if pairs.len() == 0 {
        Map::empty()
    } else {
        pairs_map(pairs.drop_last()).insert(pairs.last().0, pairs.last().1)
    }
}

/// The texts of a list of string pairs.
pub open spec fn pair_texts(v: Seq<(String, String)>) -> Seq<(Seq<char>, Seq<char>)> {
    v.map_values(|p: (String, String)| (p.0@, p.1@))
}

/// The name shown for a symbol id: its mapped name, else `SYM_<id>`.
pub open spec fn shown_name(m: Map<Seq<char>, Seq<char>>, id: Seq<char>) -> Seq<char> {
    if m.contains_key(id) {
        m[id]
    } else {
        "SYM_"@ + id
    }
}

/// Symbol id to name map of the WebSocket bridge.
pub struct SymbolNameMap {
    entries: Vec<(String, String)>,
}

impl View for SymbolNameMap {
    type V = Map<Seq<char>, Seq<char>>;

    closed spec fn view(&self) -> Map<Seq<char>, Seq<char>> {
        pairs_map(pair_texts(self.entries@))
    }
}

impl SymbolNameMap {
    /// The map that the bridge starts with: cTrader's ids of gold
    /// (`41` for `XAUUSD`) and of the euro (`1` for `EURUSD`).
    pub fn new() -> (m: Self)
        ensures
            m@ == map!["41"@ => "XAUUSD"@, "1"@ => "EURUSD"@],
    {
        let mut entries: Vec<(String, String)> = Vec::new();
        entries.push(("41".to_string(), "XAUUSD".to_string()));
        entries.push(("1".to_string(), "EURUSD".to_string()));
        let m = SymbolNameMap { entries };
        proof {
            let p = pair_texts(m.entries@);
            assert(p =~= seq![("41"@, "XAUUSD"@), ("1"@, "EURUSD"@)]);
            assert(p.drop_last() =~= seq![("41"@, "XAUUSD"@)]);
            assert(p.drop_last().drop_last() =~= Seq::<(Seq<char>, Seq<char>)>::empty());
            assert(pairs_map(p.drop_last().drop_last()) == Map::<Seq<char>, Seq<char>>::empty());
            assert(pairs_map(p.drop_last()) == Map::<Seq<char>, Seq<char>>::empty().insert(
                "41"@,
                "XAUUSD"@,
            ));
            assert(pairs_map(p) == Map::<Seq<char>, Seq<char>>::empty().insert("41"@, "XAUUSD"@).insert(
                "1"@,
                "EURUSD"@,
            ));
        }
        m
    }

    /// Map `symbol_id` to `symbol_name`.
    pub fn add_symbol_mapping(&mut self, symbol_id: String, symbol_name: String)
        ensures
            final(self)@ == old(self)@.insert(symbol_id@, symbol_name@),
    {
        let ghost before = pair_texts(self.entries@);
        let ghost id = symbol_id@;
        let ghost name = symbol_name@;
        self.entries.push((symbol_id, symbol_name));
        assert(pair_texts(self.entries@).drop_last() =~= before);
        assert(pair_texts(self.entries@).last() == (id, name));
    }

    /// Map each id of `mappings` to its name, in order.
    pub fn update_symbol_mappings(&mut self, mappings: Vec<(String, String)>)
        ensures
            final(self)@ == pairs_map(old(self).entries_view() + pair_texts(mappings@)),
    {
        let ghost start = pair_texts(self.entries@);
        let mut i: usize = 0;
        while i < mappings.len()
            invariant
                i <= mappings@.len(),
                pair_texts(self.entries@) == start + pair_texts(mappings@).take(i as int),
                start == old(self).entries_view(),
            decreases mappings.len() - i,
        {
            let ghost prev = pair_texts(self.entries@);
            let (id, name) = &mappings[i];
            self.entries.push((id.clone(), name.clone()));
            proof {
                assert(pair_texts(self.entries@) =~= prev.push(pair_texts(mappings@)[i as int]));
                assert(pair_texts(mappings@).take(i + 1) =~= pair_texts(mappings@).take(i as int).push(
                    pair_texts(mappings@)[i as int],
                ));
            }
            i = i + 1;
            assert(pair_texts(self.entries@) =~= start + pair_texts(mappings@).take(i as int));
        }
        assert(pair_texts(mappings@).take(i as int) =~= pair_texts(mappings@));
    }

    /// The pairs in insertion order.
    pub closed spec fn entries_view(&self) -> Seq<(Seq<char>, Seq<char>)> {
        pair_texts(self.entries@)
    }

    /// The name shown for a symbol id (see `shown_name`).
    pub fn get_symbol_name(&self, symbol_id: &str) -> (s: String)
        ensures
            s@ == shown_name(self@, symbol_id@),
    {
        let key = chars_of(symbol_id);
        let ghost all = pair_texts(self.entries@);
        let mut i: usize = self.entries.len();
        assert(all.take(i as int) =~= all);
        while i > 0
            invariant
                i <= self.entries@.len(),
                all == pair_texts(self.entries@),
                key@ == symbol_id@,
                pairs_map(all).contains_key(key@) == pairs_map(all.take(i as int)).contains_key(key@),
                pairs_map(all).contains_key(key@) ==> pairs_map(all)[key@] == pairs_map(
                    all.take(i as int),
                )[key@],
            decreases i,
        {
            let (id, name) = &self.entries[i - 1];
            let id_chars = chars_of(id.as_str());
            proof {
                assert(all.take(i as int).drop_last() =~= all.take(i - 1));
                assert(all.take(i as int).last() == all[i - 1]);
            }
            if chars_eq(&id_chars, &key) {
                return name.clone();
            }
            i = i - 1;
        }
        assert(all.take(0) =~= Seq::<(Seq<char>, Seq<char>)>::empty());
        let mut out: Vec<char> = Vec::new();
        push_str(&mut out, "SYM_");
        push_str(&mut out, symbol_id);
        string_from_chars(out.as_slice())
    }
}

/// Count of market data ticks and the time of the last one (milliseconds
/// since the epoch).
pub struct MarketDataStats {
    tick_count: u64,
    last_tick_time: Option<i64>,
}

impl View for MarketDataStats {
    type V = (u64, Option<i64>);

    closed spec fn view(&self) -> (u64, Option<i64>) {
        (self.tick_count, self.last_tick_time)
    }
}

impl MarketDataStats {
    /// No ticks yet.
    pub fn new() -> (s: Self)
        ensures
            s@ == (0u64, None::<i64>),
    {
        MarketDataStats { tick_count: 0, last_tick_time: None }
    }

    /// A tick came at `now`: the count grows by one (wrapping, like an
    /// atomic counter) and `now` is the last tick time.
    pub fn record_tick_at(&mut self, now: i64)
        ensures
            final(self)@ == ((if old(self)@.0 == u64::MAX {
                0
            } else {
                old(self)@.0 + 1
            }) as u64, Some(now)),
    {
        self.tick_count = self.tick_count.wrapping_add(1);
        self.last_tick_time = Some(now);
    }

    /// A tick came now.
    pub fn record_tick(&mut self)
        ensures
            final(self)@.0 == (if old(self)@.0 == u64::MAX {
                0
            } else {
                old(self)@.0 + 1
            }),
            final(self)@.1 is Some,
    {
        let now = crate::clock::now_millis();
        self.record_tick_at(now);
    }

    /// Number of ticks recorded.
    pub fn get_tick_count(&self) -> (n: u64)
        ensures
            n == self@.0,
    {
        self.tick_count
    }

    /// Time of the last tick, if any.
    pub fn get_last_tick_time(&self) -> (t: Option<i64>)
        ensures
            t == self@.1,
    {
        self.last_tick_time
    }
}

/// The ticker topic of a symbol: `ticker:<symbol>`.
pub fn ticker_topic(symbol: &str) -> (t: String)
    ensures
        t@ == "ticker:"@ + symbol@,
{
    let mut out: Vec<char> = Vec::new();
    push_str(&mut out, "ticker:");
    push_str(&mut out, symbol);
    string_from_chars(out.as_slice())
}

} // verus!
