//! Security List Response (MsgType=y): request metadata and the symbol
//! repeating group.
use std::collections::HashMap;
use vstd::prelude::*;

use super::messages::{field_in_range, fix_field, fix_fields, parse_fix_message, string_map_view};
use crate::text::{
    chars_of, lemma_split_nonempty, lemma_split_step, parse_u32, parse_u8, parse_unsigned,
    parse_unsigned_range, soh, split_on, string_from_range,
};

verus! {

broadcast use vstd::std_specs::hash::group_hash_axioms;

/// A tradable symbol announced by the server.
#[derive(Debug, Clone)]
pub struct SymbolData {
    pub symbol_id: u32,
    pub symbol_name: String,
    pub symbol_digits: u8,
}

impl View for SymbolData {
    type V = (u32, Seq<char>, u8);

    open spec fn view(&self) -> (u32, Seq<char>, u8) {
        (self.symbol_id, self.symbol_name@, self.symbol_digits)
    }
}

/// Partially read symbol entry: id, name, digits.
pub type BuilderState = (Option<u32>, Option<Seq<char>>, Option<u8>);

pub open spec fn empty_builder() -> BuilderState {
    (None, None, None)
}

/// The entry, once id, name and digits are all known.
pub open spec fn complete_entry(b: BuilderState) -> Option<(u32, Seq<char>, u8)> {
    match (b.0, b.1, b.2) {
        (Some(id), Some(name), Some(digits)) => Some((id, name, digits)),
        _ => None,
    }
}

/// Effect of one field on the builder and the finished entries.
///
/// Tag 55 (symbol id) starts a new entry: the previous one is emitted if it
/// is complete, and the new entry holds the id (when it is readable); 1007
/// sets the name; 1008 sets the digits.
pub open spec fn handle_symbol_field(
    tag: u32,
    value: Seq<char>,
    b: BuilderState,
    entries: Seq<(u32, Seq<char>, u8)>,
) -> (BuilderState, Seq<(u32, Seq<char>, u8)>) {
    if tag == 55 {
        let saved = match complete_entry(b) {
            Some(e) => entries.push(e),
            None => entries,
        };
        match parse_u32(value) {
            Some(id) => ((Some(id), None, None), saved),
            None => (empty_builder(), saved),
        }
    } else if tag == 1007 {
        ((b.0, Some(value), b.2), entries)
    } else if tag == 1008 {
        match parse_u8(value) {
            Some(d) => ((b.0, b.1, Some(d)), entries),
            None => (b, entries),
        }
    } else {
        (b, entries)
    }
}

/// Builder and entries after reading these fields.
pub open spec fn run_symbol_fields(pieces: Seq<Seq<char>>) -> (
    BuilderState,
    Seq<(u32, Seq<char>, u8)>,
)
    decreases pieces.len(),
{
    if pieces.len() == 0 {
        (empty_builder(), Seq::empty())
    } else {
        let prev = run_symbol_fields(pieces.drop_last());
        match fix_field(pieces.last()) {
            Some(p) => handle_symbol_field(p.0, p.1, prev.0, prev.1),
            None => prev,
        }
    }
}

/// Symbols of a message: the entries emitted, then the last one if complete.
pub open spec fn symbol_entries(raw: Seq<char>) -> Seq<(u32, Seq<char>, u8)> {
    let r = run_symbol_fields(split_on(raw, soh()));
    match complete_entry(r.0) {
        Some(e) => r.1.push(e),
        None => r.1,
    }
}

/// `str::parse::<usize>()`.
pub open spec fn parse_usize(s: Seq<char>) -> Option<usize> {
    match parse_unsigned(s, usize::MAX as int) {
        Some(v) => Some(v as usize),
        None => None,
    }
}

/// Request id (320), result code (560) and symbol count (146, 0 when absent
/// or unreadable); `None` without a request id or a readable result code.
pub open spec fn response_metadata(m: Map<u32, Seq<char>>) -> Option<(Seq<char>, u32, usize)> {
    if !m.contains_key(320) || !m.contains_key(560) {
        None
    } else {
        match parse_u32(m[560]) {
            None => None,
            Some(result) => {
                let n = if m.contains_key(146) {
                    match parse_usize(m[146]) {
                        Some(v) => v,
                        None => 0,
                    }
                } else {
                    0
                };
                Some((m[320], result, n))
            },
        }
    }
}

/// What `parse_security_list_response` returns, by views.
pub open spec fn security_list(raw: Seq<char>) -> Option<(Seq<char>, u32, Seq<(u32, Seq<char>, u8)>)> {
    match response_metadata(fix_fields(raw)) {
        Some(md) => Some((md.0, md.1, symbol_entries(raw))),
        None => None,
    }
}

pub open spec fn symbols_view(v: Seq<SymbolData>) -> Seq<(u32, Seq<char>, u8)> {
    v.map_values(|s: SymbolData| s@)
}

struct SymbolEntryBuilder {
    symbol_id: Option<u32>,
    symbol_name: Option<String>,
    symbol_digits: Option<u8>,
}

impl SymbolEntryBuilder {
    spec fn state(&self) -> BuilderState {
        (
            self.symbol_id,
            match self.symbol_name {
                Some(n) => Some(n@),
                None => None,
            },
            self.symbol_digits,
        )
    }

    fn new() -> (b: Self)
        ensures
            b.state() == empty_builder(),
    {
        Self { symbol_id: None, symbol_name: None, symbol_digits: None }
    }

    fn set_symbol_id(&mut self, value: u32)
        ensures
            final(self).state() == (Some(value), old(self).state().1, old(self).state().2),
    {
        self.symbol_id = Some(value);
    }

    fn set_symbol_name(&mut self, value: String)
        ensures
            final(self).state() == (old(self).state().0, Some(value@), old(self).state().2),
    {
        self.symbol_name = Some(value);
    }

    fn set_symbol_digits(&mut self, value: u8)
        ensures
            final(self).state() == (old(self).state().0, old(self).state().1, Some(value)),
    {
        self.symbol_digits = Some(value);
    }

    fn try_complete_symbol_data(&self) -> (r: Option<SymbolData>)
        ensures
            match r {
                Some(s) => complete_entry(self.state()) == Some(s@),
                None => complete_entry(self.state()) is None,
            },
    {
        match (self.symbol_id, &self.symbol_name, self.symbol_digits) {
            (Some(id), Some(name), Some(digits)) => Some(
                SymbolData { symbol_id: id, symbol_name: name.clone(), symbol_digits: digits },
            ),
            _ => None,
        }
    }

    fn reset(&mut self)
        ensures
            final(self).state() == empty_builder(),
    {
        self.symbol_id = None;
        self.symbol_name = None;
        self.symbol_digits = None;
    }
}

fn handle_field(
    tag: u32,
    cs: &Vec<char>,
    lo: usize,
    hi: usize,
    builder: &mut SymbolEntryBuilder,
    entries: &mut Vec<SymbolData>,
)
    requires
        lo <= hi <= cs@.len(),
    ensures
        (final(builder).state(), symbols_view(final(entries)@)) == handle_symbol_field(
            tag,
            cs@.subrange(lo as int, hi as int),
            old(builder).state(),
            symbols_view(old(entries)@),
        ),
{
    if tag == 55 {
        // A new symbol id: save the previous symbol if it is complete.
        match builder.try_complete_symbol_data() {
            Some(symbol) => {
                entries.push(symbol);
                assert(symbols_view(entries@) =~= symbols_view(old(entries)@).push(symbol@));
            },
            None => {},
        }
        builder.reset();
        match parse_unsigned_range(cs, lo, hi, 4294967295) {
            Some(id) => {
                builder.set_symbol_id(id as u32);
            },
            None => {},
        }
    } else if tag == 1007 {
        let name = string_from_range(cs, lo, hi);
        builder.set_symbol_name(name);
    } else if tag == 1008 {
        match parse_unsigned_range(cs, lo, hi, 255) {
            Some(d) => {
                builder.set_symbol_digits(d as u8);
            },
            None => {},
        }
    }
}

/// The symbol repeating group of a message.
fn parse_symbol_fields(raw_message: &str) -> (r: Vec<SymbolData>)
    ensures
        symbols_view(r@) == symbol_entries(raw_message@),
{
    let cs = chars_of(raw_message);
    let mut entries: Vec<SymbolData> = Vec::new();
    let mut builder = SymbolEntryBuilder::new();
    let mut start: usize = 0;
    let mut i: usize = 0;
    proof {
        assert(cs@.take(0) =~= Seq::<char>::empty());
        assert(split_on(cs@.take(0), soh()).drop_last() =~= Seq::<Seq<char>>::empty());
        assert(cs@.subrange(0, 0) =~= Seq::<char>::empty());
        assert(symbols_view(entries@) =~= Seq::empty());
    }
    while i < cs.len()
        invariant
            start <= i <= cs@.len(),
            cs@ == raw_message@,
            split_on(cs@.take(i as int), soh()).last() == cs@.subrange(start as int, i as int),
            (builder.state(), symbols_view(entries@)) == run_symbol_fields(
                split_on(cs@.take(i as int), soh()).drop_last(),
            ),
        decreases cs.len() - i,
    {
        proof {
            lemma_split_step(cs@, i as int, soh());
            lemma_split_nonempty(cs@.take(i as int), soh());
        }
        let ghost prev = split_on(cs@.take(i as int), soh());
        if cs[i] == '\x01' {
            match field_in_range(&cs, start, i) {
                Some(p) => {
                    handle_field(p.0, &cs, p.1, i, &mut builder, &mut entries);
                },
                None => {},
            }
            proof {
                let next = split_on(cs@.take(i + 1), soh());
                assert(next.drop_last() =~= prev);
                assert(prev =~= prev.drop_last().push(prev.last()));
                assert(cs@.subrange(i + 1, i + 1) =~= Seq::<char>::empty());
            }
            start = i + 1;
        } else {
            proof {
                let next = split_on(cs@.take(i + 1), soh());
                assert(next.drop_last() =~= prev.drop_last());
                assert(cs@.subrange(start as int, i + 1) =~= cs@.subrange(
                    start as int,
                    i as int,
                ).push(cs@[i as int]));
            }
        }
        i = i + 1;
    }
    // The last field has no delimiter after it.
    match field_in_range(&cs, start, i) {
        Some(p) => {
            handle_field(p.0, &cs, p.1, i, &mut builder, &mut entries);
        },
        None => {},
    }
    proof {
        assert(cs@.take(i as int) =~= cs@);
        let pieces = split_on(cs@, soh());
        lemma_split_nonempty(cs@, soh());
        assert(pieces =~= pieces.drop_last().push(pieces.last()));
    }
    match builder.try_complete_symbol_data() {
        Some(symbol) => {
            entries.push(symbol);
            assert(symbols_view(entries@) =~= symbols_view(entries@.drop_last()).push(symbol@));
        },
        None => {},
    }
    entries
}

fn parse_map_value(fields: &HashMap<u32, String>, tag: u32, max: u64) -> (r: Option<u64>)
    requires
        max >= 9,
    ensures
        match r {
            Some(v) => string_map_view(fields@).contains_key(tag) && parse_unsigned(
                string_map_view(fields@)[tag],
                max as int,
            ) == Some(v as int),
            None => !string_map_view(fields@).contains_key(tag) || parse_unsigned(
                string_map_view(fields@)[tag],
                max as int,
            ) is None,
        },
{
    match fields.get(&tag) {
        Some(s) => {
            let cs = chars_of(s.as_str());
            assert(cs@.subrange(0, cs@.len() as int) =~= cs@);
            parse_unsigned_range(&cs, 0, cs.len(), max)
        },
        None => None,
    }
}

/// Request id, result code and announced symbol count of a response.
fn extract_response_metadata(fields: &HashMap<u32, String>) -> (r: Option<(String, u32, usize)>)
    ensures
        match r {
            Some(t) => response_metadata(string_map_view(fields@)) == Some((t.0@, t.1, t.2)),
            None => response_metadata(string_map_view(fields@)) is None,
        },
{
    let req_id = match fields.get(&320) {
        Some(s) => s.clone(),
        None => {
            return None;
        },
    };
    let result = match parse_map_value(fields, 560, 4294967295) {
        Some(v) => v as u32,
        None => {
            return None;
        },
    };
    let num_symbols = match parse_map_value(fields, 146, usize::MAX as u64) {
        Some(v) => v as usize,
        None => 0,
    };
    Some((req_id, result, num_symbols))
}

/// Parse a Security List Response (MsgType=y): request id, result code and symbols.
pub fn parse_security_list_response(raw_message: &str) -> (r: Option<(String, u32, Vec<SymbolData>)>)
    ensures
        match r {
            Some(t) => security_list(raw_message@) == Some((t.0@, t.1, symbols_view(t.2@))),
            None => security_list(raw_message@) is None,
        },
{
    let fields = parse_fix_message(raw_message);
    let metadata = extract_response_metadata(&fields);
    match metadata {
        Some(md) => {
            let symbols = parse_symbol_fields(raw_message);
            Some((md.0, md.1, symbols))
        },
        None => None,
    }
}

} // verus!
