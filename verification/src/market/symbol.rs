//! Trading instruments as stored.
use vstd::prelude::*;

use crate::decimal::Dec;

verus! {

/// A symbol to be stored, built up field by field.
#[derive(Debug, Clone)]
pub struct NewSymbol {
    pub symbol_id: i64,
    pub symbol_name: String,
    pub description: Option<String>,
    pub digits: i32,
    pub tick_size: Dec,
    pub contract_size: Option<Dec>,
}

impl NewSymbol {
    /// A symbol without description or contract size.
    pub fn new(symbol_id: i64, symbol_name: String, digits: i32, tick_size: Dec) -> (s: NewSymbol)
        ensures
            s.symbol_id == symbol_id,
            s.symbol_name == symbol_name,
            s.description is None,
            s.digits == digits,
            s.tick_size == tick_size,
            s.contract_size is None,
    {
        NewSymbol { symbol_id, symbol_name, description: None, digits, tick_size, contract_size: None }
    }

    /// The symbol with a description.
    pub fn with_description(self, description: String) -> (s: NewSymbol)
        ensures
            s == (NewSymbol { description: Some(description), ..self }),
    {
        NewSymbol { description: Some(description), ..self }
    }

    /// The symbol with a contract size.
    pub fn with_contract_size(self, contract_size: Dec) -> (s: NewSymbol)
        ensures
            s == (NewSymbol { contract_size: Some(contract_size), ..self }),
    {
        NewSymbol { contract_size: Some(contract_size), ..self }
    }
}

/// The symbols a sync stores for a symbol map: each id with its name, five
/// digits and a tick size of 0.00001 (the defaults for FX pairs).
pub fn symbols_to_sync(symbol_map: &Vec<(i64, String)>) -> (r: Vec<NewSymbol>)
    ensures
        r@.len() == symbol_map@.len(),
        forall|i: int|
            0 <= i < r@.len() ==> {
                let s = #[trigger] r@[i];
                &&& s.symbol_id == symbol_map@[i].0
                &&& s.symbol_name@ == symbol_map@[i].1@
                &&& s.digits == 5
                &&& s.tick_size == Dec::spec_new(1, 5)
                &&& s.description is None
                &&& s.contract_size is None
            },
{
    let mut out: Vec<NewSymbol> = Vec::new();
    let mut i: usize = 0;
    while i < symbol_map.len()
        invariant
            i <= symbol_map@.len(),
            out@.len() == i,
            forall|k: int|
                0 <= k < i ==> {
                    let s = #[trigger] out@[k];
                    &&& s.symbol_id == symbol_map@[k].0
                    &&& s.symbol_name@ == symbol_map@[k].1@
                    &&& s.digits == 5
                    &&& s.tick_size == Dec::spec_new(1, 5)
                    &&& s.description is None
                    &&& s.contract_size is None
                },
        decreases symbol_map.len() - i,
    {
        let (id, name) = &symbol_map[i];
        out.push(NewSymbol::new(*id, name.clone(), 5, Dec::new(1, 5)));
        i = i + 1;
    }
    out
}

} // verus!
