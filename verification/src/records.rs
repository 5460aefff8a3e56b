//! Plain records the index keeps per inscription and per address.
use vstd::prelude::*;

use crate::types::OutPoint;

verus! {

/// Fees and outpoints gathered for an inscription whose parts are still being collected.
#[derive(Clone, Debug)]
pub struct Partial {
    pub total_fee: u64,
    pub inscription_idx: u32,
    pub outpoints: Vec<OutPoint>,
}

impl Default for Partial {
    fn default() -> (r: Self)
        ensures
            r.total_fee == 0,
            r.inscription_idx == 0,
            r.outpoints@.len() == 0,
    {
        Partial { total_fee: 0, inscription_idx: 0, outpoints: Vec::new() }
    }
}

/// Per-address totals.
#[derive(Clone, Copy, Debug, PartialEq, Eq)]
pub struct AddressStat {
    pub amount: u64,
    pub count: u64,
    pub total: u64,
}

} // verus!
