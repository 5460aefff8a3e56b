//! Plain-value forms of the chain objects that the index stores.
use vstd::prelude::*;

use crate::bytes::le_u32;

verus! {

/// Double-SHA256 of an output script: how the index names an address.
pub type FullHash = [u8; 32];

/// A reference to a transaction output: the transaction id (32 bytes, in the order the chain
/// serialises them) and the output index.
#[derive(Clone, Copy, Debug, PartialEq, Eq, Hash, PartialOrd, Ord)]
pub struct OutPoint {
    pub txid: [u8; 32],
    pub vout: u32,
}

/// A transaction output: its value and locking script.
#[derive(Clone, Debug, PartialEq, Eq)]
pub struct TxOut {
    pub value: u64,
    pub script_pubkey: Vec<u8>,
}

/// Consensus encoding of an outpoint: the txid bytes, then the output index little-endian.
pub open spec fn outpoint_bytes(op: OutPoint) -> Seq<u8> {
    op.txid@ + le_u32(op.vout)
}

} // verus!
