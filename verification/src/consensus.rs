//! The chain's consensus (de)serialisation, as the `bellscoin` crate implements it.
use vstd::prelude::*;

use crate::types::{OutPoint, outpoint_bytes};

verus! {

#[verifier::external_type_specification]
#[verifier::external_body]
pub struct ExConsensusError(bellscoin::consensus::encode::Error);

/// Calls `bellscoin::consensus::serialize` on an `OutPoint`. Claimed: the result is the 32 txid
/// bytes as stored, then the output index as four little-endian bytes (the `Encodable` impls of
/// `OutPoint`, of the txid's byte array and of `u32` write exactly these).
#[verifier::external_body]
pub(crate) fn serialize_outpoint(op: &OutPoint) -> (r: Vec<u8>)
    ensures
        r@ == outpoint_bytes(*op),
{
    bellscoin::consensus::serialize(
        &bellscoin::OutPoint { txid: <bellscoin::Txid as bellscoin::hashes::Hash>::from_byte_array(op.txid), vout: op.vout },
    )
}

/// Calls `bellscoin::consensus::deserialize::<OutPoint>`. Claimed: it succeeds exactly on 36
/// bytes (fewer run out while reading, more are refused as not consumed), and then the
/// outpoint's consensus encoding is the input.
#[verifier::external_body]
pub(crate) fn deserialize_outpoint(v: &[u8]) -> (r: Result<
    OutPoint,
    bellscoin::consensus::encode::Error,
>)
    ensures
        r is Ok <==> v@.len() == 36,
        r matches Ok(op) ==> outpoint_bytes(op) == v@,
{
    match bellscoin::consensus::deserialize::<bellscoin::OutPoint>(v) {
        Ok(op) => Ok(OutPoint { txid: <bellscoin::Txid as bellscoin::hashes::Hash>::to_byte_array(op.txid), vout: op.vout }),
        Err(e) => Err(e),
    }
}

/// Calls `bellscoin::consensus::serialize` on a `Txid` made from `txid`. Claimed: the result is
/// the 32 bytes as given (a hash serialises as its byte array).
#[verifier::external_body]
pub(crate) fn serialize_txid(txid: &[u8; 32]) -> (r: Vec<u8>)
    ensures
        r@ == txid@,
{
    bellscoin::consensus::serialize(&<bellscoin::Txid as bellscoin::hashes::Hash>::from_byte_array(*txid))
}

/// Calls `bellscoin::consensus::deserialize::<Txid>`. Claimed: it succeeds exactly on 32 bytes,
/// and then the txid's bytes are the input.
#[verifier::external_body]
pub(crate) fn deserialize_txid(v: &[u8]) -> (r: Result<[u8; 32], bellscoin::consensus::encode::Error>)
    ensures
        r is Ok <==> v@.len() == 32,
        r matches Ok(t) ==> t@ == v@,
{
    match bellscoin::consensus::deserialize::<bellscoin::Txid>(v) {
        Ok(t) => Ok(<bellscoin::Txid as bellscoin::hashes::Hash>::to_byte_array(t)),
        Err(e) => Err(e),
    }
}

} // verus!
