//! Checks and key ranges behind the history endpoints of the REST interface.
use vstd::prelude::*;

use core::ops::Range;

use crate::bytes::{
    le_u32, lemma_extreme_encodings, lemma_le_u32_roundtrip, lemma_lex_le_antisym,
    lemma_lex_le_concat, lemma_ones_last, lemma_zeros_first, lex_le, ones, zeros,
};
use crate::types::{outpoint_bytes, OutPoint};

verus! {

broadcast use vstd::array::group_array_axioms;

/// The most entries one page of history may hold; also the size of a page by default.
pub const MAX_PAGE_LIMIT: usize = 100;

/// Why a request is refused.
#[derive(Clone, Copy, Debug, PartialEq, Eq)]
pub enum RequestError {
    /// A page larger than `MAX_PAGE_LIMIT` was asked for.
    LimitExceeded,
}

/// The size of the page to return: the requested limit, or 100 when none is given; a limit
/// above 100 is refused.
pub fn page_limit(limit: Option<usize>) -> (r: Result<usize, RequestError>)
    ensures
        r == (match limit {
            Some(l) => if l > MAX_PAGE_LIMIT {
                Err(RequestError::LimitExceeded)
            } else {
                Ok(l)
            },
            None => Ok(MAX_PAGE_LIMIT),
        }),
{
    if let Some(limit) = limit {
        if limit > MAX_PAGE_LIMIT {
            return Err(RequestError::LimitExceeded);
        }
        return Ok(limit);
    }
    Ok(MAX_PAGE_LIMIT)
}

/// The outpoints of the transaction `txid`, from output 0 up to, not including, output
/// `u32::MAX`.
pub fn txid_outpoint_range(txid: [u8; 32]) -> (r: Range<OutPoint>)
    ensures
        r.start == (OutPoint { txid, vout: 0 }),
        r.end == (OutPoint { txid, vout: u32::MAX }),
{
    Range { start: OutPoint { txid, vout: 0 }, end: OutPoint { txid, vout: u32::MAX } }
}

/// `k` lies from `start` up to, not including, `end`.
pub open spec fn in_half_open_key_range(start: Seq<u8>, end: Seq<u8>, k: Seq<u8>) -> bool {
    lex_le(start, k) && lex_le(k, end) && k != end
}

/// In the order of the stored keys, the range of `txid_outpoint_range(txid)` holds every
/// outpoint of `txid` but the one with index `u32::MAX`, and no outpoint of another
/// transaction.
pub proof fn lemma_txid_range_covers_outputs(txid: [u8; 32], op: OutPoint)
    ensures
        in_half_open_key_range(
            outpoint_bytes(OutPoint { txid, vout: 0 }),
            outpoint_bytes(OutPoint { txid, vout: u32::MAX }),
            outpoint_bytes(op),
        ) <==> (op.txid == txid && op.vout != u32::MAX),
{
    lemma_extreme_encodings();
    lemma_le_u32_roundtrip(op.vout);
    lemma_le_u32_roundtrip(u32::MAX);
    let p = txid@;
    let q = op.txid@;
    let r = le_u32(op.vout);
    lemma_zeros_first(4, r);
    lemma_ones_last(4, r);
    lemma_lex_le_concat(p, zeros(4), q, r);
    lemma_lex_le_concat(q, r, p, ones(4));
    if lex_le(p, q) && lex_le(q, p) {
        lemma_lex_le_antisym(p, q);
    }
    if q == p {
        assert(op.txid =~= txid);
        if r == ones(4) {
            assert(op.vout == u32::MAX);
        }
    }
    if q + r == p + ones(4) {
        assert(q =~= (q + r).subrange(0, 32));
        assert(p =~= (p + ones(4)).subrange(0, 32));
        assert(r =~= (q + r).subrange(32, 36));
        assert(ones(4) =~= (p + ones(4)).subrange(32, 36));
    }
}

} // verus!
