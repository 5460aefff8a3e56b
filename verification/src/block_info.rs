//! Per-block facts the index keeps: the block hash and its timestamp.
use vstd::prelude::*;

use crate::address_location::DecodeError;
use crate::bytes::{be_u32, lemma_be_u32_roundtrip, push_all, push_be_u32, read_array32, read_be_u32};

verus! {

broadcast use vstd::array::group_array_axioms;

/// A block's hash (its 32 bytes as the chain stores them) and creation time.
#[derive(Clone, Copy, Debug, PartialEq, Eq)]
pub struct BlockInfo {
    pub hash: [u8; 32],
    pub created: u32,
}

/// Length of a stored `BlockInfo`.
pub const BLOCK_INFO_LEN: usize = 36;

impl BlockInfo {
    /// Stored form: the hash bytes, then the creation time big-endian.
    pub open spec fn stored_bytes(self) -> Seq<u8> {
        self.hash@ + be_u32(self.created)
    }

    /// The stored form of this value.
    pub fn get_bytes(&self) -> (r: Vec<u8>)
        ensures
            r@ == self.stored_bytes(),
    {
        let mut out: Vec<u8> = Vec::with_capacity(BLOCK_INFO_LEN);
        push_all(&mut out, &self.hash);
        push_be_u32(&mut out, self.created);
        out
    }

    /// Reads a stored value. Fewer than 32 bytes are out of its domain; it succeeds exactly on
    /// 36 bytes, and then the value's stored form is the input.
    pub fn from_bytes(v: &[u8]) -> (r: Result<Self, DecodeError>)
        requires
            v@.len() >= 32,
        ensures
            r is Ok <==> v@.len() == BLOCK_INFO_LEN,
            r matches Ok(b) ==> b.stored_bytes() == v@ && b.hash@ == v@.subrange(0, 32)
                && be_u32(b.created) == v@.subrange(32, 36),
            r matches Err(e) ==> e == DecodeError::InvalidLength,
    {
        let hash = read_array32(v, 0);
        if v.len() != BLOCK_INFO_LEN {
            return Err(DecodeError::InvalidLength);
        }
        let created = read_be_u32(v, 32);
        let b = BlockInfo { created, hash };
        assert(b.stored_bytes() =~= v@);
        Ok(b)
    }
}

/// Round trip of the stored form: it has the 36 bytes that `from_bytes` accepts, and two
/// values with one stored form are equal.
pub proof fn lemma_block_info_roundtrip(a: BlockInfo, b: BlockInfo)
    ensures
        a.stored_bytes().len() == BLOCK_INFO_LEN,
        a.stored_bytes() == b.stored_bytes() ==> a == b,
{
    lemma_be_u32_roundtrip(a.created);
    lemma_be_u32_roundtrip(b.created);
    if a.stored_bytes() == b.stored_bytes() {
        let s = a.stored_bytes();
        assert(a.hash@ =~= s.subrange(0, 32));
        assert(b.hash@ =~= s.subrange(0, 32));
        assert(be_u32(a.created) =~= s.subrange(32, 36));
        assert(be_u32(b.created) =~= s.subrange(32, 36));
        assert(a.hash =~= b.hash);
    }
}

} // verus!
