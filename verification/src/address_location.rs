//! Keys that place an inscription at an address, their byte encoding, and the key ranges
//! that list what an address holds.
use vstd::prelude::*;

use core::ops::RangeInclusive;

use crate::bytes::{
    be_u64, in_key_range, le_u32, lemma_be_u64_roundtrip, lemma_extreme_encodings,
    lemma_le_u32_roundtrip, lemma_lex_le_antisym, lemma_lex_le_concat, lemma_lex_le_refl,
    lemma_ones_last, lemma_zeros_first, lex_le, ones, push_all, push_be_u64, read_array32,
    read_be_u64, zeros,
};
use crate::consensus::{deserialize_outpoint, serialize_outpoint};
use crate::types::{outpoint_bytes, FullHash, OutPoint};
use vstd::slice::slice_subrange;

verus! {

broadcast use vstd::array::group_array_axioms;

/// Where an inscription sits: the output that holds it, its offset inside that output, and
/// its number.
#[derive(Clone, Copy, Debug, PartialEq, Eq, Hash, PartialOrd, Ord)]
pub struct Location {
    pub outpoint: OutPoint,
    pub offset: u64,
    pub number: u64,
}

/// An address together with a location it holds.
#[derive(Clone, Copy, Debug, PartialEq, Eq, Hash, PartialOrd, Ord)]
pub struct AddressLocation {
    pub address: FullHash,
    pub location: Location,
}

/// Why stored bytes do not decode.
#[derive(Clone, Copy, Debug, PartialEq, Eq)]
pub enum DecodeError {
    /// The bytes do not have the length the record needs.
    InvalidLength,
    /// The chain's consensus decoder refused a part.
    Consensus,
}

/// Length of an encoded `AddressLocation`.
pub const ADDRESS_LOCATION_LEN: usize = 84;

impl AddressLocation {
    /// The store key: address, consensus-encoded outpoint, then offset and number big-endian.
    pub open spec fn key_bytes(self) -> Seq<u8> {
        self.address@ + outpoint_bytes(self.location.outpoint) + be_u64(self.location.offset)
            + be_u64(self.location.number)
    }

    /// The first and last key of one outpoint of one address.
    pub open spec fn outpoint_bounds(address: FullHash, outpoint: OutPoint) -> (Self, Self) {
        (
            AddressLocation { address, location: Location { outpoint, offset: 0, number: 0 } },
            AddressLocation {
                address,
                location: Location { outpoint, offset: u64::MAX, number: u64::MAX },
            },
        )
    }

    /// The first key of an address at or after the outpoint `offset`, and the last key of
    /// the address.
    pub open spec fn from_offset_bounds(address: FullHash, offset: OutPoint) -> (Self, Self) {
        (
            AddressLocation {
                address,
                location: Location { outpoint: offset, offset: 0, number: 0 },
            },
            AddressLocation {
                address,
                location: Location {
                    outpoint: OutPoint { txid: Self::txid_max(), vout: u32::MAX },
                    offset: u64::MAX,
                    number: u64::MAX,
                },
            },
        )
    }

    /// The first and last key of an address, or of its part from `offset` on.
    pub open spec fn search_bounds(address: FullHash, offset: Option<OutPoint>) -> (Self, Self) {
        match offset {
            Some(o) => Self::from_offset_bounds(address, o),
            None => (
                AddressLocation {
                    address,
                    location: Location {
                        outpoint: OutPoint { txid: Self::txid_min(), vout: 0 },
                        offset: 0,
                        number: 0,
                    },
                },
                Self::from_offset_bounds(address, OutPoint { txid: Self::txid_min(), vout: 0 }).1,
            ),
        }
    }

    pub open spec fn txid_min() -> [u8; 32] {
        vstd::array::spec_array_fill_for_copy_type::<u8, 32>(0u8)
    }

    pub open spec fn txid_max() -> [u8; 32] {
        vstd::array::spec_array_fill_for_copy_type::<u8, 32>(0xffu8)
    }

    /// All keys of `address` at `outpoint`.
    pub fn search_with_offset(address: FullHash, outpoint: OutPoint) -> (r: RangeInclusive<Self>)
        ensures
            r@.start == Self::outpoint_bounds(address, outpoint).0,
            r@.end == Self::outpoint_bounds(address, outpoint).1,
            !r@.exhausted,
    {
        let start = Self { address, location: Location { outpoint, offset: 0, number: 0 } };
        let end = Self {
            address,
            location: Location { outpoint, offset: u64::MAX, number: u64::MAX },
        };
        RangeInclusive::new(start, end)
    }

    /// All keys of `address`, or those from the outpoint `offset` on.
    pub fn search(address: FullHash, offset: Option<OutPoint>) -> (r: RangeInclusive<Self>)
        ensures
            r@.start == Self::search_bounds(address, offset).0,
            r@.end == Self::search_bounds(address, offset).1,
            !r@.exhausted,
    {
        if let Some(offset) = offset {
            return Self::search_offset(address, offset);
        }
        let start = Self {
            address,
            location: Location {
                outpoint: OutPoint { txid: [0u8; 32], vout: 0 },
                offset: 0,
                number: 0,
            },
        };
        let end = Self {
            address,
            location: Location {
                outpoint: OutPoint { txid: [u8::MAX; 32], vout: u32::MAX },
                offset: u64::MAX,
                number: u64::MAX,
            },
        };
        RangeInclusive::new(start, end)
    }

    /// Keys of `address` from the outpoint `offset` to the last key of the address.
    pub fn search_offset(address: FullHash, offset: OutPoint) -> (r: RangeInclusive<Self>)
        ensures
            r@.start == Self::from_offset_bounds(address, offset).0,
            r@.end == Self::from_offset_bounds(address, offset).1,
            !r@.exhausted,
    {
        let start = Self {
            address,
            location: Location { outpoint: offset, offset: 0, number: 0 },
        };
        let end = Self {
            address,
            location: Location {
                outpoint: OutPoint { txid: [u8::MAX; 32], vout: u32::MAX },
                offset: u64::MAX,
                number: u64::MAX,
            },
        };
        RangeInclusive::new(start, end)
    }

    /// The store key of this value.
    pub fn get_bytes(&self) -> (r: Vec<u8>)
        ensures
            r@ == self.key_bytes(),
    {
        let mut result: Vec<u8> = Vec::with_capacity(32 + 44);
        push_all(&mut result, &self.address);
        let op = serialize_outpoint(&self.location.outpoint);
        push_all(&mut result, op.as_slice());
        push_be_u64(&mut result, self.location.offset);
        push_be_u64(&mut result, self.location.number);
        result
    }

    /// Decodes a store key. Fewer than 76 bytes are out of its domain; it succeeds exactly on
    /// 84 bytes, and then the value's key is the input.
    pub fn from_bytes(v: &[u8]) -> (r: Result<Self, DecodeError>)
        requires
            v@.len() >= 76,
        ensures
            r is Ok <==> v@.len() == ADDRESS_LOCATION_LEN,
            r matches Ok(x) ==> x.key_bytes() == v@,
            r matches Ok(x) ==> {
                &&& x.address@ == v@.subrange(0, 32)
                &&& outpoint_bytes(x.location.outpoint) == v@.subrange(32, 68)
                &&& be_u64(x.location.offset) == v@.subrange(68, 76)
                &&& be_u64(x.location.number) == v@.subrange(76, 84)
            },
            r matches Err(e) ==> e == DecodeError::InvalidLength,
    {
        let address = read_array32(v, 0);
        let outpoint = match deserialize_outpoint(slice_subrange(v, 32, 68)) {
            Ok(op) => op,
            Err(_) => {
                return Err(DecodeError::Consensus);
            },
        };
        let offset = read_be_u64(v, 68);
        if v.len() != ADDRESS_LOCATION_LEN {
            return Err(DecodeError::InvalidLength);
        }
        let number = read_be_u64(v, 76);
        let x = Self { address, location: Location { outpoint, offset, number } };
        assert(x.key_bytes() =~= v@);
        Ok(x)
    }
}

/// A key splits into the address and 52 further bytes.
proof fn lemma_key_split(x: AddressLocation)
    ensures
        x.key_bytes() == x.address@ + (outpoint_bytes(x.location.outpoint) + (be_u64(
            x.location.offset,
        ) + be_u64(x.location.number))),
        outpoint_bytes(x.location.outpoint).len() == 36,
        (be_u64(x.location.offset) + be_u64(x.location.number)).len() == 16,
        x.key_bytes().len() == 84,
{
    lemma_le_u32_roundtrip(x.location.outpoint.vout);
    lemma_be_u64_roundtrip(x.location.offset);
    lemma_be_u64_roundtrip(x.location.number);
    assert(x.key_bytes() =~= x.address@ + (outpoint_bytes(x.location.outpoint) + (be_u64(
        x.location.offset,
    ) + be_u64(x.location.number))));
}

/// Outpoints with one encoding are equal.
pub proof fn lemma_outpoint_bytes_injective(a: OutPoint, b: OutPoint)
    ensures
        outpoint_bytes(a).len() == 36,
        outpoint_bytes(a) == outpoint_bytes(b) ==> a == b,
{
    lemma_le_u32_roundtrip(a.vout);
    lemma_le_u32_roundtrip(b.vout);
    if outpoint_bytes(a) == outpoint_bytes(b) {
        assert(a.txid@ =~= outpoint_bytes(a).subrange(0, 32));
        assert(b.txid@ =~= outpoint_bytes(b).subrange(0, 32));
        assert(le_u32(a.vout) =~= outpoint_bytes(a).subrange(32, 36));
        assert(le_u32(b.vout) =~= outpoint_bytes(b).subrange(32, 36));
        assert(a.txid =~= b.txid);
    }
}

/// Round trip of the store key: it has the 84 bytes that `from_bytes` accepts, and two values
/// with one key are equal, so decoding a key gives back the value that was encoded.
pub proof fn lemma_key_bytes_roundtrip(x: AddressLocation, y: AddressLocation)
    ensures
        x.key_bytes().len() == ADDRESS_LOCATION_LEN,
        x.key_bytes() == y.key_bytes() ==> x == y,
{
    lemma_key_split(x);
    lemma_key_split(y);
    if x.key_bytes() == y.key_bytes() {
        let k = x.key_bytes();
        assert(x.address@ =~= k.subrange(0, 32));
        assert(y.address@ =~= k.subrange(0, 32));
        assert(outpoint_bytes(x.location.outpoint) =~= k.subrange(32, 68));
        assert(outpoint_bytes(y.location.outpoint) =~= k.subrange(32, 68));
        assert(be_u64(x.location.offset) =~= k.subrange(68, 76));
        assert(be_u64(y.location.offset) =~= k.subrange(68, 76));
        assert(be_u64(x.location.number) =~= k.subrange(76, 84));
        assert(be_u64(y.location.number) =~= k.subrange(76, 84));
        lemma_outpoint_bytes_injective(x.location.outpoint, y.location.outpoint);
        lemma_be_u64_roundtrip(x.location.offset);
        lemma_be_u64_roundtrip(y.location.offset);
        lemma_be_u64_roundtrip(x.location.number);
        lemma_be_u64_roundtrip(y.location.number);
        assert(x.address =~= y.address);
    }
}

proof fn lemma_fill_views()
    ensures
        AddressLocation::txid_min()@ == zeros(32),
        AddressLocation::txid_max()@ == ones(32),
{
    assert(AddressLocation::txid_min()@ =~= zeros(32));
    assert(AddressLocation::txid_max()@ =~= ones(32));
}

/// A key lies in the range of `p + lo` to `p + hi` exactly when it starts with `p`, given that
/// its rest lies between `lo` and `hi`; keys with another start of that length lie outside.
proof fn lemma_prefix_range(p: Seq<u8>, lo: Seq<u8>, hi: Seq<u8>, q: Seq<u8>, rest: Seq<u8>)
    requires
        p.len() == q.len(),
        lex_le(lo, rest),
        lex_le(rest, hi),
    ensures
        in_key_range(p + lo, p + hi, q + rest) <==> p == q,
{
    lemma_lex_le_concat(p, lo, q, rest);
    lemma_lex_le_concat(q, rest, p, hi);
    if lex_le(p, q) && lex_le(q, p) {
        lemma_lex_le_antisym(p, q);
    }
}

/// `search(address, None)` covers the keys of `address` and no other key.
pub proof fn lemma_search_covers_address(address: FullHash, x: AddressLocation)
    ensures
        in_key_range(
            AddressLocation::search_bounds(address, None).0.key_bytes(),
            AddressLocation::search_bounds(address, None).1.key_bytes(),
            x.key_bytes(),
        ) <==> x.address == address,
{
    let (s, e) = AddressLocation::search_bounds(address, None);
    lemma_key_split(s);
    lemma_key_split(e);
    lemma_key_split(x);
    lemma_fill_views();
    lemma_extreme_encodings();
    let rest = outpoint_bytes(x.location.outpoint) + (be_u64(x.location.offset) + be_u64(
        x.location.number,
    ));
    assert(outpoint_bytes(s.location.outpoint) + (be_u64(0) + be_u64(0)) =~= zeros(52));
    assert(outpoint_bytes(e.location.outpoint) + (be_u64(u64::MAX) + be_u64(u64::MAX)) =~= ones(
        52,
    ));
    lemma_zeros_first(52, rest);
    lemma_ones_last(52, rest);
    lemma_prefix_range(address@, zeros(52), ones(52), x.address@, rest);
    if x.address@ == address@ {
        assert(x.address =~= address);
    }
}

/// `search_with_offset(address, outpoint)` covers the keys of `address` at `outpoint` and no
/// other key.
pub proof fn lemma_search_with_offset_covers_outpoint(
    address: FullHash,
    outpoint: OutPoint,
    x: AddressLocation,
)
    ensures
        in_key_range(
            AddressLocation::outpoint_bounds(address, outpoint).0.key_bytes(),
            AddressLocation::outpoint_bounds(address, outpoint).1.key_bytes(),
            x.key_bytes(),
        ) <==> (x.address == address && x.location.outpoint == outpoint),
{
    let (s, e) = AddressLocation::outpoint_bounds(address, outpoint);
    lemma_extreme_encodings();
    lemma_outpoint_bytes_injective(outpoint, x.location.outpoint);
    let p = address@ + outpoint_bytes(outpoint);
    let q = x.address@ + outpoint_bytes(x.location.outpoint);
    let rest = be_u64(x.location.offset) + be_u64(x.location.number);
    lemma_be_u64_roundtrip(x.location.offset);
    lemma_be_u64_roundtrip(x.location.number);
    assert(s.key_bytes() =~= p + zeros(16));
    assert(e.key_bytes() =~= p + ones(16));
    assert(x.key_bytes() =~= q + rest);
    lemma_zeros_first(16, rest);
    lemma_ones_last(16, rest);
    lemma_prefix_range(p, zeros(16), ones(16), q, rest);
    if p == q {
        assert(address@ =~= p.subrange(0, 32));
        assert(x.address@ =~= q.subrange(0, 32));
        assert(outpoint_bytes(outpoint) =~= p.subrange(32, 68));
        assert(outpoint_bytes(x.location.outpoint) =~= q.subrange(32, 68));
        assert(x.address =~= address);
    }
}

/// `search(address, Some(offset))` covers the keys of `address` whose outpoint encodes at or
/// after `offset` in byte order, and no other key.
pub proof fn lemma_search_from_offset(address: FullHash, offset: OutPoint, x: AddressLocation)
    ensures
        in_key_range(
            AddressLocation::search_bounds(address, Some(offset)).0.key_bytes(),
            AddressLocation::search_bounds(address, Some(offset)).1.key_bytes(),
            x.key_bytes(),
        ) <==> (x.address == address && lex_le(
            outpoint_bytes(offset),
            outpoint_bytes(x.location.outpoint),
        )),
{
    let (s, e) = AddressLocation::search_bounds(address, Some(offset));
    lemma_key_split(s);
    lemma_key_split(e);
    lemma_key_split(x);
    lemma_fill_views();
    lemma_extreme_encodings();
    lemma_outpoint_bytes_injective(offset, x.location.outpoint);
    let t = be_u64(x.location.offset) + be_u64(x.location.number);
    let rest = outpoint_bytes(x.location.outpoint) + t;
    let lo = outpoint_bytes(offset) + zeros(16);
    assert(s.key_bytes() =~= address@ + lo);
    assert(outpoint_bytes(e.location.outpoint) + (be_u64(u64::MAX) + be_u64(u64::MAX)) =~= ones(
        52,
    ));
    lemma_zeros_first(16, t);
    lemma_ones_last(52, rest);
    lemma_lex_le_concat(outpoint_bytes(offset), zeros(16), outpoint_bytes(x.location.outpoint), t);
    lemma_lex_le_refl(outpoint_bytes(offset));
    lemma_lex_le_concat(address@, lo, x.address@, rest);
    lemma_lex_le_concat(x.address@, rest, address@, ones(52));
    if lex_le(address@, x.address@) && lex_le(x.address@, address@) {
        lemma_lex_le_antisym(address@, x.address@);
    }
    if x.address@ == address@ {
        assert(x.address =~= address);
    }
}

} // verus!
