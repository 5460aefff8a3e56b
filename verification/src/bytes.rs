//! Fixed-width integer encodings and the bytewise order in which the store keeps keys.
use vstd::prelude::*;

verus! {

/// `n` zero bytes.
pub open spec fn zeros(n: nat) -> Seq<u8> {
    Seq::new(n, |i: int| 0u8)
}

/// `n` bytes of value `0xff`.
pub open spec fn ones(n: nat) -> Seq<u8> {
    Seq::new(n, |i: int| 0xffu8)
}

/// Big-endian bytes of a `u32`.
pub open spec fn be_u32(x: u32) -> Seq<u8> {
    seq![
        ((x >> 24u32) & 0xffu32) as u8,
        ((x >> 16u32) & 0xffu32) as u8,
        ((x >> 8u32) & 0xffu32) as u8,
        (x & 0xffu32) as u8,
    ]
}

/// Little-endian bytes of a `u32`.
pub open spec fn le_u32(x: u32) -> Seq<u8> {
    seq![
        (x & 0xffu32) as u8,
        ((x >> 8u32) & 0xffu32) as u8,
        ((x >> 16u32) & 0xffu32) as u8,
        ((x >> 24u32) & 0xffu32) as u8,
    ]
}

/// Big-endian bytes of a `u64`.
pub open spec fn be_u64(x: u64) -> Seq<u8> {
    seq![
        ((x >> 56u64) & 0xffu64) as u8,
        ((x >> 48u64) & 0xffu64) as u8,
        ((x >> 40u64) & 0xffu64) as u8,
        ((x >> 32u64) & 0xffu64) as u8,
        ((x >> 24u64) & 0xffu64) as u8,
        ((x >> 16u64) & 0xffu64) as u8,
        ((x >> 8u64) & 0xffu64) as u8,
        (x & 0xffu64) as u8,
    ]
}

/// The `u32` whose big-endian bytes are the first four of `s`.
pub open spec fn u32_of_be(s: Seq<u8>) -> u32 {
    ((s[0] as u32) << 24u32) | ((s[1] as u32) << 16u32) | ((s[2] as u32) << 8u32) | (s[3] as u32)
}

/// The `u64` whose big-endian bytes are the first eight of `s`.
pub open spec fn u64_of_be(s: Seq<u8>) -> u64 {
    ((s[0] as u64) << 56u64) | ((s[1] as u64) << 48u64) | ((s[2] as u64) << 40u64) | ((
    s[3] as u64) << 32u64) | ((s[4] as u64) << 24u64) | ((s[5] as u64) << 16u64) | ((
    s[6] as u64) << 8u64) | (s[7] as u64)
}

/// The `u32` whose little-endian bytes are the first four of `s`.
pub open spec fn u32_of_le(s: Seq<u8>) -> u32 {
    ((s[3] as u32) << 24u32) | ((s[2] as u32) << 16u32) | ((s[1] as u32) << 8u32) | (s[0] as u32)
}

/// Bytewise (lexicographic) order, where a proper prefix comes first.
pub open spec fn lex_le(a: Seq<u8>, b: Seq<u8>) -> bool
    decreases a.len(),
{
    if a.len() == 0 {
        true
    } else if b.len() == 0 {
        false
    } else if a[0] != b[0] {
        a[0] < b[0]
    } else {
        lex_le(a.drop_first(), b.drop_first())
    }
}

/// `k` lies in the inclusive key range from `start` to `end`.
pub open spec fn in_key_range(start: Seq<u8>, end: Seq<u8>, k: Seq<u8>) -> bool {
    lex_le(start, k) && lex_le(k, end)
}

pub proof fn lemma_be_u32_roundtrip(x: u32)
    ensures
        u32_of_be(be_u32(x)) == x,
        be_u32(x).len() == 4,
{
    let b0 = ((x >> 24u32) & 0xffu32) as u8;
    let b1 = ((x >> 16u32) & 0xffu32) as u8;
    let b2 = ((x >> 8u32) & 0xffu32) as u8;
    let b3 = (x & 0xffu32) as u8;
    assert(((b0 as u32) << 24u32) | ((b1 as u32) << 16u32) | ((b2 as u32) << 8u32) | (b3 as u32)
        == x) by (bit_vector)
        requires
            b0 == ((x >> 24u32) & 0xffu32) as u8,
            b1 == ((x >> 16u32) & 0xffu32) as u8,
            b2 == ((x >> 8u32) & 0xffu32) as u8,
            b3 == (x & 0xffu32) as u8,
    ;
}

pub proof fn lemma_be_u32_of_bytes(s: Seq<u8>)
    requires
        s.len() == 4,
    ensures
        be_u32(u32_of_be(s)) == s,
{
    let (b0, b1, b2, b3) = (s[0], s[1], s[2], s[3]);
    let x = u32_of_be(s);
    assert(((x >> 24u32) & 0xffu32) as u8 == b0 && ((x >> 16u32) & 0xffu32) as u8 == b1 && ((x
        >> 8u32) & 0xffu32) as u8 == b2 && (x & 0xffu32) as u8 == b3) by (bit_vector)
        requires
            x == ((b0 as u32) << 24u32) | ((b1 as u32) << 16u32) | ((b2 as u32) << 8u32) | (
            b3 as u32),
    ;
    assert(be_u32(x) =~= s);
}

pub proof fn lemma_le_u32_roundtrip(x: u32)
    ensures
        u32_of_le(le_u32(x)) == x,
        le_u32(x).len() == 4,
{
    let b0 = (x & 0xffu32) as u8;
    let b1 = ((x >> 8u32) & 0xffu32) as u8;
    let b2 = ((x >> 16u32) & 0xffu32) as u8;
    let b3 = ((x >> 24u32) & 0xffu32) as u8;
    assert(((b3 as u32) << 24u32) | ((b2 as u32) << 16u32) | ((b1 as u32) << 8u32) | (b0 as u32)
        == x) by (bit_vector)
        requires
            b0 == (x & 0xffu32) as u8,
            b1 == ((x >> 8u32) & 0xffu32) as u8,
            b2 == ((x >> 16u32) & 0xffu32) as u8,
            b3 == ((x >> 24u32) & 0xffu32) as u8,
    ;
}

pub proof fn lemma_le_u32_of_bytes(s: Seq<u8>)
    requires
        s.len() == 4,
    ensures
        le_u32(u32_of_le(s)) == s,
{
    let (b0, b1, b2, b3) = (s[0], s[1], s[2], s[3]);
    let x = u32_of_le(s);
    assert((x & 0xffu32) as u8 == b0 && ((x >> 8u32) & 0xffu32) as u8 == b1 && ((x >> 16u32)
        & 0xffu32) as u8 == b2 && ((x >> 24u32) & 0xffu32) as u8 == b3) by (bit_vector)
        requires
            x == ((b3 as u32) << 24u32) | ((b2 as u32) << 16u32) | ((b1 as u32) << 8u32) | (
            b0 as u32),
    ;
    assert(le_u32(x) =~= s);
}

pub proof fn lemma_be_u64_roundtrip(x: u64)
    ensures
        u64_of_be(be_u64(x)) == x,
        be_u64(x).len() == 8,
{
    let b0 = ((x >> 56u64) & 0xffu64) as u8;
    let b1 = ((x >> 48u64) & 0xffu64) as u8;
    let b2 = ((x >> 40u64) & 0xffu64) as u8;
    let b3 = ((x >> 32u64) & 0xffu64) as u8;
    let b4 = ((x >> 24u64) & 0xffu64) as u8;
    let b5 = ((x >> 16u64) & 0xffu64) as u8;
    let b6 = ((x >> 8u64) & 0xffu64) as u8;
    let b7 = (x & 0xffu64) as u8;
    assert(((b0 as u64) << 56u64) | ((b1 as u64) << 48u64) | ((b2 as u64) << 40u64) | ((
    b3 as u64) << 32u64) | ((b4 as u64) << 24u64) | ((b5 as u64) << 16u64) | ((b6 as u64)
        << 8u64) | (b7 as u64) == x) by (bit_vector)
        requires
            b0 == ((x >> 56u64) & 0xffu64) as u8,
            b1 == ((x >> 48u64) & 0xffu64) as u8,
            b2 == ((x >> 40u64) & 0xffu64) as u8,
            b3 == ((x >> 32u64) & 0xffu64) as u8,
            b4 == ((x >> 24u64) & 0xffu64) as u8,
            b5 == ((x >> 16u64) & 0xffu64) as u8,
            b6 == ((x >> 8u64) & 0xffu64) as u8,
            b7 == (x & 0xffu64) as u8,
    ;
}

pub proof fn lemma_be_u64_of_bytes(s: Seq<u8>)
    requires
        s.len() == 8,
    ensures
        be_u64(u64_of_be(s)) == s,
{
    let (b0, b1, b2, b3, b4, b5, b6, b7) = (s[0], s[1], s[2], s[3], s[4], s[5], s[6], s[7]);
    let x = u64_of_be(s);
    assert(((x >> 56u64) & 0xffu64) as u8 == b0 && ((x >> 48u64) & 0xffu64) as u8 == b1 && ((x
        >> 40u64) & 0xffu64) as u8 == b2 && ((x >> 32u64) & 0xffu64) as u8 == b3 && ((x >> 24u64)
        & 0xffu64) as u8 == b4 && ((x >> 16u64) & 0xffu64) as u8 == b5 && ((x >> 8u64) & 0xffu64)
        as u8 == b6 && (x & 0xffu64) as u8 == b7) by (bit_vector)
        requires
            x == ((b0 as u64) << 56u64) | ((b1 as u64) << 48u64) | ((b2 as u64) << 40u64) | ((
            b3 as u64) << 32u64) | ((b4 as u64) << 24u64) | ((b5 as u64) << 16u64) | ((
            b6 as u64) << 8u64) | (b7 as u64),
    ;
    assert(be_u64(x) =~= s);
}

/// The extreme values encode as all-zero and all-`0xff` bytes.
pub proof fn lemma_extreme_encodings()
    ensures
        be_u64(0) == zeros(8),
        be_u64(u64::MAX) == ones(8),
        le_u32(0) == zeros(4),
        le_u32(u32::MAX) == ones(4),
{
    assert(((0u64 >> 56u64) & 0xffu64) as u8 == 0 && ((0u64 >> 48u64) & 0xffu64) as u8 == 0
        && ((0u64 >> 40u64) & 0xffu64) as u8 == 0 && ((0u64 >> 32u64) & 0xffu64) as u8 == 0 && ((
    0u64 >> 24u64) & 0xffu64) as u8 == 0 && ((0u64 >> 16u64) & 0xffu64) as u8 == 0 && ((0u64
        >> 8u64) & 0xffu64) as u8 == 0 && (0u64 & 0xffu64) as u8 == 0) by (bit_vector);
    let m: u64 = 0xffff_ffff_ffff_ffffu64;
    assert(((m >> 56u64) & 0xffu64) as u8 == 0xff && ((m >> 48u64) & 0xffu64) as u8 == 0xff
        && ((m >> 40u64) & 0xffu64) as u8 == 0xff && ((m >> 32u64) & 0xffu64) as u8 == 0xff && ((
    m >> 24u64) & 0xffu64) as u8 == 0xff && ((m >> 16u64) & 0xffu64) as u8 == 0xff && ((m
        >> 8u64) & 0xffu64) as u8 == 0xff && (m & 0xffu64) as u8 == 0xff) by (bit_vector)
        requires
            m == 0xffff_ffff_ffff_ffffu64,
    ;
    assert((0u32 & 0xffu32) as u8 == 0 && ((0u32 >> 8u32) & 0xffu32) as u8 == 0 && ((0u32
        >> 16u32) & 0xffu32) as u8 == 0 && ((0u32 >> 24u32) & 0xffu32) as u8 == 0) by (bit_vector);
    let w: u32 = 0xffff_ffffu32;
    assert((w & 0xffu32) as u8 == 0xff && ((w >> 8u32) & 0xffu32) as u8 == 0xff && ((w >> 16u32)
        & 0xffu32) as u8 == 0xff && ((w >> 24u32) & 0xffu32) as u8 == 0xff) by (bit_vector)
        requires
            w == 0xffff_ffffu32,
    ;
    assert(be_u64(0) =~= zeros(8));
    assert(be_u64(u64::MAX) =~= ones(8));
    assert(le_u32(0) =~= zeros(4));
    assert(le_u32(u32::MAX) =~= ones(4));
}

pub proof fn lemma_lex_le_refl(a: Seq<u8>)
    ensures
        lex_le(a, a),
    decreases a.len(),
{
    if a.len() > 0 {
        lemma_lex_le_refl(a.drop_first());
    }
}

/// Two sequences of one length that precede each other are equal.
pub proof fn lemma_lex_le_antisym(a: Seq<u8>, b: Seq<u8>)
    requires
        a.len() == b.len(),
        lex_le(a, b),
        lex_le(b, a),
    ensures
        a == b,
    decreases a.len(),
{
    if a.len() == 0 {
        assert(a =~= b);
    } else {
        lemma_lex_le_antisym(a.drop_first(), b.drop_first());
        assert(a =~= seq![a[0]] + a.drop_first());
        assert(b =~= seq![b[0]] + b.drop_first());
    }
}

/// All-zero bytes precede every sequence of the same length.
pub proof fn lemma_zeros_first(n: nat, s: Seq<u8>)
    requires
        s.len() == n,
    ensures
        lex_le(zeros(n), s),
    decreases n,
{
    if n > 0 {
        assert(zeros(n).drop_first() =~= zeros((n - 1) as nat));
        lemma_zeros_first((n - 1) as nat, s.drop_first());
    }
}

/// All-`0xff` bytes follow every sequence of the same length.
pub proof fn lemma_ones_last(n: nat, s: Seq<u8>)
    requires
        s.len() == n,
    ensures
        lex_le(s, ones(n)),
    decreases n,
{
    if n > 0 {
        assert(ones(n).drop_first() =~= ones((n - 1) as nat));
        lemma_ones_last((n - 1) as nat, s.drop_first());
    }
}

/// Comparing two concatenations whose first parts have one length: the first parts decide,
/// unless they are equal.
pub proof fn lemma_lex_le_concat(p1: Seq<u8>, s1: Seq<u8>, p2: Seq<u8>, s2: Seq<u8>)
    requires
        p1.len() == p2.len(),
    ensures
        lex_le(p1 + s1, p2 + s2) == if p1 == p2 {
            lex_le(s1, s2)
        } else {
            lex_le(p1, p2)
        },
    decreases p1.len(),
{
    if p1.len() == 0 {
        assert(p1 =~= p2);
        assert(p1 + s1 =~= s1);
        assert(p2 + s2 =~= s2);
    } else {
        assert((p1 + s1).drop_first() =~= p1.drop_first() + s1);
        assert((p2 + s2).drop_first() =~= p2.drop_first() + s2);
        lemma_lex_le_concat(p1.drop_first(), s1, p2.drop_first(), s2);
        if p1[0] == p2[0] {
            if p1.drop_first() == p2.drop_first() {
                assert(p1 =~= seq![p1[0]] + p1.drop_first());
                assert(p2 =~= seq![p2[0]] + p2.drop_first());
            } else {
                assert(p1 != p2);
            }
        } else {
            assert(p1 != p2);
        }
    }
}

/// Pushes the big-endian bytes of `x`.
pub fn push_be_u32(out: &mut Vec<u8>, x: u32)
    ensures
        final(out)@ == old(out)@ + be_u32(x),
{
    out.push(((x >> 24u32) & 0xffu32) as u8);
    out.push(((x >> 16u32) & 0xffu32) as u8);
    out.push(((x >> 8u32) & 0xffu32) as u8);
    out.push((x & 0xffu32) as u8);
    assert(out@ =~= old(out)@ + be_u32(x));
}

/// Pushes the big-endian bytes of `x`.
pub fn push_be_u64(out: &mut Vec<u8>, x: u64)
    ensures
        final(out)@ == old(out)@ + be_u64(x),
{
    out.push(((x >> 56u64) & 0xffu64) as u8);
    out.push(((x >> 48u64) & 0xffu64) as u8);
    out.push(((x >> 40u64) & 0xffu64) as u8);
    out.push(((x >> 32u64) & 0xffu64) as u8);
    out.push(((x >> 24u64) & 0xffu64) as u8);
    out.push(((x >> 16u64) & 0xffu64) as u8);
    out.push(((x >> 8u64) & 0xffu64) as u8);
    out.push((x & 0xffu64) as u8);
    assert(out@ =~= old(out)@ + be_u64(x));
}

/// Appends all of `bytes`.
pub fn push_all(out: &mut Vec<u8>, bytes: &[u8])
    ensures
        final(out)@ == old(out)@ + bytes@,
{
    let mut i: usize = 0;
    while i < bytes.len()
        invariant
            i <= bytes@.len(),
            out@ == old(out)@ + bytes@.subrange(0, i as int),
        decreases bytes@.len() - i,
    {
        out.push(bytes[i]);
        i = i + 1;
        assert(out@ =~= old(out)@ + bytes@.subrange(0, i as int));
    }
    assert(bytes@.subrange(0, i as int) =~= bytes@);
}

/// Reads the big-endian `u32` stored at `at`.
pub fn read_be_u32(v: &[u8], at: usize) -> (r: u32)
    requires
        at + 4 <= v@.len(),
    ensures
        r == u32_of_be(v@.subrange(at as int, at + 4)),
        be_u32(r) == v@.subrange(at as int, at + 4),
{
    let r = ((v[at] as u32) << 24u32) | ((v[at + 1] as u32) << 16u32) | ((v[at + 2] as u32)
        << 8u32) | (v[at + 3] as u32);
    proof {
        lemma_be_u32_of_bytes(v@.subrange(at as int, at + 4));
    }
    r
}

/// Reads the big-endian `u64` stored at `at`.
pub fn read_be_u64(v: &[u8], at: usize) -> (r: u64)
    requires
        at + 8 <= v@.len(),
    ensures
        r == u64_of_be(v@.subrange(at as int, at + 8)),
        be_u64(r) == v@.subrange(at as int, at + 8),
{
    let r = ((v[at] as u64) << 56u64) | ((v[at + 1] as u64) << 48u64) | ((v[at + 2] as u64)
        << 40u64) | ((v[at + 3] as u64) << 32u64) | ((v[at + 4] as u64) << 24u64) | ((v[at
        + 5] as u64) << 16u64) | ((v[at + 6] as u64) << 8u64) | (v[at + 7] as u64);
    proof {
        lemma_be_u64_of_bytes(v@.subrange(at as int, at + 8));
    }
    r
}

/// Copies the 32 bytes that start at `at` into an array.
pub fn read_array32(v: &[u8], at: usize) -> (r: [u8; 32])
    requires
        at + 32 <= v@.len(),
    ensures
        r@ == v@.subrange(at as int, at + 32),
{
    let mut r = [0u8; 32];
    let mut i: usize = 0;
    while i < 32
        invariant
            i <= 32,
            at + 32 <= v.len(),
            forall|j: int| 0 <= j < i ==> r@[j] == v@[at + j],
        decreases 32 - i,
    {
        r[i] = v[at + i];
        i = i + 1;
    }
    assert(r@ =~= v@.subrange(at as int, at + 32));
    r
}

/// Bytewise equality of two arrays.
pub fn array32_eq(a: &[u8; 32], b: &[u8; 32]) -> (r: bool)
    ensures
        r == (a@ == b@),
{
    let mut i: usize = 0;
    while i < 32
        invariant
            i <= 32,
            forall|j: int| 0 <= j < i ==> a@[j] == b@[j],
        decreases 32 - i,
    {
        if a[i] != b[i] {
            return false;
        }
        i = i + 1;
    }
    assert(a@ =~= b@);
    true
}

} // verus!
