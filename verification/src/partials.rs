//! Parts of an inscription that spans several inputs, kept until the inscription is complete,
//! and their stored form.
use vstd::prelude::*;

use crate::address_location::DecodeError;
use crate::bytes::{
    be_u32, lemma_be_u32_roundtrip, push_all, push_be_u32,
    read_be_u32, u32_of_be,
};
use crate::consensus::{deserialize_txid, serialize_txid};
use vstd::slice::{slice_subrange, slice_to_vec};

verus! {

/// One envelope part of an inscription: whether it sits in a tapscript, and its script bytes.
#[derive(Clone, Debug)]
pub struct Part {
    pub is_tapscript: bool,
    pub script_buffer: Vec<u8>,
}

/// The parts collected so far for the inscription at `inscription_index` of the transaction
/// `genesis_txid`.
#[derive(Clone, Debug)]
pub struct Partials {
    pub inscription_index: u32,
    pub genesis_txid: [u8; 32],
    pub parts: Vec<Part>,
}

/// A part as plain values: the tapscript flag and the script.
pub type PartView = (bool, Seq<u8>);

/// `Partials` as plain values.
pub struct PartialsView {
    pub inscription_index: u32,
    pub genesis_txid: Seq<u8>,
    pub parts: Seq<PartView>,
}

impl View for Part {
    type V = PartView;

    open spec fn view(&self) -> PartView {
        (self.is_tapscript, self.script_buffer@)
    }
}

impl View for Partials {
    type V = PartialsView;

    open spec fn view(&self) -> PartialsView {
        PartialsView {
            inscription_index: self.inscription_index,
            genesis_txid: self.genesis_txid@,
            parts: self.parts@.map_values(|p: Part| p@),
        }
    }
}

/// Stored form of one part: a flag byte (1 for tapscript, else 0), the script's length as a
/// big-endian `u32` (the length cut to 32 bits), then the script.
pub open spec fn part_bytes(p: PartView) -> Seq<u8> {
    seq![if p.0 { 1u8 } else { 0u8 }] + be_u32(p.1.len() as u32) + p.1
}

/// Stored form of a list of parts: their stored forms one after another.
pub open spec fn parts_bytes(ps: Seq<PartView>) -> Seq<u8>
    decreases ps.len(),
{
    if ps.len() == 0 {
        Seq::empty()
    } else {
        part_bytes(ps[0]) + parts_bytes(ps.drop_first())
    }
}

/// Stored form of `Partials`: the index big-endian, the txid bytes, then the parts.
pub open spec fn partials_bytes(v: PartialsView) -> Seq<u8> {
    be_u32(v.inscription_index) + v.genesis_txid + parts_bytes(v.parts)
}

/// What the part reader makes of the bytes after the header. Each step reads a flag byte (set
/// when it is 1) and a big-endian length `n`, takes the `n` bytes after the length as the
/// script, and goes on five bytes further, at the script's start. It ends where the bytes
/// end; it has no result where a step would read past them.
pub open spec fn parse_parts(s: Seq<u8>) -> Option<Seq<PartView>>
    decreases s.len(),
{
    if s.len() == 0 {
        Some(Seq::empty())
    } else if s.len() < 5 {
        None
    } else {
        let n = u32_of_be(s.subrange(1, 5)) as int;
        if 5 + n > s.len() {
            None
        } else {
            match parse_parts(s.skip(5)) {
                Some(rest) => Some(seq![(s[0] == 1u8, s.subrange(5, 5 + n))] + rest),
                None => None,
            }
        }
    }
}

/// What `Partials::from_bytes` makes of `v`, where it returns.
pub open spec fn parse_partials(v: Seq<u8>) -> Option<PartialsView> {
    if v.len() < 36 {
        None
    } else {
        match parse_parts(v.skip(36)) {
            Some(parts) => Some(
                PartialsView {
                    inscription_index: u32_of_be(v.subrange(0, 4)),
                    genesis_txid: v.subrange(4, 36),
                    parts,
                },
            ),
            None => None,
        }
    }
}

proof fn lemma_parts_bytes_push(ps: Seq<PartView>, p: PartView)
    ensures
        parts_bytes(ps.push(p)) == parts_bytes(ps) + part_bytes(p),
    decreases ps.len(),
{
    if ps.len() == 0 {
        assert(ps.push(p).drop_first() =~= Seq::<PartView>::empty());
        assert(ps.push(p)[0] == p);
        assert(parts_bytes(ps.push(p).drop_first()) == Seq::<u8>::empty());
        assert(parts_bytes(ps) == Seq::<u8>::empty());
        assert(parts_bytes(ps.push(p)) =~= parts_bytes(ps) + part_bytes(p));
    } else {
        assert(ps.push(p).drop_first() =~= ps.drop_first().push(p));
        lemma_parts_bytes_push(ps.drop_first(), p);
        assert(ps.push(p)[0] == ps[0]);
        assert(parts_bytes(ps.push(p)) == part_bytes(ps[0]) + parts_bytes(ps.drop_first().push(p)));
        assert(parts_bytes(ps) == part_bytes(ps[0]) + parts_bytes(ps.drop_first()));
        assert(parts_bytes(ps.push(p)) =~= parts_bytes(ps) + part_bytes(p));
    }
}

/// Number of bytes that the stored forms of the first `i` parts of `ps` take.
pub open spec fn stored_len_before(ps: Seq<PartView>, i: int) -> int
    decreases ps.len(),
{
    if i <= 0 || ps.len() == 0 {
        0
    } else {
        5 + ps[0].1.len() + stored_len_before(ps.drop_first(), i - 1)
    }
}

/// At offset `o` of `bytes` stands part `p`: its flag byte (1 for tapscript, else 0), its
/// script's length big-endian, and its script, byte for byte in order.
pub open spec fn part_stored_at(bytes: Seq<u8>, o: int, p: PartView) -> bool {
    &&& 0 <= o
    &&& o + 5 + p.1.len() <= bytes.len()
    &&& bytes[o] == (if p.0 {
        1u8
    } else {
        0u8
    })
    &&& bytes.subrange(o + 1, o + 5) == be_u32(p.1.len() as u32)
    &&& bytes.subrange(o + 5, o + 5 + p.1.len()) == p.1
}

/// From `start` on, `bytes` hold the parts `ps` one after another, and nothing after them.
pub open spec fn lays_out_parts(bytes: Seq<u8>, ps: Seq<PartView>, start: int) -> bool {
    &&& bytes.len() == start + stored_len_before(ps, ps.len() as int)
    &&& forall|i: int|
        0 <= i < ps.len() ==> part_stored_at(bytes, start + stored_len_before(ps, i), #[trigger] ps[i])
}

/// `bytes` hold the index big-endian, then the 32 txid bytes, then the parts in order.
pub open spec fn lays_out_partials(bytes: Seq<u8>, p: PartialsView) -> bool {
    &&& bytes.len() >= 36
    &&& bytes.subrange(0, 4) == be_u32(p.inscription_index)
    &&& bytes.subrange(4, 36) == p.genesis_txid
    &&& lays_out_parts(bytes, p.parts, 36)
}

proof fn lemma_parts_layout(pre: Seq<u8>, ps: Seq<PartView>)
    ensures
        lays_out_parts(pre + parts_bytes(ps), ps, pre.len() as int),
    decreases ps.len(),
{
    let bytes = pre + parts_bytes(ps);
    if ps.len() == 0 {
        assert(parts_bytes(ps) =~= Seq::<u8>::empty());
    } else {
        let p0 = ps[0];
        let rest = ps.drop_first();
        let pre2 = pre + part_bytes(p0);
        lemma_be_u32_roundtrip(p0.1.len() as u32);
        assert(bytes =~= pre2 + parts_bytes(rest));
        lemma_parts_layout(pre2, rest);
        assert(pre2.len() == pre.len() + 5 + p0.1.len());
        assert forall|i: int| 0 <= i < ps.len() implies part_stored_at(
            bytes,
            pre.len() + stored_len_before(ps, i),
            #[trigger] ps[i],
        ) by {
            if i == 0 {
                let o = pre.len() as int;
                assert(stored_len_before(ps, 0) == 0);
                assert(bytes[o] == part_bytes(p0)[0]);
                assert(bytes.subrange(o + 1, o + 5) =~= part_bytes(p0).subrange(1, 5));
                assert(part_bytes(p0).subrange(1, 5) =~= be_u32(p0.1.len() as u32));
                assert(bytes.subrange(o + 5, o + 5 + p0.1.len()) =~= part_bytes(p0).subrange(
                    5,
                    5int + p0.1.len(),
                ));
                assert(part_bytes(p0).subrange(5, 5int + p0.1.len()) =~= p0.1);
            } else {
                assert(ps[i] == rest[i - 1]);
                assert(stored_len_before(ps, i) == 5 + p0.1.len() + stored_len_before(rest, i - 1));
            }
        }
    }
}

/// Layout of the stored form: the index big-endian, the txid bytes, then each part as its
/// flag byte, its script's length big-endian and its script byte for byte, one after another.
pub proof fn lemma_partials_layout(p: PartialsView)
    requires
        p.genesis_txid.len() == 32,
    ensures
        lays_out_partials(partials_bytes(p), p),
{
    let head = be_u32(p.inscription_index) + p.genesis_txid;
    lemma_be_u32_roundtrip(p.inscription_index);
    assert(partials_bytes(p) =~= head + parts_bytes(p.parts));
    lemma_parts_layout(head, p.parts);
    assert(partials_bytes(p).subrange(0, 4) =~= be_u32(p.inscription_index));
    assert(partials_bytes(p).subrange(4, 36) =~= p.genesis_txid);
}

impl Partials {
    /// The stored form of these partials.
    pub fn get_bytes(&self) -> (r: Vec<u8>)
        ensures
            r@ == partials_bytes(self@),
            lays_out_partials(r@, self@),
    {
        proof {
            lemma_partials_layout(self@);
        }
        let mut buffer: Vec<u8> = Vec::new();
        push_be_u32(&mut buffer, self.inscription_index);
        let txid = serialize_txid(&self.genesis_txid);
        push_all(&mut buffer, txid.as_slice());
        let ghost head = buffer@;
        let ghost ps = self@.parts;
        let mut i: usize = 0;
        while i < self.parts.len()
            invariant
                i <= self.parts@.len(),
                ps == self@.parts,
                ps.len() == self.parts@.len(),
                head == be_u32(self.inscription_index) + self.genesis_txid@,
                buffer@ == head + parts_bytes(ps.take(i as int)),
            decreases self.parts@.len() - i,
        {
            let part = &self.parts[i];
            buffer.push(if part.is_tapscript {
                1u8
            } else {
                0u8
            });
            push_be_u32(&mut buffer, part.script_buffer.len() as u32);
            push_all(&mut buffer, part.script_buffer.as_slice());
            proof {
                assert(ps[i as int] == part@);
                assert(ps.take(i + 1) =~= ps.take(i as int).push(ps[i as int]));
                lemma_parts_bytes_push(ps.take(i as int), ps[i as int]);
            }
            i = i + 1;
        }
        assert(ps.take(i as int) =~= ps);
        buffer
    }

    /// Whether `from_bytes` may read `v`: the part reader stays within the bytes.
    pub fn readable(v: &[u8]) -> (r: bool)
        ensures
            r == (parse_partials(v@) is Some),
    {
        if v.len() < 36 {
            return false;
        }
        let mut offset: usize = 36;
        assert(v@.skip(36) =~= v@.skip(offset as int));
        while offset != v.len()
            invariant
                36 <= offset <= v@.len(),
                (parse_parts(v@.skip(36)) is Some) == (parse_parts(v@.skip(offset as int)) is Some),
            decreases v@.len() - offset,
        {
            let ghost s = v@.skip(offset as int);
            if v.len() - offset < 5 {
                return false;
            }
            let n = read_be_u32(v, offset + 1) as usize;
            proof {
                assert(s.subrange(1, 5) =~= v@.subrange(offset + 1, offset + 5));
                assert(s.skip(5) =~= v@.skip(offset + 5));
            }
            if n > v.len() - offset - 5 {
                return false;
            }
            offset = offset + 5;
        }
        assert(v@.skip(offset as int) =~= Seq::<u8>::empty());
        true
    }

    /// Reads partials back from their stored form. Its domain is the bytes on which the part
    /// reader does not run past the end (see `parse_partials`); there it succeeds with what the
    /// reader makes of the bytes.
    pub fn from_bytes(v: &[u8]) -> (r: Result<Self, DecodeError>)
        requires
            parse_partials(v@) is Some,
        ensures
            r matches Ok(p) && p@ == parse_partials(v@).unwrap(),
    {
        let inscription_index = read_be_u32(v, 0);
        let genesis_txid = match deserialize_txid(slice_subrange(v, 4, 36)) {
            Ok(t) => t,
            Err(_) => {
                return Err(DecodeError::Consensus);
            },
        };
        let ghost all = parse_parts(v@.skip(36)).unwrap();
        let mut parts: Vec<Part> = Vec::new();
        let mut offset: usize = 4 + 32;
        assert(v@.skip(36) =~= v@.skip(offset as int));
        while offset != v.len()
            invariant
                36 <= offset <= v@.len(),
                parse_parts(v@.skip(offset as int)) is Some,
                parts@.map_values(|p: Part| p@) + parse_parts(v@.skip(offset as int)).unwrap()
                    == all,
            decreases v@.len() - offset,
        {
            let ghost s = v@.skip(offset as int);
            let is_tapscript = v[offset] == 1;
            offset = offset + 1;
            let script_len = read_be_u32(v, offset) as usize;
            offset = offset + 4;
            let script_buffer = slice_to_vec(slice_subrange(v, offset, offset + script_len));
            proof {
                assert(s.subrange(1, 5) =~= v@.subrange(offset - 4, offset as int));
                assert(s.skip(5) =~= v@.skip(offset as int));
                assert(s.subrange(5, 5 + script_len) =~= v@.subrange(
                    offset as int,
                    offset + script_len,
                ));
            }
            let part = Part { is_tapscript, script_buffer };
            let ghost before = parts@.map_values(|p: Part| p@);
            parts.push(part);
            proof {
                assert(parts@.map_values(|p: Part| p@) =~= before.push(part@));
                assert(before.push(part@) + parse_parts(v@.skip(offset as int)).unwrap() =~= before
                    + parse_parts(s).unwrap());
            }
        }
        proof {
            assert(v@.skip(offset as int) =~= Seq::<u8>::empty());
            assert(parts@.map_values(|p: Part| p@) =~= all);
        }
        Ok(Partials { genesis_txid, inscription_index, parts })
    }
}

proof fn lemma_parse_empty_scripts(ps: Seq<PartView>)
    requires
        forall|i: int| 0 <= i < ps.len() ==> (#[trigger] ps[i]).1.len() == 0,
    ensures
        parse_parts(parts_bytes(ps)) == Some(ps),
    decreases ps.len(),
{
    if ps.len() == 0 {
        assert(parse_parts(parts_bytes(ps)) == Some(Seq::<PartView>::empty()));
        assert(ps =~= Seq::<PartView>::empty());
    } else {
        let p = ps[0];
        let s = parts_bytes(ps);
        lemma_be_u32_roundtrip(0u32);
        assert(p.1 =~= Seq::<u8>::empty());
        assert(s.subrange(1, 5) =~= be_u32(0u32));
        assert(s.skip(5) =~= parts_bytes(ps.drop_first()));
        lemma_parse_empty_scripts(ps.drop_first());
        assert(s.subrange(5, 5) =~= p.1);
        let flag: u8 = if p.0 { 1u8 } else { 0u8 };
        assert(s[0] == flag);
        assert((s[0] == 1u8) == p.0);
        assert(seq![(s[0] == 1u8, s.subrange(5, 5))] + ps.drop_first() =~= ps);
    }
}

/// Round trip of the stored form where every part's script is empty: reading the stored form
/// gives the partials back. (The part reader resumes at each script's start, so on a part
/// with a non-empty script it reads the script's bytes as the next part.)
pub proof fn lemma_partials_roundtrip_empty_scripts(p: PartialsView)
    requires
        p.genesis_txid.len() == 32,
        forall|i: int| 0 <= i < p.parts.len() ==> (#[trigger] p.parts[i]).1.len() == 0,
    ensures
        parse_partials(partials_bytes(p)) == Some(p),
{
    let v = partials_bytes(p);
    lemma_be_u32_roundtrip(p.inscription_index);
    assert(v.subrange(0, 4) =~= be_u32(p.inscription_index));
    assert(v.subrange(4, 36) =~= p.genesis_txid);
    assert(v.skip(36) =~= parts_bytes(p.parts));
    lemma_parse_empty_scripts(p.parts);
}

} // verus!
