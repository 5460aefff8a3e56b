//! The decisions of indexing one block: which records it yields, in which order, and which
//! addresses its outputs name.
use vstd::prelude::*;

use crate::block_info::BlockInfo;
use crate::bytes::array32_eq;
use crate::processed_data::{DataToWrite, ProcessedData};
use crate::types::FullHash;

verus! {

broadcast use vstd::array::group_array_axioms;

/// Double-SHA256 of the bytes, as `bitcoin_hashes` computes it.
pub uninterp spec fn sha256d(data: Seq<u8>) -> Seq<u8>;

/// Calls `bitcoin_hashes::sha256d::Hash::hash` and takes the digest's bytes. Claimed: the
/// bytes are `sha256d` of the input; nothing more is said of them.
#[verifier::external_body]
fn sha256d_hash(data: &[u8]) -> (r: [u8; 32])
    ensures
        r@ == sha256d(data@),
{
    <bitcoin_hashes::sha256d::Hash as bitcoin_hashes::Hash>::to_byte_array(
        <bitcoin_hashes::sha256d::Hash as bitcoin_hashes::Hash>::hash(data),
    )
}

/// The script hash under which the index files an output script.
pub fn script_fullhash(script: &[u8]) -> (r: FullHash)
    ensures
        r@ == sha256d(script@),
{
    sha256d_hash(script)
}

/// What the indexer reads of a transaction output: its locking script and, where the
/// script pays to an address, the address's text.
#[derive(Clone, Debug)]
pub struct TxOutputInfo {
    pub script_pubkey: Vec<u8>,
    pub address: Option<String>,
}

/// A (script hash, address) pair as plain values.
pub type AddressPairView = (Seq<u8>, Seq<char>);

pub open spec fn pair_view(p: (FullHash, String)) -> AddressPairView {
    (p.0@, p.1@)
}

/// The pairs as plain values.
pub open spec fn pair_views(s: Seq<(FullHash, String)>) -> Seq<AddressPairView> {
    s.map_values(|p: (FullHash, String)| pair_view(p))
}

/// The (script hash, address) pairs of the outputs that have an address, in output order.
pub open spec fn addressed(outputs: Seq<TxOutputInfo>) -> Seq<AddressPairView>
    decreases outputs.len(),
{
    if outputs.len() == 0 {
        Seq::empty()
    } else {
        let rest = addressed(outputs.drop_last());
        match outputs.last().address {
            Some(a) => rest.push((sha256d(outputs.last().script_pubkey@), a@)),
            None => rest,
        }
    }
}

/// Some pair of `out` has the script hash `key`.
pub open spec fn has_hash(out: Seq<AddressPairView>, key: Seq<u8>) -> bool {
    exists|j: int| 0 <= j < out.len() && #[trigger] out[j].0 == key
}

/// `p` is the pair at `i` of `input`, and no later pair of `input` has its script hash.
pub open spec fn is_last_with_hash(input: Seq<AddressPairView>, i: int, p: AddressPairView) -> bool {
    &&& 0 <= i < input.len()
    &&& input[i] == p
    &&& forall|k: int| i < k < input.len() ==> #[trigger] input[k].0 != p.0
}

/// Some pair of `input` is `p` with no later pair of that script hash.
pub open spec fn is_last_entry(input: Seq<AddressPairView>, p: AddressPairView) -> bool {
    exists|i: int| #[trigger] is_last_with_hash(input, i, p)
}

/// `out` holds, once per script hash of `input`, the last pair of `input` with that hash:
/// what collecting `input` into a map from hash to address leaves.
pub open spec fn last_entries(input: Seq<AddressPairView>, out: Seq<AddressPairView>) -> bool {
    &&& forall|i: int, j: int| 0 <= i < j < out.len() ==> #[trigger] out[i].0 != #[trigger] out[j].0
    &&& forall|i: int| 0 <= i < input.len() ==> #[trigger] has_hash(out, input[i].0)
    &&& forall|j: int| 0 <= j < out.len() ==> #[trigger] is_last_entry(input, out[j])
}

/// The pair that output `o` names, if it has an address: the double-SHA256 of its own
/// script, with its address.
pub open spec fn output_names(o: TxOutputInfo, p: AddressPairView) -> bool {
    &&& o.address is Some
    &&& p.0 == sha256d(o.script_pubkey@)
    &&& p.1 == o.address.unwrap()@
}

/// Output `i` names `p`, and no later output with an address has a script of `p`'s hash.
pub open spec fn last_naming(outputs: Seq<TxOutputInfo>, i: int, p: AddressPairView) -> bool {
    &&& 0 <= i < outputs.len()
    &&& output_names(outputs[i], p)
    &&& forall|k: int|
        i < k < outputs.len() && (#[trigger] outputs[k]).address is Some ==> sha256d(
            outputs[k].script_pubkey@,
        ) != p.0
}

/// Some output names `p` and is the last output with a script of `p`'s hash.
pub open spec fn named_by_last(outputs: Seq<TxOutputInfo>, p: AddressPairView) -> bool {
    exists|i: int| #[trigger] last_naming(outputs, i, p)
}

/// `pairs` file every output that has an address under the double-SHA256 of that output's
/// script, once per hash, with the address of the last output whose script has that hash:
/// - no two pairs have one hash;
/// - each output with an address has its script's hash among the pairs;
/// - each pair is what some output with an address names, and no later output with an
///   address has a script of that hash.
pub open spec fn names_outputs(outputs: Seq<TxOutputInfo>, pairs: Seq<AddressPairView>) -> bool {
    &&& forall|i: int, j: int| 0 <= i < j < pairs.len() ==> #[trigger] pairs[i].0 != #[trigger] pairs[j].0
    &&& forall|k: int|
        0 <= k < outputs.len() && (#[trigger] outputs[k]).address is Some ==> has_hash(
            pairs,
            sha256d(outputs[k].script_pubkey@),
        )
    &&& forall|j: int| 0 <= j < pairs.len() ==> #[trigger] named_by_last(outputs, pairs[j])
}

/// Which output each pair of `addressed(outs)` comes from (`src`, increasing), and for each
/// output with an address, its pair (`pos`).
proof fn lemma_addressed_sources(outs: Seq<TxOutputInfo>) -> (res: (Seq<int>, Seq<int>))
    ensures
        res.0.len() == addressed(outs).len(),
        res.1.len() == outs.len(),
        forall|m: int|
            0 <= m < res.0.len() ==> 0 <= #[trigger] res.0[m] < outs.len() && output_names(
                outs[res.0[m]],
                addressed(outs)[m],
            ),
        forall|m1: int, m2: int|
            0 <= m1 < m2 < res.0.len() ==> #[trigger] res.0[m1] < #[trigger] res.0[m2],
        forall|k: int|
            0 <= k < outs.len() && (#[trigger] outs[k]).address is Some ==> 0 <= res.1[k]
                < res.0.len() && res.0[res.1[k]] == k,
    decreases outs.len(),
{
    if outs.len() == 0 {
        (Seq::empty(), Seq::empty())
    } else {
        let rest = outs.drop_last();
        let (src0, pos0) = lemma_addressed_sources(rest);
        let n = outs.len() - 1;
        assert forall|k: int| 0 <= k < n implies outs[k] == rest[k] by {}
        match outs.last().address {
            Some(a) => {
                let src = src0.push(n);
                let pos = pos0.push(src0.len() as int);
                assert forall|m: int| 0 <= m < src.len() implies 0 <= #[trigger] src[m] < outs.len()
                    && output_names(outs[src[m]], addressed(outs)[m]) by {
                    if m < src0.len() {
                        assert(outs[src0[m]] == rest[src0[m]]);
                    }
                }
                assert forall|k: int| 0 <= k < outs.len() && (#[trigger] outs[k]).address is Some
                    implies 0 <= pos[k] < src.len() && src[pos[k]] == k by {
                    if k < n {
                        assert(rest[k] == outs[k]);
                    }
                }
                (src, pos)
            },
            None => {
                let pos = pos0.push(0);
                assert forall|m: int| 0 <= m < src0.len() implies 0 <= #[trigger] src0[m]
                    < outs.len() && output_names(outs[src0[m]], addressed(outs)[m]) by {
                    assert(outs[src0[m]] == rest[src0[m]]);
                }
                assert forall|k: int| 0 <= k < outs.len() && (#[trigger] outs[k]).address is Some
                    implies 0 <= pos[k] < src0.len() && src0[pos[k]] == k by {
                    assert(rest[k] == outs[k]);
                }
                (src0, pos)
            },
        }
    }
}

/// The pairs that keep, per hash, the last of `addressed(outputs)` name the outputs: each
/// output with an address is filed under the hash of its own script, and each pair is the
/// address of the last output with a script of that hash.
pub proof fn lemma_last_entries_name_outputs(
    outputs: Seq<TxOutputInfo>,
    pairs: Seq<AddressPairView>,
)
    requires
        last_entries(addressed(outputs), pairs),
    ensures
        names_outputs(outputs, pairs),
{
    let input = addressed(outputs);
    let (src, pos) = lemma_addressed_sources(outputs);
    assert forall|k: int|
        0 <= k < outputs.len() && (#[trigger] outputs[k]).address is Some implies has_hash(
        pairs,
        sha256d(outputs[k].script_pubkey@),
    ) by {
        let m = pos[k];
        assert(src[m] == k);
        assert(output_names(outputs[src[m]], input[m]));
        assert(has_hash(pairs, input[m].0));
    }
    assert forall|j: int| 0 <= j < pairs.len() implies #[trigger] named_by_last(outputs, pairs[j]) by {
        assert(is_last_entry(input, pairs[j]));
        let m = choose|m: int| #[trigger] is_last_with_hash(input, m, pairs[j]);
        let i = src[m];
        assert(output_names(outputs[i], input[m]));
        assert forall|k: int| i < k < outputs.len() && (#[trigger] outputs[k]).address is Some
            implies sha256d(outputs[k].script_pubkey@) != pairs[j].0 by {
            let m2 = pos[k];
            assert(src[m2] == k);
            if m2 <= m {
                if m2 < m {
                    assert(src[m2] < src[m]);
                }
            }
            assert(m < m2);
            assert(output_names(outputs[src[m2]], input[m2]));
            assert(input[m2].0 != pairs[j].0);
        }
        assert(last_naming(outputs, i, pairs[j]));
    }
}

/// Keeps, for each script hash, the last pair with that hash (a map from hash to address).
pub fn dedup_addresses(pairs: Vec<(FullHash, String)>) -> (r: Vec<(FullHash, String)>)
    ensures
        last_entries(pair_views(pairs@), pair_views(r@)),
{
    let ghost input = pair_views(pairs@);
    let mut out: Vec<(FullHash, String)> = Vec::new();
    // For each pair of `out`, the index of the input pair it is.
    let ghost mut src: Seq<int> = Seq::empty();
    // For each input pair seen, the index in `out` of the pair with its hash.
    let ghost mut pos: Seq<int> = Seq::empty();
    for p in it: pairs.into_iter()
        invariant
            it.seq() == pairs@,
            input == pair_views(pairs@),
            input.len() == pairs@.len(),
            src.len() == out@.len(),
            pos.len() == it.index(),
            forall|i: int, j: int| 0 <= i < j < out@.len() ==> out@[i].0@ != out@[j].0@,
            forall|i: int|
                0 <= i < it.index() ==> 0 <= #[trigger] pos[i] < out@.len() && out@[pos[i]].0@
                    == input[i].0,
            forall|j: int|
                0 <= j < out@.len() ==> 0 <= #[trigger] src[j] < it.index() && input[src[j]]
                    == pair_view(out@[j]) && forall|k: int|
                    src[j] < k < it.index() ==> input[k].0 != out@[j].0@,
    {
        let ghost n = it.index();
        let ghost pv = pair_view(p);
        assert(pv == input[n]);
        let mut found: Option<usize> = None;
        let mut j: usize = 0;
        while j < out.len()
            invariant
                j <= out@.len(),
                found matches Some(f) ==> f < out@.len() && out@[f as int].0@ == p.0@,
                found is None ==> forall|k: int| 0 <= k < j ==> out@[k].0@ != p.0@,
            decreases out@.len() - j,
        {
            if found.is_none() && array32_eq(&out[j].0, &p.0) {
                found = Some(j);
            }
            j = j + 1;
        }
        match found {
            Some(f) => {
                let ghost old_out = out@;
                out.set(f, p);
                proof {
                    src = src.update(f as int, n);
                    pos = pos.push(f as int);
                    assert forall|j: int|
                        0 <= j < out@.len() implies 0 <= #[trigger] src[j] < n + 1 && input[src[j]]
                        == pair_view(out@[j]) && forall|k: int|
                        src[j] < k < n + 1 ==> input[k].0 != out@[j].0@ by {
                        if j != f {
                            if j < f {
                                assert(old_out[j].0@ != old_out[f as int].0@);
                            } else {
                                assert(old_out[f as int].0@ != old_out[j].0@);
                            }
                        }
                    }
                }
            },
            None => {
                out.push(p);
                proof {
                    src = src.push(n);
                    pos = pos.push((out@.len() - 1) as int);
                }
            },
        }
    }
    proof {
        let outv = pair_views(out@);
        assert(pos.len() == input.len());
        assert forall|i: int, j: int| 0 <= i < j < outv.len() implies #[trigger] outv[i].0
            != #[trigger] outv[j].0 by {
            assert(outv[i] == pair_view(out@[i]));
            assert(outv[j] == pair_view(out@[j]));
        }
        assert forall|i: int| 0 <= i < input.len() implies #[trigger] has_hash(outv, input[i].0) by {
            assert(0 <= pos[i] < out@.len());
            assert(outv[pos[i]] == pair_view(out@[pos[i]]));
            assert(outv[pos[i]].0 == input[i].0);
        }
        assert forall|j: int| 0 <= j < outv.len() implies #[trigger] is_last_entry(input, outv[j]) by {
            assert(outv[j] == pair_view(out@[j]));
            assert(input[src[j]] == outv[j]);
            assert(is_last_with_hash(input, src[j], outv[j]));
        }
    }
    out
}

/// The (script hash, address) pairs of the outputs that pay to an address, once per script
/// hash, each with the address of the last such output.
pub fn outpoint_fullhash_to_address(outputs: &Vec<TxOutputInfo>) -> (r: Vec<(FullHash, String)>)
    ensures
        last_entries(addressed(outputs@), pair_views(r@)),
        names_outputs(outputs@, pair_views(r@)),
{
    let mut hashed: Vec<(FullHash, String)> = Vec::new();
    let mut i: usize = 0;
    while i < outputs.len()
        invariant
            i <= outputs@.len(),
            pair_views(hashed@) == addressed(
                outputs@.take(i as int),
            ),
        decreases outputs@.len() - i,
    {
        let out = &outputs[i];
        let ghost before = hashed@;
        proof {
            assert(outputs@.take(i + 1).drop_last() =~= outputs@.take(i as int));
            assert(outputs@.take(i + 1).last() == outputs@[i as int]);
        }
        match &out.address {
            Some(address) => {
                let fullhash = script_fullhash(out.script_pubkey.as_slice());
                hashed.push((fullhash, address.clone()));
                assert(pair_views(hashed@) =~= pair_views(before).push((sha256d(out.script_pubkey@), address@)));
            },
            None => {},
        }
        i = i + 1;
    }
    assert(outputs@.take(i as int) =~= outputs@);
    let r = dedup_addresses(hashed);
    proof {
        lemma_last_entries_name_outputs(outputs@, pair_views(r@));
    }
    r
}

/// Starts the records of the block at `block_height`: its info, then the records the spent
/// outputs yield (`prevouts`), then the addresses its outputs name. Answers whether the block
/// is high enough for inscriptions to be parsed (`start_height` on).
pub fn handle_block(
    to_write: &mut DataToWrite,
    block_height: u32,
    block_hash: [u8; 32],
    timestamp: u32,
    outputs: &Vec<TxOutputInfo>,
    prevouts: Vec<ProcessedData>,
    start_height: u32,
) -> (inscriptions_due: bool)
    ensures
        inscriptions_due == (block_height >= start_height),
        final(to_write).processed@.len() == old(to_write).processed@.len() + prevouts@.len() + 2,
        final(to_write).processed@.take(old(to_write).processed@.len() as int)
            == old(to_write).processed@,
        final(to_write).processed@[old(to_write).processed@.len() as int] == (ProcessedData::Info {
            block_number: block_height,
            block_info: BlockInfo { created: timestamp, hash: block_hash },
        }),
        final(to_write).processed@.subrange(
            old(to_write).processed@.len() + 1int,
            old(to_write).processed@.len() + 1int + prevouts@.len(),
        ) == prevouts@,
        final(to_write).processed@.last() matches ProcessedData::FullHash { addresses }
            && last_entries(addressed(outputs@), pair_views(addresses@)) && names_outputs(
            outputs@,
            pair_views(addresses@),
        ),
{
    let ghost start = to_write.processed@;
    let block_info = BlockInfo { created: timestamp, hash: block_hash };
    let addresses = outpoint_fullhash_to_address(outputs);
    to_write.processed.push(ProcessedData::Info { block_number: block_height, block_info });
    let ghost mid = to_write.processed@;
    let ghost pv = prevouts@;
    for data in it: prevouts.into_iter()
        invariant
            it.seq() == pv,
            to_write.processed@ == mid + pv.take(it.index()),
    {
        to_write.processed.push(data);
        assert(to_write.processed@ =~= mid + pv.take(it.index() + 1));
    }
    assert(pv.take(pv.len() as int) =~= pv);
    to_write.processed.push(ProcessedData::FullHash { addresses });
    assert(to_write.processed@.take(start.len() as int) =~= start);
    assert(to_write.processed@.subrange(start.len() + 1int, start.len() + 1int + pv.len()) =~= pv);
    block_height >= start_height
}

/// The height indexing goes back to when a reorganisation of `reorg_len` blocks is seen
/// after the block at `prev_height` (none yet: 0); it stops at 0.
pub fn reorg_restore_height(prev_height: Option<u64>, reorg_len: u64) -> (r: u64)
    ensures
        r == (match prev_height {
            Some(h) => if h >= reorg_len {
                (h - reorg_len) as u64
            } else {
                0
            },
            None => 0,
        }),
{
    let prev = match prev_height {
        Some(h) => h,
        None => 0,
    };
    prev.saturating_sub(reorg_len)
}

} // verus!
