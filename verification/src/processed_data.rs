//! What a block contributes to the index's tables, as ordered writes, and what those writes
//! do to the tables.
use vstd::prelude::*;

use std::collections::HashSet;

use crate::block_info::BlockInfo;
use crate::partials::Partials;
use crate::types::{FullHash, OutPoint, TxOut};

verus! {

/// One write to a key-value table.
pub enum KeyWrite<K, V> {
    Put(K, V),
    Remove(K),
}

/// Writes for the index's tables, in the order in which they are to be applied.
pub struct WriteBatch {
    /// The single row holding the height of the last indexed block.
    pub last_block: Vec<KeyWrite<(), u32>>,
    pub block_info: Vec<KeyWrite<u32, BlockInfo>>,
    pub prevouts: Vec<KeyWrite<OutPoint, TxOut>>,
    pub fullhash_to_address: Vec<KeyWrite<FullHash, String>>,
    pub outpoint_to_partials: Vec<KeyWrite<OutPoint, Partials>>,
    pub outpoint_to_inscription_offsets: Vec<KeyWrite<OutPoint, HashSet<u64>>>,
}

/// The writes of a `WriteBatch`, table by table.
#[verifier::ext_equal]
pub struct WriteBatchView {
    pub last_block: Seq<KeyWrite<(), u32>>,
    pub block_info: Seq<KeyWrite<u32, BlockInfo>>,
    pub prevouts: Seq<KeyWrite<OutPoint, TxOut>>,
    pub fullhash_to_address: Seq<KeyWrite<FullHash, String>>,
    pub outpoint_to_partials: Seq<KeyWrite<OutPoint, Partials>>,
    pub outpoint_to_inscription_offsets: Seq<KeyWrite<OutPoint, HashSet<u64>>>,
}

impl View for WriteBatch {
    type V = WriteBatchView;

    open spec fn view(&self) -> WriteBatchView {
        WriteBatchView {
            last_block: self.last_block@,
            block_info: self.block_info@,
            prevouts: self.prevouts@,
            fullhash_to_address: self.fullhash_to_address@,
            outpoint_to_partials: self.outpoint_to_partials@,
            outpoint_to_inscription_offsets: self.outpoint_to_inscription_offsets@,
        }
    }
}

/// The contents of the index's tables.
#[verifier::ext_equal]
pub struct DbState {
    pub last_block: Map<(), u32>,
    pub block_info: Map<u32, BlockInfo>,
    pub prevouts: Map<OutPoint, TxOut>,
    pub fullhash_to_address: Map<FullHash, String>,
    pub outpoint_to_partials: Map<OutPoint, Partials>,
    pub outpoint_to_inscription_offsets: Map<OutPoint, HashSet<u64>>,
}

/// A table after the writes `ws`, applied first to last.
pub open spec fn apply_writes<K, V>(m: Map<K, V>, ws: Seq<KeyWrite<K, V>>) -> Map<K, V>
    decreases ws.len(),
{
    if ws.len() == 0 {
        m
    } else {
        let before = apply_writes(m, ws.drop_last());
        match ws.last() {
            KeyWrite::Put(k, v) => before.insert(k, v),
            KeyWrite::Remove(k) => before.remove(k),
        }
    }
}

impl WriteBatchView {
    /// The tables after this batch.
    pub open spec fn apply(self, s: DbState) -> DbState {
        DbState {
            last_block: apply_writes(s.last_block, self.last_block),
            block_info: apply_writes(s.block_info, self.block_info),
            prevouts: apply_writes(s.prevouts, self.prevouts),
            fullhash_to_address: apply_writes(s.fullhash_to_address, self.fullhash_to_address),
            outpoint_to_partials: apply_writes(s.outpoint_to_partials, self.outpoint_to_partials),
            outpoint_to_inscription_offsets: apply_writes(
                s.outpoint_to_inscription_offsets,
                self.outpoint_to_inscription_offsets,
            ),
        }
    }
}

/// Puts of the given entries, in order.
pub open spec fn puts<K, V>(entries: Seq<(K, V)>) -> Seq<KeyWrite<K, V>> {
    entries.map_values(|e: (K, V)| KeyWrite::Put(e.0, e.1))
}

/// Removals of the given keys, in order.
pub open spec fn removes<K, V>(keys: Seq<K>) -> Seq<KeyWrite<K, V>> {
    keys.map_values(|k: K| KeyWrite::Remove(k))
}

/// The value of the last entry for `k`, if there is one.
pub open spec fn last_put<K, V>(entries: Seq<(K, V)>, k: K) -> Option<V>
    decreases entries.len(),
{
    if entries.len() == 0 {
        None
    } else if entries.last().0 == k {
        Some(entries.last().1)
    } else {
        last_put(entries.drop_last(), k)
    }
}

/// `m` with the keys in `removed` taken out and then the `entries` put in: a key that has an
/// entry holds the value of its last entry, removed or not; another key is gone if removed,
/// and otherwise keeps its value.
pub open spec fn remove_then_put<K, V>(m: Map<K, V>, removed: Seq<K>, entries: Seq<(K, V)>) -> Map<
    K,
    V,
> {
    Map::new(
        |key: K| last_put(entries, key) is Some || (m.dom().contains(key) && !removed.contains(key)),
        |key: K|
            match last_put(entries, key) {
                Some(v) => v,
                None => m[key],
            },
    )
}

/// A record of what one step of indexing a block has found, to be written to the tables.
pub enum ProcessedData {
    Info { block_number: u32, block_info: BlockInfo },
    Prevouts { to_write: Vec<(OutPoint, TxOut)>, to_remove: Vec<OutPoint> },
    FullHash { addresses: Vec<(FullHash, String)> },
    InscriptionPartials { to_remove: Vec<OutPoint>, to_write: Vec<(OutPoint, Partials)> },
    InscriptionOffset { to_remove: Vec<OutPoint>, to_write: Vec<(OutPoint, HashSet<u64>)> },
}

impl ProcessedData {
    /// The batch `b` with this record's writes appended: for each table, the removals first,
    /// then the puts.
    pub open spec fn extend(self, b: WriteBatchView) -> WriteBatchView {
        match self {
            ProcessedData::Info { block_number, block_info } => WriteBatchView {
                last_block: b.last_block + puts(seq![((), block_number)]),
                block_info: b.block_info + puts(seq![(block_number, block_info)]),
                ..b
            },
            ProcessedData::Prevouts { to_write, to_remove } => WriteBatchView {
                prevouts: b.prevouts + removes(to_remove@) + puts(to_write@),
                ..b
            },
            ProcessedData::FullHash { addresses } => WriteBatchView {
                fullhash_to_address: b.fullhash_to_address + puts(addresses@),
                ..b
            },
            ProcessedData::InscriptionPartials { to_remove, to_write } => WriteBatchView {
                outpoint_to_partials: b.outpoint_to_partials + removes(to_remove@) + puts(
                    to_write@,
                ),
                ..b
            },
            ProcessedData::InscriptionOffset { to_remove, to_write } => WriteBatchView {
                outpoint_to_inscription_offsets: b.outpoint_to_inscription_offsets + removes(
                    to_remove@,
                ) + puts(to_write@),
                ..b
            },
        }
    }

    /// What this record does to the tables: the block's height becomes the last block and its
    /// info is stored; or, in one table, the listed keys are removed and the listed entries put.
    pub open spec fn effect(self, s: DbState) -> DbState {
        match self {
            ProcessedData::Info { block_number, block_info } => DbState {
                last_block: s.last_block.insert((), block_number),
                block_info: s.block_info.insert(block_number, block_info),
                ..s
            },
            ProcessedData::Prevouts { to_write, to_remove } => DbState {
                prevouts: remove_then_put(s.prevouts, to_remove@, to_write@),
                ..s
            },
            ProcessedData::FullHash { addresses } => DbState {
                fullhash_to_address: remove_then_put(
                    s.fullhash_to_address,
                    Seq::empty(),
                    addresses@,
                ),
                ..s
            },
            ProcessedData::InscriptionPartials { to_remove, to_write } => DbState {
                outpoint_to_partials: remove_then_put(s.outpoint_to_partials, to_remove@, to_write@),
                ..s
            },
            ProcessedData::InscriptionOffset { to_remove, to_write } => DbState {
                outpoint_to_inscription_offsets: remove_then_put(
                    s.outpoint_to_inscription_offsets,
                    to_remove@,
                    to_write@,
                ),
                ..s
            },
        }
    }

    /// Appends this record's writes to `batch`.
    pub fn write(self, batch: &mut WriteBatch)
        ensures
            final(batch)@ == self.extend(old(batch)@),
    {
        match self {
            ProcessedData::Info { block_number, block_info } => {
                batch.last_block.push(KeyWrite::Put((), block_number));
                batch.block_info.push(KeyWrite::Put(block_number, block_info));
                assert(puts(seq![((), block_number)]) =~= seq![KeyWrite::Put((), block_number)]);
                assert(puts(seq![(block_number, block_info)]) =~= seq![
                    KeyWrite::Put(block_number, block_info),
                ]);
                assert(batch.last_block@ =~= old(batch).last_block@ + puts(
                    seq![((), block_number)],
                ));
            },
            ProcessedData::Prevouts { to_write, to_remove } => {
                push_removes(&mut batch.prevouts, to_remove);
                push_puts(&mut batch.prevouts, to_write);
            },
            ProcessedData::FullHash { addresses } => {
                push_puts(&mut batch.fullhash_to_address, addresses);
            },
            ProcessedData::InscriptionPartials { to_remove, to_write } => {
                push_removes(&mut batch.outpoint_to_partials, to_remove);
                push_puts(&mut batch.outpoint_to_partials, to_write);
            },
            ProcessedData::InscriptionOffset { to_remove, to_write } => {
                push_removes(&mut batch.outpoint_to_inscription_offsets, to_remove);
                push_puts(&mut batch.outpoint_to_inscription_offsets, to_write);
            },
        }
    }
}

/// Appends a removal of each key, in order.
fn push_removes<K, V>(out: &mut Vec<KeyWrite<K, V>>, keys: Vec<K>)
    ensures
        final(out)@ == old(out)@ + removes(keys@),
{
    let ghost ks = keys@;
    for k in it: keys.into_iter()
        invariant
            it.seq() == ks,
            out@ == old(out)@ + removes(ks.take(it.index())),
    {
        proof {
            assert(ks.take(it.index() + 1) =~= ks.take(it.index()).push(k));
        }
        out.push(KeyWrite::Remove(k));
        assert(out@ =~= old(out)@ + removes(ks.take(it.index() + 1)));
    }
    assert(ks.take(ks.len() as int) =~= ks);
}

/// Appends a put of each entry, in order.
fn push_puts<K, V>(out: &mut Vec<KeyWrite<K, V>>, entries: Vec<(K, V)>)
    ensures
        final(out)@ == old(out)@ + puts(entries@),
{
    let ghost es = entries@;
    for e in it: entries.into_iter()
        invariant
            it.seq() == es,
            out@ == old(out)@ + puts(es.take(it.index())),
    {
        proof {
            assert(es.take(it.index() + 1) =~= es.take(it.index()).push(e));
        }
        out.push(KeyWrite::Put(e.0, e.1));
        assert(out@ =~= old(out)@ + puts(es.take(it.index() + 1)));
    }
    assert(es.take(es.len() as int) =~= es);
}

proof fn lemma_apply_concat<K, V>(m: Map<K, V>, a: Seq<KeyWrite<K, V>>, b: Seq<KeyWrite<K, V>>)
    ensures
        apply_writes(m, a + b) == apply_writes(apply_writes(m, a), b),
    decreases b.len(),
{
    if b.len() == 0 {
        assert(a + b =~= a);
    } else {
        assert((a + b).drop_last() =~= a + b.drop_last());
        assert((a + b).last() == b.last());
        lemma_apply_concat(m, a, b.drop_last());
    }
}

proof fn lemma_apply_removes<K, V>(m: Map<K, V>, ks: Seq<K>)
    ensures
        apply_writes(m, removes::<K, V>(ks)) == Map::new(
            |key: K| m.dom().contains(key) && !ks.contains(key),
            |key: K| m[key],
        ),
    decreases ks.len(),
{
    let after = Map::new(|key: K| m.dom().contains(key) && !ks.contains(key), |key: K| m[key]);
    if ks.len() == 0 {
        assert(apply_writes(m, removes::<K, V>(ks)) =~= after);
    } else {
        let rest = ks.drop_last();
        assert(removes::<K, V>(ks).drop_last() =~= removes::<K, V>(rest));
        lemma_apply_removes(m, rest);
        let before = Map::new(|key: K| m.dom().contains(key) && !rest.contains(key), |key: K| m[key]);
        assert forall|key: K| #![trigger ks.contains(key)] ks.contains(key) <==> (rest.contains(key)
            || key == ks.last()) by {
            if ks.contains(key) {
                let i = choose|i: int| 0 <= i < ks.len() && ks[i] == key;
                if i < ks.len() - 1 {
                    assert(rest[i] == key);
                }
            }
            if rest.contains(key) {
                let i = choose|i: int| 0 <= i < rest.len() && rest[i] == key;
                assert(ks[i] == key);
            }
            if key == ks.last() {
                assert(ks[ks.len() - 1] == key);
            }
        }
        assert(apply_writes(m, removes::<K, V>(ks)) =~= before.remove(ks.last()));
        assert(before.remove(ks.last()) =~= after);
    }
}

proof fn lemma_apply_puts<K, V>(m: Map<K, V>, es: Seq<(K, V)>)
    ensures
        apply_writes(m, puts(es)) == Map::new(
            |key: K| last_put(es, key) is Some || m.dom().contains(key),
            |key: K|
                match last_put(es, key) {
                    Some(v) => v,
                    None => m[key],
                },
        ),
    decreases es.len(),
{
    let after = Map::new(
        |key: K| last_put(es, key) is Some || m.dom().contains(key),
        |key: K|
            match last_put(es, key) {
                Some(v) => v,
                None => m[key],
            },
    );
    if es.len() == 0 {
        assert(apply_writes(m, puts(es)) =~= after);
    } else {
        let rest = es.drop_last();
        assert(puts(es).drop_last() =~= puts(rest));
        lemma_apply_puts(m, rest);
        assert(apply_writes(m, puts(es)) =~= after);
    }
}

/// Removals of `removed` followed by puts of `entries` give `remove_then_put`.
proof fn lemma_remove_then_put<K, V>(m: Map<K, V>, removed: Seq<K>, entries: Seq<(K, V)>)
    ensures
        apply_writes(m, removes::<K, V>(removed) + puts(entries)) == remove_then_put(
            m,
            removed,
            entries,
        ),
{
    lemma_apply_concat(m, removes::<K, V>(removed), puts(entries));
    lemma_apply_removes(m, removed);
    let cleared = Map::new(|key: K| m.dom().contains(key) && !removed.contains(key), |key: K| m[key]);
    lemma_apply_puts(cleared, entries);
    assert(apply_writes(cleared, puts(entries)) =~= remove_then_put(m, removed, entries));
}

/// A record's writes do what the record says: applying a batch extended by the record is the
/// record's effect on the tables as the batch leaves them. In particular a key that a record
/// both removes and puts ends up with the put value, and the tables the record does not name
/// are left as they are.
pub proof fn lemma_record_effect(d: ProcessedData, b: WriteBatchView, s: DbState)
    ensures
        d.extend(b).apply(s) == d.effect(b.apply(s)),
{
    let t = b.apply(s);
    match d {
        ProcessedData::Info { block_number, block_info } => {
            let w1 = puts(seq![((), block_number)]);
            let w2 = puts(seq![(block_number, block_info)]);
            lemma_apply_concat(s.last_block, b.last_block, w1);
            lemma_apply_concat(s.block_info, b.block_info, w2);
            assert(w1 =~= seq![KeyWrite::Put((), block_number)]);
            assert(w2 =~= seq![KeyWrite::Put(block_number, block_info)]);
            assert(w1.drop_last() =~= Seq::<KeyWrite<(), u32>>::empty());
            assert(w2.drop_last() =~= Seq::<KeyWrite<u32, BlockInfo>>::empty());
            assert(apply_writes(t.last_block, w1) == t.last_block.insert((), block_number));
            assert(apply_writes(t.block_info, w2.drop_last()) == t.block_info);
            assert(w2.last() == KeyWrite::Put(block_number, block_info));
            assert(apply_writes(t.block_info, w2) == t.block_info.insert(block_number, block_info));
            assert(d.extend(b).apply(s) =~= d.effect(t));
        },
        ProcessedData::Prevouts { to_write, to_remove } => {
            assert(b.prevouts + removes(to_remove@) + puts(to_write@) =~= b.prevouts + (removes(
                to_remove@,
            ) + puts(to_write@)));
            lemma_apply_concat(s.prevouts, b.prevouts, removes(to_remove@) + puts(to_write@));
            lemma_remove_then_put(t.prevouts, to_remove@, to_write@);
            assert(d.extend(b).apply(s) =~= d.effect(t));
        },
        ProcessedData::FullHash { addresses } => {
            lemma_apply_concat(s.fullhash_to_address, b.fullhash_to_address, puts(addresses@));
            lemma_remove_then_put(t.fullhash_to_address, Seq::<FullHash>::empty(), addresses@);
            assert(removes::<FullHash, String>(Seq::empty()) + puts(addresses@) =~= puts(
                addresses@,
            ));
            assert(d.extend(b).apply(s) =~= d.effect(t));
        },
        ProcessedData::InscriptionPartials { to_remove, to_write } => {
            assert(b.outpoint_to_partials + removes(to_remove@) + puts(to_write@)
                =~= b.outpoint_to_partials + (removes(to_remove@) + puts(to_write@)));
            lemma_apply_concat(
                s.outpoint_to_partials,
                b.outpoint_to_partials,
                removes(to_remove@) + puts(to_write@),
            );
            lemma_remove_then_put(t.outpoint_to_partials, to_remove@, to_write@);
            assert(d.extend(b).apply(s) =~= d.effect(t));
        },
        ProcessedData::InscriptionOffset { to_remove, to_write } => {
            assert(b.outpoint_to_inscription_offsets + removes(to_remove@) + puts(to_write@)
                =~= b.outpoint_to_inscription_offsets + (removes(to_remove@) + puts(to_write@)));
            lemma_apply_concat(
                s.outpoint_to_inscription_offsets,
                b.outpoint_to_inscription_offsets,
                removes(to_remove@) + puts(to_write@),
            );
            lemma_remove_then_put(t.outpoint_to_inscription_offsets, to_remove@, to_write@);
            assert(d.extend(b).apply(s) =~= d.effect(t));
        },
    }
}

impl WriteBatch {
    /// A batch with no writes.
    pub fn new() -> (r: Self)
        ensures
            r@.last_block.len() == 0,
            r@.block_info.len() == 0,
            r@.prevouts.len() == 0,
            r@.fullhash_to_address.len() == 0,
            r@.outpoint_to_partials.len() == 0,
            r@.outpoint_to_inscription_offsets.len() == 0,
    {
        WriteBatch {
            last_block: Vec::new(),
            block_info: Vec::new(),
            prevouts: Vec::new(),
            fullhash_to_address: Vec::new(),
            outpoint_to_partials: Vec::new(),
            outpoint_to_inscription_offsets: Vec::new(),
        }
    }
}

/// The records found while indexing one block, in the order they were found.
pub struct DataToWrite {
    pub processed: Vec<ProcessedData>,
}

impl Default for DataToWrite {
    fn default() -> (r: Self)
        ensures
            r.processed@.len() == 0,
    {
        DataToWrite { processed: Vec::new() }
    }
}

/// The batch `b` extended by each record's writes, first record first.
pub open spec fn extend_all(records: Seq<ProcessedData>, b: WriteBatchView) -> WriteBatchView
    decreases records.len(),
{
    if records.len() == 0 {
        b
    } else {
        records.last().extend(extend_all(records.drop_last(), b))
    }
}

/// The effect of the records on the tables, first record first.
pub open spec fn effect_all(records: Seq<ProcessedData>, s: DbState) -> DbState
    decreases records.len(),
{
    if records.len() == 0 {
        s
    } else {
        records.last().effect(effect_all(records.drop_last(), s))
    }
}

impl DataToWrite {
    /// Appends the writes of every record to `batch`, in the order of the records.
    pub fn write_all(self, batch: &mut WriteBatch)
        ensures
            final(batch)@ == extend_all(self.processed@, old(batch)@),
    {
        let ghost records = self.processed@;
        for data in it: self.processed.into_iter()
            invariant
                it.seq() == records,
                batch@ == extend_all(records.take(it.index()), old(batch)@),
        {
            proof {
                assert(records.take(it.index() + 1).drop_last() =~= records.take(it.index()));
            }
            data.write(batch);
        }
        assert(records.take(records.len() as int) =~= records);
    }
}

/// Writing a block's records one after another into a batch, and applying the batch, does to
/// the tables what the records say, in the order of the records.
pub proof fn lemma_records_effect(records: Seq<ProcessedData>, b: WriteBatchView, s: DbState)
    ensures
        extend_all(records, b).apply(s) == effect_all(records, b.apply(s)),
    decreases records.len(),
{
    if records.len() > 0 {
        lemma_records_effect(records.drop_last(), b, s);
        lemma_record_effect(records.last(), extend_all(records.drop_last(), b), s);
    }
}

} // verus!
