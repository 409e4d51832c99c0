//! Accumulation: one counter increment per record, keyed by address.
//!
//! The operation is a pure additive fold — commutative and associative —
//! so the final counters depend only on how many records carry each
//! address, not on the order they arrive in, within a batch or across a
//! run of batches.

use vstd::map::*;
use vstd::prelude::*;

use crate::extract::{MatchBatch, RecordView};
use crate::store::{lemma_stored_val_in_range, stored_val, VolumeStore};

verus! {

/// How many records of the batch carry address `k`.
pub open spec fn count_addr(recs: Seq<RecordView>, k: Seq<u8>) -> nat
    decreases recs.len(),
{
    if recs.len() == 0 {
        0
    } else {
        count_addr(recs.drop_last(), k) + if recs.last().address == k {
            1nat
        } else {
            0nat
        }
    }
}

/// The store after folding a batch in, record by record: each record bumps
/// its address's counter by one, starting absent keys at zero.
pub open spec fn acc_spec(m: Map<Seq<u8>, int>, recs: Seq<RecordView>) -> Map<Seq<u8>, int>
    decreases recs.len(),
{
    if recs.len() == 0 {
        m
    } else {
        let m1 = acc_spec(m, recs.drop_last());
        m1.insert(recs.last().address, stored_val(m1, recs.last().address) + 1)
    }
}

/// Folding a batch moves each key by exactly its record count: a key is
/// bound afterwards when it was bound before or some record carries it,
/// and its counter grows by the number of records that carry it.
pub proof fn lemma_acc_spec_value(m: Map<Seq<u8>, int>, recs: Seq<RecordView>, k: Seq<u8>)
    ensures
        acc_spec(m, recs).dom().contains(k) <==> (m.dom().contains(k) || count_addr(recs, k)
            > 0),
        stored_val(acc_spec(m, recs), k) == stored_val(m, k) + count_addr(recs, k),
    decreases recs.len(),
{
    if recs.len() > 0 {
        lemma_acc_spec_value(m, recs.drop_last(), k);
    }
}

/// A prefix of a batch counts no more occurrences of `k` than the batch.
pub proof fn lemma_count_take_le(recs: Seq<RecordView>, i: int, k: Seq<u8>)
    requires
        0 <= i <= recs.len(),
    ensures
        count_addr(recs.take(i), k) <= count_addr(recs, k),
    decreases recs.len(),
{
    if i == recs.len() {
        assert(recs.take(i) =~= recs);
    } else {
        assert(recs.drop_last().take(i) =~= recs.take(i));
        lemma_count_take_le(recs.drop_last(), i, k);
    }
}

/// Increments the counter for each record's address, one per record, in
/// batch order. The caller keeps every counter within the 64-bit range.
pub fn accumulate(batch: &MatchBatch, store: &mut VolumeStore)
    requires
        old(store).wf(),
        forall|k: Seq<u8>|
            stored_val(old(store)@, k) + count_addr(batch.deep_view(), k) <= i64::MAX,
    ensures
        final(store).wf(),
        final(store)@ == acc_spec(old(store)@, batch.deep_view()),
{
    let ghost dv = batch.deep_view();
    let ghost m0 = old(store)@;
    let mut i: usize = 0;
    proof {
        assert(dv.take(0) =~= Seq::<RecordView>::empty());
    }
    while i < batch.len()
        invariant
            i <= batch.len(),
            dv == batch.deep_view(),
            dv.len() == batch@.len(),
            m0 == old(store)@,
            forall|k: Seq<u8>| stored_val(m0, k) + count_addr(dv, k) <= i64::MAX,
            store.wf(),
            store@ == acc_spec(m0, dv.take(i as int)),
        decreases batch.len() - i,
    {
        let ghost addr = dv[i as int].address;
        proof {
            assert(batch@[i as int].deep_view() == dv[i as int]);
            assert(batch@[i as int].address.deep_view() =~= batch@[i as int].address@);
            lemma_acc_spec_value(m0, dv.take(i as int), addr);
            lemma_stored_val_in_range(store.entries.deep_view(), addr);
            assert(dv.take(i + 1 as int).drop_last() =~= dv.take(i as int));
            assert(dv.take(i + 1 as int).last() == dv[i as int]);
            lemma_count_take_le(dv, i + 1 as int, addr);
            assert(count_addr(dv.take(i as int), addr) + 1 == count_addr(
                dv.take(i + 1 as int),
                addr,
            ));
        }
        store.add(&batch[i].address, 1);
        proof {
            assert(store@ =~= acc_spec(m0, dv.take(i + 1 as int)));
        }
        i = i + 1;
    }
    proof {
        assert(dv.take(dv.len() as int) =~= dv);
    }
}

/// Removing one record drops exactly its own contribution to the count.
pub proof fn lemma_count_remove(recs: Seq<RecordView>, w: int, k: Seq<u8>)
    requires
        0 <= w < recs.len(),
    ensures
        count_addr(recs, k) == count_addr(recs.remove(w), k) + if recs[w].address == k {
            1nat
        } else {
            0nat
        },
    decreases recs.len(),
{
    if w == recs.len() - 1 {
        assert(recs.remove(w) =~= recs.drop_last());
    } else {
        assert(recs.remove(w).drop_last() =~= recs.drop_last().remove(w));
        assert(recs.remove(w).last() == recs.last());
        lemma_count_remove(recs.drop_last(), w, k);
        assert(recs.drop_last()[w] == recs[w]);
    }
}

/// Batches with the same records, in any order, count every address alike.
pub proof fn lemma_count_permuted(b1: Seq<RecordView>, b2: Seq<RecordView>, k: Seq<u8>)
    requires
        b1.to_multiset() == b2.to_multiset(),
    ensures
        count_addr(b1, k) == count_addr(b2, k),
    decreases b2.len(),
{
    broadcast use vstd::seq_lib::group_to_multiset_ensures;

    if b2.len() == 0 {
        assert(b1.len() == b1.to_multiset().len());
        assert(b2.len() == b2.to_multiset().len());
    } else {
        let x = b2.last();
        assert(b2[b2.len() - 1] == x);
        assert(b2.contains(x));
        assert(b1.to_multiset().count(x) > 0);
        assert(b1.contains(x));
        let w = choose|i: int| 0 <= i < b1.len() && b1[i] == x;
        assert(b1.remove(w).to_multiset() == b1.to_multiset().remove(x));
        assert(b2.drop_last().push(x) =~= b2);
        assert(b2.to_multiset() == b2.drop_last().to_multiset().insert(x));
        assert(b1.remove(w).to_multiset() =~= b2.drop_last().to_multiset());
        lemma_count_permuted(b1.remove(w), b2.drop_last(), k);
        lemma_count_remove(b1, w, k);
    }
}

/// Accumulation is order-independent: batches that are permutations of one
/// another — they hold the same records as a multiset — drive any starting
/// store to the same final counters.
pub proof fn lemma_accumulate_order_independent(
    m: Map<Seq<u8>, int>,
    b1: Seq<RecordView>,
    b2: Seq<RecordView>,
)
    requires
        b1.to_multiset() == b2.to_multiset(),
    ensures
        acc_spec(m, b1) == acc_spec(m, b2),
{
    assert_maps_equal!(acc_spec(m, b1), acc_spec(m, b2), k => {
        lemma_count_permuted(b1, b2, k);
        lemma_acc_spec_value(m, b1, k);
        lemma_acc_spec_value(m, b2, k);
    });
}

/// The store after folding a run of batches in, block by block, in order.
pub open spec fn acc_blocks(m: Map<Seq<u8>, int>, batches: Seq<Seq<RecordView>>) -> Map<
    Seq<u8>,
    int,
>
    decreases batches.len(),
{
    if batches.len() == 0 {
        m
    } else {
        acc_spec(acc_blocks(m, batches.drop_last()), batches.last())
    }
}

/// Matching records carrying address `k` across a whole run of batches.
pub open spec fn total_count(batches: Seq<Seq<RecordView>>, k: Seq<u8>) -> nat
    decreases batches.len(),
{
    if batches.len() == 0 {
        0
    } else {
        total_count(batches.drop_last(), k) + count_addr(batches.last(), k)
    }
}

/// Folding a run of batches moves each key by its total record count.
pub proof fn lemma_acc_blocks_value(
    m: Map<Seq<u8>, int>,
    batches: Seq<Seq<RecordView>>,
    k: Seq<u8>,
)
    ensures
        stored_val(acc_blocks(m, batches), k) == stored_val(m, k) + total_count(batches, k),
        acc_blocks(m, batches).dom().contains(k) <==> (m.dom().contains(k) || total_count(
            batches,
            k,
        ) > 0),
    decreases batches.len(),
{
    if batches.len() > 0 {
        lemma_acc_blocks_value(m, batches.drop_last(), k);
        lemma_acc_spec_value(acc_blocks(m, batches.drop_last()), batches.last(), k);
    }
}

/// Across a run of batches folded into an initially empty store, the value
/// for any address equals the total count of records carrying it, and an
/// address is bound exactly when some record carries it.
pub proof fn lemma_store_value_across_blocks(batches: Seq<Seq<RecordView>>, k: Seq<u8>)
    ensures
        stored_val(acc_blocks(Map::empty(), batches), k) == total_count(batches, k),
        acc_blocks(Map::empty(), batches).dom().contains(k) <==> total_count(batches, k) > 0,
{
    lemma_acc_blocks_value(Map::empty(), batches, k);
}

} // verus!
