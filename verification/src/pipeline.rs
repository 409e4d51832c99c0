//! One block through all three stages, in the order the host engine runs
//! them: extract, then accumulate, then project.
//!
//! The projection reads the store after this block's increments have been
//! applied, so every record of the block sees a bound counter and yields a
//! row. On a decode fault nothing is accumulated and the store is
//! unchanged.

use vstd::prelude::*;

use crate::accumulate::{acc_spec, accumulate, count_addr, lemma_acc_spec_value};
use crate::events::{block_ok, Block};
use crate::extract::{extract, extract_logs, ExtractError};
use crate::meta::MetaTable;
use crate::project::{project, project_spec, OutputRow};
use crate::store::{stored_val, VolumeStore};

verus! {

/// Runs one block through extraction, accumulation and projection. On
/// success the store has absorbed one increment per extracted record and
/// the rows are the batch's projection against the updated store; on a
/// decode fault the store is untouched. The caller keeps every counter
/// within the 64-bit range.
pub fn process_block(blk: &Block, table: &MetaTable, store: &mut VolumeStore) -> (r: Result<
    Vec<OutputRow>,
    ExtractError,
>)
    requires
        old(store).wf(),
        forall|k: Seq<u8>|
            stored_val(old(store)@, k) + count_addr(
                extract_logs(blk.deep_view(), table.deep_view()),
                k,
            ) <= i64::MAX,
    ensures
        final(store).wf(),
        r is Ok <==> block_ok(blk.deep_view()),
        r matches Ok(rows) ==> {
            &&& final(store)@ == acc_spec(
                old(store)@,
                extract_logs(blk.deep_view(), table.deep_view()),
            )
            &&& rows.deep_view() == project_spec(
                extract_logs(blk.deep_view(), table.deep_view()),
                final(store)@,
            )
        },
        r matches Err(e) ==> e == ExtractError::DecodeFault && final(store)@ == old(store)@,
{
    match extract(blk, table) {
        Err(e) => Err(e),
        Ok(batch) => {
            accumulate(&batch, store);
            let rows = project(&batch, store);
            Ok(rows)
        },
    }
}

/// Within one block, projection follows accumulation of the same batch, so
/// every record's address is bound by projection time and every record
/// yields its row: the defensive store check in projection never skips a
/// record of the block that was just accumulated.
pub proof fn lemma_same_block_projection(m: Map<Seq<u8>, int>, batch: Seq<crate::extract::RecordView>)
    ensures
        project_spec(batch, acc_spec(m, batch)).len() == batch.len(),
{
    lemma_projection_of_superset(m, batch, batch.len() as int);
    assert(batch.take(batch.len() as int) =~= batch);
}

/// Projection against any store that binds every address of a batch's
/// prefix emits one row per record of that prefix.
proof fn lemma_projection_of_superset(
    m: Map<Seq<u8>, int>,
    batch: Seq<crate::extract::RecordView>,
    i: int,
)
    requires
        0 <= i <= batch.len(),
    ensures
        project_spec(batch.take(i), acc_spec(m, batch)).len() == i,
    decreases i,
{
    if i > 0 {
        lemma_projection_of_superset(m, batch, i - 1);
        assert(batch.take(i).drop_last() =~= batch.take(i - 1));
        assert(batch.take(i).last() == batch[i - 1]);
        lemma_count_at(batch, i - 1);
        lemma_acc_spec_value(m, batch, batch[i - 1].address);
    } else {
        assert(batch.take(0) =~= Seq::<crate::extract::RecordView>::empty());
    }
}

/// A batch counts at least one occurrence of each of its own addresses.
proof fn lemma_count_at(batch: Seq<crate::extract::RecordView>, i: int)
    requires
        0 <= i < batch.len(),
    ensures
        count_addr(batch, batch[i].address) >= 1,
    decreases batch.len(),
{
    if i == batch.len() - 1 {
    } else {
        lemma_count_at(batch.drop_last(), i);
        assert(batch.drop_last()[i] == batch[i]);
    }
}

} // verus!
