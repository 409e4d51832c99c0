//! Projection: batch plus store view in, denormalized output rows out.
//!
//! One row per record whose address has a defined counter in the store,
//! targeting the `TransferVolume` table, keyed by address, with the
//! record's name, symbol and address copied into the row's fields. The
//! counter is read to decide emission but not copied into the fields.

use vstd::prelude::*;

use crate::bytes::copy_bytes;
use crate::extract::{MatchBatch, RecordView};
use crate::store::VolumeStore;

verus! {

/// One table-row create for the downstream storage sink.
#[derive(Debug, PartialEq, Eq)]
pub struct OutputRow {
    pub table: Vec<u8>,
    pub row_key: Vec<u8>,
    pub name: Vec<u8>,
    pub symbol: Vec<u8>,
    pub address: Vec<u8>,
}

/// Mathematical image of an [`OutputRow`].
#[verifier::ext_equal]
pub struct RowView {
    pub table: Seq<u8>,
    pub row_key: Seq<u8>,
    pub name: Seq<u8>,
    pub symbol: Seq<u8>,
    pub address: Seq<u8>,
}

impl DeepView for OutputRow {
    type V = RowView;

    open spec fn deep_view(&self) -> RowView {
        RowView {
            table: self.table.deep_view(),
            row_key: self.row_key.deep_view(),
            name: self.name.deep_view(),
            symbol: self.symbol.deep_view(),
            address: self.address.deep_view(),
        }
    }
}

/// The target table's name: `TransferVolume`.
pub open spec fn table_name() -> Seq<u8> {
    seq![
        0x54u8, 0x72u8, 0x61u8, 0x6eu8, 0x73u8, 0x66u8, 0x65u8, 0x72u8, 0x56u8, 0x6fu8, 0x6cu8,
        0x75u8, 0x6du8, 0x65u8,
    ]
}

/// The target table's name as a vector.
pub fn table_name_bytes() -> (r: Vec<u8>)
    ensures
        r@ == table_name(),
{
    let r: Vec<u8> = vec![
        0x54u8, 0x72u8, 0x61u8, 0x6eu8, 0x73u8, 0x66u8, 0x65u8, 0x72u8, 0x56u8, 0x6fu8, 0x6cu8,
        0x75u8, 0x6du8, 0x65u8,
    ];
    proof {
        assert(r@ =~= table_name());
    }
    r
}

/// The row a record projects to: table `TransferVolume`, keyed by the
/// record's address, fields mirroring the record.
pub open spec fn row_of(rec: RecordView) -> RowView {
    RowView {
        table: table_name(),
        row_key: rec.address,
        name: rec.name,
        symbol: rec.symbol,
        address: rec.address,
    }
}

/// The rows a batch projects to against a store view: one per record whose
/// address is bound, in batch order; records with unbound addresses are
/// skipped silently.
pub open spec fn project_spec(recs: Seq<RecordView>, m: Map<Seq<u8>, int>) -> Seq<RowView>
    decreases recs.len(),
{
    if recs.len() == 0 {
        Seq::empty()
    } else {
        let rest = project_spec(recs.drop_last(), m);
        if m.dom().contains(recs.last().address) {
            rest.push(row_of(recs.last()))
        } else {
            rest
        }
    }
}

/// Emits exactly one row per record whose address has a defined value in
/// the store, in batch order, each row's fields mirroring its record.
pub fn project(batch: &MatchBatch, store: &VolumeStore) -> (rows: Vec<OutputRow>)
    requires
        store.wf(),
    ensures
        rows.deep_view() == project_spec(batch.deep_view(), store@),
{
    let ghost dv = batch.deep_view();
    let ghost m = store@;
    let mut rows: Vec<OutputRow> = Vec::new();
    let mut i: usize = 0;
    proof {
        assert(rows.deep_view() =~= project_spec(dv.take(0), m));
    }
    while i < batch.len()
        invariant
            i <= batch.len(),
            store.wf(),
            dv == batch.deep_view(),
            dv.len() == batch@.len(),
            m == store@,
            rows.deep_view() == project_spec(dv.take(i as int), m),
        decreases batch.len() - i,
    {
        proof {
            assert(batch@[i as int].deep_view() == dv[i as int]);
            assert(batch@[i as int].address.deep_view() =~= batch@[i as int].address@);
            assert(dv.take(i + 1 as int).drop_last() =~= dv.take(i as int));
            assert(dv.take(i + 1 as int).last() == dv[i as int]);
        }
        if store.get(&batch[i].address).is_some() {
            let ghost before = rows.deep_view();
            let row = OutputRow {
                table: table_name_bytes(),
                row_key: copy_bytes(&batch[i].address),
                name: copy_bytes(&batch[i].name),
                symbol: copy_bytes(&batch[i].symbol),
                address: copy_bytes(&batch[i].address),
            };
            proof {
                assert(batch@[i as int].name.deep_view() =~= batch@[i as int].name@);
                assert(batch@[i as int].symbol.deep_view() =~= batch@[i as int].symbol@);
                assert(row.deep_view() =~= row_of(dv[i as int]));
            }
            rows.push(row);
            proof {
                assert(rows.deep_view() =~= before.push(row_of(dv[i as int])));
            }
        }
        i = i + 1;
    }
    proof {
        assert(dv.take(dv.len() as int) =~= dv);
    }
    rows
}

} // verus!
