//! Extraction: block in, ordered batch of match records out.
//!
//! A log contributes one record exactly when its first topic is the
//! transfer signature topic and the resolved token name contains `"Ape"`
//! (case-sensitive, anywhere in the name). Records keep log order;
//! duplicate addresses stay as separate records. A signature-matching log
//! without the conforming binary shape aborts the whole block with a
//! decode fault.

use vstd::prelude::*;

use crate::bytes::{contains_seq, contains_subseq};
use crate::events::{block_ok, conforms, sig_matches, Block, LogView};
use crate::hex::{hex_encode, hex_of};
use crate::meta::{resolved_name, resolved_symbol, MetaTable, TokenMetaView};

verus! {

/// One qualifying transfer event: the emitting contract's address as
/// lowercase hex text, and the token's resolved name and symbol.
#[derive(Debug, PartialEq, Eq)]
pub struct MatchRecord {
    pub address: Vec<u8>,
    pub name: Vec<u8>,
    pub symbol: Vec<u8>,
}

/// Mathematical image of a [`MatchRecord`].
#[verifier::ext_equal]
pub struct RecordView {
    pub address: Seq<u8>,
    pub name: Seq<u8>,
    pub symbol: Seq<u8>,
}

impl DeepView for MatchRecord {
    type V = RecordView;

    open spec fn deep_view(&self) -> RecordView {
        RecordView {
            address: self.address.deep_view(),
            name: self.name.deep_view(),
            symbol: self.symbol.deep_view(),
        }
    }
}

/// The ordered records of one block, in log order.
pub type MatchBatch = Vec<MatchRecord>;

/// Extraction failure: the block carried a signature-matching log without
/// the conforming binary shape.
#[derive(Debug, PartialEq, Eq, Structural)]
pub enum ExtractError {
    DecodeFault,
}

/// The name filter: the token's display name contains `"Ape"`.
pub open spec fn ape_seq() -> Seq<u8> {
    seq![0x41u8, 0x70u8, 0x65u8]
}

/// A name passes the filter when it contains `"Ape"` as a contiguous,
/// case-sensitive substring.
pub open spec fn name_matches(name: Seq<u8>) -> bool {
    contains_seq(name, ape_seq())
}

/// Does `name` contain `"Ape"` (case-sensitive, anywhere)?
pub fn matches_name(name: &Vec<u8>) -> (r: bool)
    ensures
        r == name_matches(name@),
{
    let ape: Vec<u8> = vec![0x41u8, 0x70u8, 0x65u8];
    proof {
        assert(ape@ =~= ape_seq());
    }
    contains_subseq(name, &ape)
}

/// The log contributes a record: it is a conforming transfer log and the
/// name the table resolves for its address passes the filter.
pub open spec fn qualifies(log: LogView, table: Seq<TokenMetaView>) -> bool {
    &&& sig_matches(log)
    &&& conforms(log)
    &&& name_matches(resolved_name(table, log.address))
}

/// The record a qualifying log yields.
pub open spec fn record_of(log: LogView, table: Seq<TokenMetaView>) -> RecordView {
    RecordView {
        address: hex_of(log.address),
        name: resolved_name(table, log.address),
        symbol: resolved_symbol(table, log.address),
    }
}

/// The records of a block: one per qualifying log, in log order.
pub open spec fn extract_logs(logs: Seq<LogView>, table: Seq<TokenMetaView>) -> Seq<RecordView>
    decreases logs.len(),
{
    if logs.len() == 0 {
        Seq::empty()
    } else {
        let rest = extract_logs(logs.drop_last(), table);
        if qualifies(logs.last(), table) {
            rest.push(record_of(logs.last(), table))
        } else {
            rest
        }
    }
}

/// Scans the block's logs in order and returns one record per qualifying
/// log, or a decode fault if some signature-matching log does not conform.
pub fn extract(blk: &Block, table: &MetaTable) -> (r: Result<MatchBatch, ExtractError>)
    ensures
        r is Ok <==> block_ok(blk.deep_view()),
        r matches Ok(batch) ==> batch.deep_view() == extract_logs(
            blk.deep_view(),
            table.deep_view(),
        ),
        r matches Err(e) ==> e == ExtractError::DecodeFault,
{
    let ghost logs = blk.deep_view();
    let ghost tbl = table.deep_view();
    let mut out: Vec<MatchRecord> = Vec::new();
    let mut i: usize = 0;
    proof {
        assert(out.deep_view() =~= extract_logs(logs.take(0), tbl));
    }
    while i < blk.logs.len()
        invariant
            i <= blk.logs.len(),
            logs == blk.deep_view(),
            tbl == table.deep_view(),
            logs.len() == blk.logs@.len(),
            forall|k: int|
                0 <= k < i && sig_matches(#[trigger] logs[k]) ==> conforms(logs[k]),
            out.deep_view() == extract_logs(logs.take(i as int), tbl),
        decreases blk.logs.len() - i,
    {
        let log = &blk.logs[i];
        proof {
            assert(log.deep_view() == logs[i as int]);
        }
        if crate::events::log_sig_matches(log) {
            if !crate::events::log_conforms(log) {
                proof {
                    assert(!block_ok(logs));
                }
                return Err(ExtractError::DecodeFault);
            }
            let (name, symbol) = table.resolve(&log.address);
            if matches_name(&name) {
                let ghost before = out.deep_view();
                let address = hex_encode(&log.address);
                let rec = MatchRecord { address, name, symbol };
                proof {
                    assert(log.address.deep_view() =~= log.address@);
                    assert(rec.deep_view() =~= record_of(logs[i as int], tbl));
                }
                out.push(rec);
                proof {
                    assert(out.deep_view() =~= before.push(record_of(logs[i as int], tbl)));
                }
            } else {
                proof {
                    assert(log.address.deep_view() =~= log.address@);
                    assert(!qualifies(logs[i as int], tbl));
                }
            }
        }
        proof {
            assert(logs.take(i + 1 as int).drop_last() =~= logs.take(i as int));
            assert(logs.take(i + 1 as int).last() == logs[i as int]);
        }
        i = i + 1;
    }
    proof {
        assert(logs.take(logs.len() as int) =~= logs);
    }
    Ok(out)
}

/// Every extracted record stems from a qualifying log of the block — one
/// whose first topic is the transfer signature topic, whose shape conforms
/// and whose resolved name contains `"Ape"` — and mirrors that log's
/// address (hex-encoded), name and symbol; no other log contributes.
pub proof fn lemma_extract_membership(logs: Seq<LogView>, table: Seq<TokenMetaView>, j: int)
    requires
        0 <= j < extract_logs(logs, table).len(),
    ensures
        exists|i: int|
            #![trigger record_of(logs[i], table)]
            0 <= i < logs.len() && qualifies(logs[i], table) && extract_logs(logs, table)[j]
                == record_of(logs[i], table),
    decreases logs.len(),
{
    let prior = logs.drop_last();
    let rest = extract_logs(prior, table);
    if j < rest.len() {
        lemma_extract_membership(prior, table, j);
        let w = choose|i: int|
            #![trigger record_of(prior[i], table)]
            0 <= i < prior.len() && qualifies(prior[i], table) && rest[j] == record_of(
                prior[i],
                table,
            );
        assert(prior[w] == logs[w]);
        assert(extract_logs(logs, table)[j] == rest[j]);
        assert(0 <= w < logs.len() && qualifies(logs[w], table) && extract_logs(logs, table)[j]
            == record_of(logs[w], table));
    } else {
        assert(qualifies(logs.last(), table));
        let w = logs.len() - 1;
        assert(0 <= w < logs.len() && qualifies(logs[w], table) && extract_logs(logs, table)[j]
            == record_of(logs[w], table));
    }
}

/// Conversely, every qualifying log is represented: the record it yields
/// appears in the extracted batch.
pub proof fn lemma_extract_coverage(logs: Seq<LogView>, table: Seq<TokenMetaView>, i: int)
    requires
        0 <= i < logs.len(),
        qualifies(logs[i], table),
    ensures
        exists|j: int|
            #![trigger extract_logs(logs, table)[j]]
            0 <= j < extract_logs(logs, table).len() && extract_logs(logs, table)[j] == record_of(
                logs[i],
                table,
            ),
    decreases logs.len(),
{
    let prior = logs.drop_last();
    let rest = extract_logs(prior, table);
    if i == logs.len() - 1 {
        let e = extract_logs(logs, table);
        assert(e[e.len() - 1] == record_of(logs[i], table));
    } else {
        assert(prior[i] == logs[i]);
        lemma_extract_coverage(prior, table, i);
        let w = choose|j: int|
            #![trigger extract_logs(prior, table)[j]]
            0 <= j < extract_logs(prior, table).len() && extract_logs(prior, table)[j]
                == record_of(prior[i], table);
        assert(extract_logs(logs, table)[w] == rest[w]);
    }
}

} // verus!
