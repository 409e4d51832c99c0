//! The input shape: a block as an ordered list of event logs, and the
//! transfer-event signature test.
//!
//! A log carries the emitting contract's address, its topic list and its
//! data payload. A log is a transfer candidate when its first topic equals
//! the transfer signature topic (the Keccak-256 hash of
//! `Transfer(address,address,uint256)`); a candidate conforms when it has
//! the full indexed shape of that event: three 32-byte topics and a 32-byte
//! data word.

use vstd::prelude::*;

verus! {

/// One event log: emitting contract address, topics, data payload.
pub struct LogEntry {
    pub address: Vec<u8>,
    pub topics: Vec<Vec<u8>>,
    pub data: Vec<u8>,
}

/// Mathematical image of a [`LogEntry`].
#[verifier::ext_equal]
pub struct LogView {
    pub address: Seq<u8>,
    pub topics: Seq<Seq<u8>>,
    pub data: Seq<u8>,
}

impl DeepView for LogEntry {
    type V = LogView;

    open spec fn deep_view(&self) -> LogView {
        LogView {
            address: self.address.deep_view(),
            topics: self.topics.deep_view(),
            data: self.data.deep_view(),
        }
    }
}

/// A block, reduced to its ordered sequence of event logs.
pub struct Block {
    pub logs: Vec<LogEntry>,
}

impl DeepView for Block {
    type V = Seq<LogView>;

    open spec fn deep_view(&self) -> Seq<LogView> {
        self.logs.deep_view()
    }
}

/// The transfer signature topic: Keccak-256 of
/// `Transfer(address,address,uint256)`.
pub open spec fn transfer_topic() -> Seq<u8> {
    seq![
        0xddu8, 0xf2, 0x52, 0xad, 0x1b, 0xe2, 0xc8, 0x9b, 0x69, 0xc2, 0xb0, 0x68, 0xfc, 0x37,
        0x8d, 0xaa, 0x95, 0x2b, 0xa7, 0xf1, 0x63, 0xc4, 0xa1, 0x16, 0x28, 0xf5, 0x5a, 0x4d,
        0xf5, 0x23, 0xb3, 0xef,
    ]
}

/// The transfer signature topic as a vector.
pub fn transfer_topic_bytes() -> (r: Vec<u8>)
    ensures
        r@ == transfer_topic(),
{
    let r: Vec<u8> = vec![
        0xdd, 0xf2, 0x52, 0xad, 0x1b, 0xe2, 0xc8, 0x9b, 0x69, 0xc2, 0xb0, 0x68, 0xfc, 0x37,
        0x8d, 0xaa, 0x95, 0x2b, 0xa7, 0xf1, 0x63, 0xc4, 0xa1, 0x16, 0x28, 0xf5, 0x5a, 0x4d,
        0xf5, 0x23, 0xb3, 0xef,
    ];
    proof {
        assert(r@ =~= transfer_topic());
    }
    r
}

/// The log's first topic is the transfer signature topic.
pub open spec fn sig_matches(log: LogView) -> bool {
    log.topics.len() >= 1 && log.topics[0] == transfer_topic()
}

/// The log has the full binary shape of the transfer event: three 32-byte
/// topics (signature, from, to) and one 32-byte data word (the amount).
pub open spec fn conforms(log: LogView) -> bool {
    &&& log.topics.len() == 3
    &&& forall|t: int| 0 <= t < 3 ==> #[trigger] log.topics[t].len() == 32
    &&& log.data.len() == 32
}

/// Every signature-matching log in the block has the conforming shape, so
/// extraction can decode every candidate.
pub open spec fn block_ok(logs: Seq<LogView>) -> bool {
    forall|i: int| 0 <= i < logs.len() && sig_matches(#[trigger] logs[i]) ==> conforms(logs[i])
}

/// Does the log's first topic equal the transfer signature topic?
pub fn log_sig_matches(log: &LogEntry) -> (r: bool)
    ensures
        r == sig_matches(log.deep_view()),
{
    if log.topics.len() == 0 {
        return false;
    }
    let topic = transfer_topic_bytes();
    let eq = log.topics[0] == topic;
    proof {
        assert(log.deep_view().topics[0] == log.topics@[0]@);
        if log.topics@[0]@ =~= topic@ {
            assert(log.topics@[0]@ == topic@);
        }
    }
    eq
}

/// Does the log have the conforming transfer shape?
pub fn log_conforms(log: &LogEntry) -> (r: bool)
    ensures
        r == conforms(log.deep_view()),
{
    if log.topics.len() != 3 {
        return false;
    }
    if log.data.len() != 32 {
        return false;
    }
    let mut t: usize = 0;
    while t < 3
        invariant
            t <= 3,
            log.topics@.len() == 3,
            forall|k: int| 0 <= k < t ==> #[trigger] log.deep_view().topics[k].len() == 32,
        decreases 3 - t,
    {
        if log.topics[t].len() != 32 {
            proof {
                assert(log.deep_view().topics[t as int].len() != 32);
            }
            return false;
        }
        t = t + 1;
    }
    true
}

} // verus!
