//! Per-block token-transfer pipeline.
//!
//! Scans a block's event logs for transfer events of tokens whose display
//! name contains `"Ape"`, keeps a running per-address counter across blocks,
//! and projects matches plus counters into denormalized output rows.
//!
//! Three stages, run once per block in this order by the host engine:
//! extraction, accumulation and projection.

pub mod accumulate;
pub mod bytes;
pub mod events;
pub mod extract;
pub mod hex;
pub mod meta;
pub mod pipeline;
pub mod project;
pub mod store;
