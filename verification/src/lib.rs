//! Verified core of a retrieval-augmented-generation support pipeline.
//!
//! A document is partitioned into size-bounded chunks (classifier, block
//! assembler, chunk splitter), chunks are correlated with embedding vectors
//! returned in batches by an external endpoint, the resulting records are
//! given sequential point ids for an ephemeral vector collection, and a
//! context-grounded chat request is composed and its answer text extracted.
//! Network transport itself lives outside this crate; everything that
//! decides or computes is verified here.

use vstd::prelude::*;

pub mod blocks;
pub mod chunks;
pub mod classify;
pub mod client;
pub mod embed;
pub mod index;
pub mod node;
pub mod query;
pub mod text;

verus! {

/// Nominal upper bound on a chunk's length, in characters.
pub const MAX_CHUNK_SIZE: usize = 2000;

/// Number of chunks sent to the embedding endpoint in one request.
pub const BATCH_SIZE: usize = 3;

} // verus!
