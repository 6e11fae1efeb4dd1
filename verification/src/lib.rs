//! Verified core of a retrieval-augmented memory engine for a conversational
//! agent: document chunking, a bounded embedding cache, session-windowed
//! conversation identity, insight-response parsing with a recovery chain, and
//! assembly of grounding context from recent and similar memories.

use vstd::prelude::*;

pub mod api;
pub mod cache;
pub mod chunker;
pub mod composer;
pub mod context;
pub mod crawler;
pub mod error;
pub mod food;
pub mod insights;
pub mod memory;
pub mod personality;
pub mod providers;
pub mod semantic;
pub mod session;
pub mod text;

verus! {

/// Length of every embedding vector accepted by the engine.
pub const EMBEDDING_DIM: usize = 1536;

/// True iff a vector has the fixed embedding dimension the engine requires.
pub open spec fn valid_embedding(e: Seq<i64>) -> bool {
    e.len() == EMBEDDING_DIM
}

/// Checks that an embedding vector has the required fixed length.
pub fn embedding_ok(e: &Vec<i64>) -> (r: bool)
    ensures
        r == valid_embedding(e@),
{
    e.len() == EMBEDDING_DIM
}

} // verus!
