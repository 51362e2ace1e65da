//! An in-memory vector similarity store.
//!
//! A [`Collection`] maps 128-bit document identifiers to fixed-length
//! embedding vectors and answers top-K nearest-neighbour queries by
//! cosine similarity.  Similarity scores are kept in exact integer form
//! (dot product and squared norms, see [`Score`]), so that the ranking
//! itself is verified arithmetic; callers that want a floating-point
//! similarity derive it from those integers.

use vstd::prelude::*;

mod collections;
mod ranking;
mod score;

pub use collections::Collection;
pub use collections::Database;
pub use collections::Results;
pub use collections::contains_id;
pub use collections::inserted;
pub use collections::lemma_search_deterministic;
pub use collections::lemma_top_k_dominates;
pub use collections::scored_seq;
pub use collections::top_k_spec;
pub use collections::valid_embedding;
pub use ranking::insert_desc;
pub use ranking::sort_desc;
pub use ranking::sorted_desc;
pub use score::Score;
pub use score::cosine_similarity;
pub use score::dot_spec;
pub use score::lemma_cauchy_schwarz;
pub use score::lemma_score_ge_refl;
pub use score::lemma_score_ge_total;
pub use score::lemma_score_ge_trans;
pub use score::lemma_self_similarity;
pub use score::lemma_self_similarity_maximal;
pub use score::lemma_zero_vector_similarity;
pub use score::norm_sq_spec;
pub use score::score_cmp_ge;
pub use score::score_cmp_gt;
pub use score::score_of;
pub use score::score_is_zero;
pub use score::score_ge;
pub use score::score_gt;

verus! {

/// Dimensionality of every embedding vector held by a collection.
pub const EMBEDDING_SIZE: usize = 768;

/// Maximum number of entries in a search result set.
pub const TOP_N_RESULTS: usize = 10;

} // verus!
