//! Vector-store surface shared with outside collaborators. The stores
//! themselves work over floating-point embeddings and live outside the
//! verified library; only the similarity-metric choice is shared here.

use vstd::prelude::*;

verus! {

/// The similarity metric a vector store compares embeddings with.
#[derive(Debug, Clone, Copy, PartialEq, Eq, Structural)]
pub enum SimilarityMetric {
    /// Cosine similarity; higher is more similar.
    Cosine,
    /// Euclidean distance; lower is more similar.
    Euclidean,
    /// Dot product; higher is more similar.
    DotProduct,
}

} // verus!
