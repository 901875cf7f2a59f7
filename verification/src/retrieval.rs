//! Multi-stage retrieval with Reciprocal Rank Fusion.
pub mod cache;
pub mod rrf;
pub mod laws;
pub mod pipeline;
pub mod recall_laws;
