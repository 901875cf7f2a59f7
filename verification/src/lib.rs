//! Verified core of a conversational memory system.
pub mod clock;
pub mod consolidation;
pub mod context_compressor;
pub mod fractions;
pub mod knowledge_graph;
pub mod lcm_grep;
pub mod letters;
pub mod lists;
pub mod messages;
pub mod naturals;
pub mod ordering;
pub mod patterns;
pub mod render;
pub mod retrieval;
pub mod scores;
pub mod text;
pub mod text_laws;
pub mod view_laws;
