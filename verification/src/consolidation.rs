//! LLM-driven memory consolidation.
//!
//! After each conversation turn, structured information is extracted: a summary for the daily
//! log, facts worth remembering, and the entities and relations of the knowledge graph.
pub mod media;
pub mod turn;
pub mod dream;
pub mod entities;
pub mod laws;
