//! Knowledge graph for capturing, organizing, and reusing expertise.
//!
//! Node types and relation types are free-form lower-case names. The tables of the graph are held
//! in memory with their keys and references checked; a store may mirror them.
pub mod names;
pub mod rows;
pub mod graph;
pub mod changes;
pub mod queries;
pub mod searches;
pub mod ranking;
pub mod subgraph;
pub mod laws;
pub mod answers;
pub mod writes;
