//! Context compression: keeping a conversation inside the model's context window.
pub mod limits;
pub mod history;
pub mod config;
pub mod run;
pub mod steps;
pub mod drive;
pub mod laws;
