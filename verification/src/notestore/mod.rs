//! Storage backends of notes.
pub mod laws;
pub mod postgresql;
pub mod postgresql_steps;
pub mod search;
pub mod in_memory;
