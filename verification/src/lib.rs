//! Notegraf: a graph-oriented notebook.
//!
//! Notes are identified by a [`NoteID`] and keep every revision they ever had.
//! Notes can form sequences (previous/next), trees (parent/branches) and refer to
//! each other through links in their bodies.
pub mod api;
pub mod clock;
pub mod configuration;
pub mod errors;
pub mod note;
pub mod notemetadata;
pub mod notestore;
pub mod notetype;
pub mod order;
pub mod tagged;
pub mod text;
pub mod url;

pub use note::{NoteID, NoteLocator, Revision};
