//! A library for a small interactive tool that copies a single file out of a
//! remote repository into the working directory, remembering recently copied
//! files so they can be picked again quickly.
//!
//! The verified core is the selection pipeline and the history log: building
//! the combined candidate list, resolving a selection into a download URL,
//! parsing and rendering the persisted history file, and keeping the history
//! bounded, deduplicated and most-recently-used-first.

pub mod codec;
pub mod errors;
pub mod history;
pub mod json;
pub mod select;
pub mod tree;
