//! Transitive closure of file references in an org-roam note graph.
//!
//! The library holds the verified core: the identity of a file as an absolute
//! path with its storage form, the breadth-first closure engine, driven one
//! event at a time by whoever queries the note store and the version control,
//! and the rule that decides which files the walk stops at.
pub mod closure;
pub mod closure_lemmas;
pub mod roam_file;
pub mod status;

pub use closure::Closure;
pub use roam_file::{PathError, RoamFile};
pub use status::{exclude_unchanged, FileStatus};
