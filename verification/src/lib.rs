//! Search of documented function definitions in Nix sources.
//!
//! The library finds attribute-set entries whose value is a function and whose
//! name matches a pattern, and recovers the comment that stands before each.

pub mod comment;
pub mod matcher;
pub mod recover;
pub mod report;
pub mod search;
pub mod text;
pub mod tree;
pub mod walk;
