//! Hierarchical section numbering for structured documents.
//!
//! The numbering engine walks a stream of structural events (heading starts
//! and opaque content), maintains one counter per nesting level, and splices
//! a formatted number immediately after each heading that lies within the
//! numbered depth. Everything else passes through untouched.

pub mod counters;
pub mod events;
pub mod engine;
pub mod format;
pub mod laws;
pub mod markdown;
