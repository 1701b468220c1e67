//! A task list kept as single lines of text.
//!
//! Each task is one line in a backing store: a status token, an
//! emoji-tagged due date, an emoji-tagged creation date, an optional
//! completion or cancellation date, and free-form body text.  This
//! crate holds the verified core: the line codec (encoding a task as a
//! line and decoding its fields back) and the index resolver (mapping
//! user-facing display numbers of a filtered, possibly reversed view
//! back to absolute line positions for safe in-place mutation).
//!
//! File reading and writing, path resolution and the command-line
//! surface live outside this crate; they hand whole lines in and take
//! whole lines back.

pub mod date;
pub mod text;
pub mod codec;
pub mod resolver;
pub mod ops;
pub mod laws;
