//! A verified mutation engine for a Kanban-style task board: an ordered
//! sequence of columns, each holding an ordered sequence of tasks, with
//! tasks carrying comments and attachments. Every operation states exactly
//! what it changes and when it fails.
//!
//! Each operation is a single logical step on one owned [`Board`] value.
//! The process around the engine keeps that value behind one
//! exclusive-access lock and calls one operation at a time, so no caller
//! observes a partially mutated board; after a successful mutation it
//! persists the text that [`snapshot::encode_board`] renders, and at
//! startup it restores with [`snapshot::decode_board`], falling back to
//! [`Board::new`] when no usable snapshot exists.

pub mod board;
mod gen;
pub mod laws;
pub mod ops;
pub mod snapshot;

pub use board::Attachment;
pub use board::Board;
pub use board::BoardError;
pub use board::Column;
pub use board::Comment;
pub use board::Task;
