//! An in-memory filesystem engine whose unseen paths are fetched on demand
//! from a remote HTTP origin.
//!
//! The engine is single-owner: every operation takes the filesystem by
//! reference, and the host layer serialises calls into it, holding its lock
//! for one call at a time (a fetch takes it once per response event, never
//! across a network wait). Entries live in an arena and refer to each other
//! by index, so a parent link is a lookup and never owns; removal from a
//! parent and the handle-count update happen in one disposal step.
pub mod metadata;
pub mod status;
pub mod entry;
pub mod path;
pub mod fs;
pub mod handle;
pub mod ops;
pub mod create;
pub mod lifecycle;
pub mod io;
pub mod admin;
pub mod rename;
pub mod listing;
pub mod dir_tree;
pub mod pool;
pub mod access;
