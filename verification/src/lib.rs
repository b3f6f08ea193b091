//! Core of a tabbed text editor: a persistent undo history tree, a
//! read-through file cache, and a capped directory-walk search.
//!
//! The editor view layer drives these components and performs all I/O
//! itself; every function here is plain computation over the values the
//! caller hands in, so the whole core is verified.

pub mod pool;
pub mod search;
pub mod text;
pub mod undo;
