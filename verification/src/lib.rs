//! A parallel recursive name search over a directory tree: entries whose
//! name equals a literal query, or satisfies a pattern anchored over the
//! whole name, are reported up to a configured count, down to a configured
//! depth.
//!
//! The pieces a search run is made of live here with their contracts: the
//! match specification, the work queue of pending nodes, the shared match
//! counter with its reservation step, the path formatter, and the traversal
//! engine itself, whose behaviour over an in-memory picture of the tree is
//! stated exactly.  Listing real directories, the worker threads and the
//! command line stand outside the library and drive these pieces.

pub mod config;
pub mod matcher;
pub mod queue;
pub mod counter;
pub mod printer;
pub mod tree;
pub mod engine;
