//! Core of an embedded, single-file relational database engine: a
//! register-based bytecode virtual machine that drives cursor operations
//! over B-Tree structured storage, cooperating with a page cache so that
//! every operation that might block on disk I/O can yield to the caller
//! without unwinding program state.
//!
//! The caller repeatedly invokes [`vdbe::Program::step`]. Each call
//! dispatches instructions until a result row is materialized, I/O is
//! pending (the caller loads the requested pages into the [`pager::Pager`]
//! and calls `step` again), or the program halts.

pub mod btree;
pub mod errors;
pub mod pager;
pub mod record;
pub mod types;
pub mod vdbe;
