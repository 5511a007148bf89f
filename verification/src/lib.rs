//! Engine behind a source formatter that walks a file tree.
//!
//! The library decides; it reads no file and starts no thread. It selects
//! the files of a tree by glob patterns and depth ([`glob`], [`traverse`],
//! [`tree`], [`chain`]), hands them to workers and carries their messages
//! ([`bus`], [`schedule`]), formats a file and says whether it has to be
//! written back ([`format`], over the parser's events in [`syntax`]), keeps
//! the counters of a run and the exit status they lead to ([`state`]), and
//! words what is reported ([`report`], [`live`], [`text`], [`console`]).
//! [`run`] puts the parts together for a tree held in memory, and [`rerun`]
//! writes back what a run asked for.

pub mod bus;
pub mod chain;
pub mod console;
pub mod format;
pub mod glob;
pub mod live;
pub mod report;
pub mod rerun;
pub mod run;
pub mod schedule;
pub mod state;
pub mod syntax;
pub mod text;
pub mod traverse;
pub mod tree;
