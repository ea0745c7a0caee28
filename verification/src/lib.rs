//! Verified core of a heap analysis tool.
//!
//! A tracked program records each allocation and deallocation together with the stack frame that
//! made it ([`stacktrace`], [`writer`]). A gatherer merges the records of all threads into one
//! stream of protocol messages ([`types`], [`gather`]). The analysis matches allocations to
//! deallocations and reports totals and errors ([`dataflow`], [`output`], [`web`]).
#![allow(unused_imports)]

pub mod frames;
pub mod stacktrace;
pub mod types;
pub mod symbols;
pub mod buffer;
pub mod writer;
pub mod gather;
pub mod laws;
pub mod record_laws;
pub mod output;
pub mod dataflow;
pub mod analysis_laws;
pub mod run_laws;
pub mod report_laws;
pub mod trace;
pub mod heaptrack;
pub mod tracking;
pub mod web;
pub mod example;
