//! Core of a distributed job dispatcher: a pool of worker processes shares a
//! durable work table, and each dispatcher instance claims queued commands,
//! runs them as child processes up to a concurrency limit, classifies the
//! outcomes, and collects the results.
//!
//! This crate holds the verified engine: the model of the shared table with
//! its claim and bulk-transition operations, the status lifecycle, the command
//! parsing, the outcome classification, the concurrency governor, and the
//! result-collection bookkeeping. The surrounding process — the SQL store, the
//! child processes, the async plumbing — calls into these operations and obeys
//! their contracts.

use vstd::prelude::*;

pub mod command;
pub mod dburl;
pub mod dispatch;
pub mod governor;
pub mod job;
pub mod logger;
pub mod numfmt;
pub mod process;
mod shuffle;
pub mod status;
pub mod table;

verus! {

/// Exit code that an external timeout wrapper reports when it kills a command.
pub const TIMEOUT_RETURN_CODE: i32 = 124;

} // verus!
