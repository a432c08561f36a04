//! Work items and the result a finished child process is reported with.

use vstd::prelude::*;

verus! {

/// One work item of the shared table: a stable id and an immutable command
/// line. Status lives separately, in the table row.
#[derive(Debug)]
pub struct Job {
    pub id: usize,
    pub command: String,
}

impl Clone for Job {
    fn clone(&self) -> (res: Job)
        ensures
            res == *self,
    {
        Job { id: self.id, command: self.command.clone() }
    }
}

/// The outcome of executing one job's command: the exit code (`-1` when the
/// process never started) and the captured output streams.
#[derive(Debug)]
pub struct ProcessResult {
    pub job: Job,
    pub code: i32,
    pub stdout: String,
    pub stderr: String,
}

} // verus!
