//! The compute side of the process runner: splitting a command for the
//! spawn, classifying a finished process's exit status, and recording a job
//! that never produced one.

use vstd::prelude::*;

use crate::command::{split_whitespace_owned, split_ws};
use crate::job::{Job, ProcessResult};
use crate::status::ExperimentStatus;
use crate::TIMEOUT_RETURN_CODE;

verus! {

/// The program and arguments a command line is spawned with.
#[derive(Debug)]
pub struct CommandParts {
    pub program: String,
    pub args: Vec<String>,
}

/// Reasons the runner itself can fail a job without a process outcome.
#[derive(Copy, Clone, PartialEq, Eq, Structural, Debug)]
pub enum ProcessError {
    StartProcess,
    GetReturnCode,
    FetchOutput,
}

/// The diagnostic text each runner error is reported with.
pub open spec fn process_error_message(e: ProcessError) -> Seq<char> {
    match e {
        ProcessError::StartProcess => "Cannot start subprocess because of command is invalid"@,
        ProcessError::GetReturnCode => "Cannot get return code of subprocess"@,
        ProcessError::FetchOutput => "Cannot get stdout/stderr of the process"@,
    }
}

impl ProcessError {
    /// The diagnostic text of this error.
    pub fn message(self) -> (r: &'static str)
        ensures
            r@ == process_error_message(self),
    {
        match self {
            ProcessError::StartProcess => "Cannot start subprocess because of command is invalid",
            ProcessError::GetReturnCode => "Cannot get return code of subprocess",
            ProcessError::FetchOutput => "Cannot get stdout/stderr of the process",
        }
    }
}

/// The status a finished process's exit code is classified into: zero is
/// success, the reserved timeout sentinel marks an externally enforced
/// timeout, and anything else — including a process that ended without a
/// code — is a failure.
pub open spec fn classify_exit_spec(code: Option<i32>) -> ExperimentStatus {
    match code {
        Some(c) => if c == 0 {
            ExperimentStatus::SuccessFinished
        } else if c == TIMEOUT_RETURN_CODE {
            ExperimentStatus::TimedOut
        } else {
            ExperimentStatus::FailedFinished
        },
        None => ExperimentStatus::FailedFinished,
    }
}

/// Classifies a finished process's exit code into the job's terminal status.
pub fn classify_exit(code: Option<i32>) -> (st: ExperimentStatus)
    ensures
        st == classify_exit_spec(code),
        crate::status::is_terminal_spec(st),
{
    match code {
        Some(c) => if c == 0 {
            ExperimentStatus::SuccessFinished
        } else if c == TIMEOUT_RETURN_CODE {
            ExperimentStatus::TimedOut
        } else {
            ExperimentStatus::FailedFinished
        },
        None => ExperimentStatus::FailedFinished,
    }
}

/// Splits a command into the program to spawn and its arguments. A command
/// that is empty or all whitespace has no program: it is refused here and
/// never reaches the spawn step.
pub fn prepare_command(command: &str) -> (r: Result<CommandParts, ProcessError>)
    ensures
        match r {
            Ok(parts) => {
                &&& split_ws(command@).len() > 0
                &&& parts.program@ == split_ws(command@)[0]
                &&& parts.args@.map_values(|t: String| t@) == split_ws(command@).skip(1)
            },
            Err(e) => {
                &&& split_ws(command@).len() == 0
                &&& forall|i: int| 0 <= i < command@.len() ==> crate::command::is_ascii_ws(#[trigger] command@[i])
                &&& e == ProcessError::StartProcess
            },
        },
{
    let mut tokens = split_whitespace_owned(command);
    if tokens.len() == 0 {
        proof {
            crate::command::lemma_split_ws_empty_iff_blank(command@);
        }
        Err(ProcessError::StartProcess)
    } else {
        let program = tokens.remove(0);
        proof {
            assert(program@ == split_ws(command@)[0]);
            assert(tokens@.map_values(|t: String| t@) =~= split_ws(command@).skip(1));
        }
        Ok(CommandParts { program, args: tokens })
    }
}

/// The result recorded for a job that produced no usable process outcome:
/// the sentinel exit code and the failure's diagnostic text as stderr, so
/// the job ends as a recorded failure instead of hanging `Running`.
pub fn failure_result(job: Job, error: ProcessError) -> (r: ProcessResult)
    ensures
        r.job.id == job.id,
        r.job.command@ == job.command@,
        r.code == -1,
        r.stdout@.len() == 0,
        r.stderr@ == process_error_message(error),
{
    let stderr = error.message().to_owned();
    ProcessResult { job, code: -1, stdout: String::new(), stderr }
}

} // verus!
