//! Lifecycle status of a job row and the legal transitions between statuses.

use vstd::prelude::*;

verus! {

/// Status of one job row in the shared work table, stored in the table as a
/// small integer code in `0..5`.
#[derive(Copy, Clone, PartialEq, Eq, Structural, Debug)]
pub enum ExperimentStatus {
    NotRunning,
    Running,
    SuccessFinished,
    FailedFinished,
    TimedOut,
}

/// The integer code under which a status is stored in the table.
pub open spec fn status_code_spec(s: ExperimentStatus) -> nat {
    match s {
        ExperimentStatus::NotRunning => 0,
        ExperimentStatus::Running => 1,
        ExperimentStatus::SuccessFinished => 2,
        ExperimentStatus::FailedFinished => 3,
        ExperimentStatus::TimedOut => 4,
    }
}

/// The status a table code in `0..5` stands for.
pub open spec fn code_to_status_spec(code: nat) -> ExperimentStatus {
    if code == 0 {
        ExperimentStatus::NotRunning
    } else if code == 1 {
        ExperimentStatus::Running
    } else if code == 2 {
        ExperimentStatus::SuccessFinished
    } else if code == 3 {
        ExperimentStatus::FailedFinished
    } else {
        ExperimentStatus::TimedOut
    }
}

/// A terminal status: once reached, only an explicit reset moves the job again.
pub open spec fn is_terminal_spec(s: ExperimentStatus) -> bool {
    s == ExperimentStatus::SuccessFinished || s == ExperimentStatus::FailedFinished || s
        == ExperimentStatus::TimedOut
}

/// The legal status transitions: a claim takes an available job to `Running`,
/// execution takes a running job to a terminal status, and an explicit reset
/// takes any status back to `NotRunning`.
pub open spec fn transition_ok(from: ExperimentStatus, to: ExperimentStatus) -> bool {
    ||| (from == ExperimentStatus::NotRunning && to == ExperimentStatus::Running)
    ||| (from == ExperimentStatus::Running && is_terminal_spec(to))
    ||| to == ExperimentStatus::NotRunning
}

/// The name under which a status is reported to a human reader.
pub open spec fn status_name_spec(s: ExperimentStatus) -> Seq<char> {
    match s {
        ExperimentStatus::NotRunning => "Available"@,
        ExperimentStatus::Running => "Running"@,
        ExperimentStatus::SuccessFinished => "Success"@,
        ExperimentStatus::FailedFinished => "Failure"@,
        ExperimentStatus::TimedOut => "Timeout"@,
    }
}

/// Number of occurrences of `code` in `codes`.
pub open spec fn count_code(codes: Seq<usize>, code: usize) -> nat
    decreases codes.len(),
{
    if codes.len() == 0 {
        0
    } else {
        count_code(codes.drop_last(), code) + if codes.last() == code {
            1nat
        } else {
            0nat
        }
    }
}

/// Counts the status codes read back from the table, per status: entry `c`
/// counts the rows stored under code `c`. The table's range constraint keeps
/// every code below 5.
pub fn histogram_of_codes(codes: &Vec<usize>) -> (h: Vec<usize>)
    requires
        forall|i: int| 0 <= i < codes@.len() ==> #[trigger] codes@[i] < 5,
    ensures
        h@.len() == 5,
        forall|c: int| 0 <= c < 5 ==> #[trigger] h@[c] as nat == count_code(codes@, c as usize),
{
    let mut h: Vec<usize> = Vec::new();
    h.push(0);
    h.push(0);
    h.push(0);
    h.push(0);
    h.push(0);
    let mut i: usize = 0;
    while i < codes.len()
        invariant
            i <= codes@.len(),
            h@.len() == 5,
            forall|j: int| 0 <= j < codes@.len() ==> #[trigger] codes@[j] < 5,
            forall|c: int|
                0 <= c < 5 ==> #[trigger] h@[c] as nat == count_code(
                    codes@.take(i as int),
                    c as usize,
                ),
            forall|c: int| 0 <= c < 5 ==> #[trigger] h@[c] <= i,
        decreases codes@.len() - i,
    {
        proof {
            assert(codes@.take(i + 1).drop_last() =~= codes@.take(i as int));
            assert(codes@.take(i + 1).last() == codes@[i as int]);
        }
        let code = codes[i];
        let bumped = h[code] + 1;
        h[code] = bumped;
        i = i + 1;
    }
    proof {
        assert(codes@.take(codes@.len() as int) =~= codes@);
    }
    h
}

/// The five per-code counts always sum exactly to the number of codes
/// counted: every code below 5 falls in exactly one bucket.
pub proof fn lemma_code_histogram_sum(codes: Seq<usize>)
    requires
        forall|i: int| 0 <= i < codes.len() ==> #[trigger] codes[i] < 5,
    ensures
        count_code(codes, 0) + count_code(codes, 1) + count_code(codes, 2) + count_code(codes, 3)
            + count_code(codes, 4) == codes.len(),
    decreases codes.len(),
{
    if codes.len() > 0 {
        assert(forall|i: int|
            0 <= i < codes.drop_last().len() ==> #[trigger] codes.drop_last()[i] < 5) by {
            assert(forall|i: int|
                0 <= i < codes.drop_last().len() ==> codes.drop_last()[i] == codes[i]);
        }
        lemma_code_histogram_sum(codes.drop_last());
        assert(codes.last() < 5) by {
            assert(codes[codes.len() - 1] < 5);
        }
    }
}

impl ExperimentStatus {
    /// Builds the status stored under a table code; codes outside `0..5`
    /// violate the table's range constraint and are refused by the caller.
    pub fn new(status_code: usize) -> (s: ExperimentStatus)
        requires
            status_code < 5,
        ensures
            s == code_to_status_spec(status_code as nat),
            status_code_spec(s) == status_code as nat,
    {
        if status_code == 0 {
            ExperimentStatus::NotRunning
        } else if status_code == 1 {
            ExperimentStatus::Running
        } else if status_code == 2 {
            ExperimentStatus::SuccessFinished
        } else if status_code == 3 {
            ExperimentStatus::FailedFinished
        } else {
            ExperimentStatus::TimedOut
        }
    }

    /// The integer code under which this status is stored in the table.
    pub fn to_db_code(self) -> (code: usize)
        ensures
            code as nat == status_code_spec(self),
            code < 5,
            code_to_status_spec(code as nat) == self,
    {
        match self {
            ExperimentStatus::NotRunning => 0,
            ExperimentStatus::Running => 1,
            ExperimentStatus::SuccessFinished => 2,
            ExperimentStatus::FailedFinished => 3,
            ExperimentStatus::TimedOut => 4,
        }
    }

    /// True of the terminal statuses.
    pub fn is_terminal(self) -> (r: bool)
        ensures
            r == is_terminal_spec(self),
    {
        match self {
            ExperimentStatus::NotRunning => false,
            ExperimentStatus::Running => false,
            ExperimentStatus::SuccessFinished => true,
            ExperimentStatus::FailedFinished => true,
            ExperimentStatus::TimedOut => true,
        }
    }

    /// The name under which this status is reported.
    pub fn status_name(self) -> (r: &'static str)
        ensures
            r@ == status_name_spec(self),
    {
        match self {
            ExperimentStatus::NotRunning => "Available",
            ExperimentStatus::Running => "Running",
            ExperimentStatus::SuccessFinished => "Success",
            ExperimentStatus::FailedFinished => "Failure",
            ExperimentStatus::TimedOut => "Timeout",
        }
    }
}

} // verus!
