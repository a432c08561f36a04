//! Result-collection bookkeeping: the registry of in-flight jobs, and the
//! naming of the per-job log files the collector writes.

use vstd::prelude::*;
use vstd::string::StringExecFns;

use crate::job::Job;
use crate::numfmt::{dec_rep, format_usize};

verus! {

/// The registry of in-flight jobs: a job is present from the moment it is
/// dispatched until its result has been persisted and its handle joined, and
/// removal is the only way a job is considered fully finished.
#[derive(Debug)]
pub struct ActiveJobRegistry {
    pub jobs: Vec<Job>,
}

impl ActiveJobRegistry {
    /// The registered ids, in registration order.
    pub open spec fn ids(self) -> Seq<usize> {
        self.jobs@.map_values(|j: Job| j.id)
    }

    /// The registry's invariant: no job is registered twice.
    pub open spec fn wf(self) -> bool {
        self.ids().no_duplicates()
    }

    /// Whether the job with this id is still in flight.
    pub open spec fn contains_id_spec(self, id: usize) -> bool {
        self.ids().contains(id)
    }

    /// A fresh registry with nothing in flight.
    pub fn new() -> (r: ActiveJobRegistry)
        ensures
            r.wf(),
            r.jobs@.len() == 0,
    {
        ActiveJobRegistry { jobs: Vec::new() }
    }

    /// How many jobs are in flight.
    pub fn len(&self) -> (n: usize)
        ensures
            n == self.jobs@.len(),
    {
        self.jobs.len()
    }

    /// Whether the job with this id is still in flight.
    pub fn contains_id(&self, id: usize) -> (r: bool)
        ensures
            r == self.contains_id_spec(id),
    {
        let mut i: usize = 0;
        while i < self.jobs.len()
            invariant
                i <= self.jobs@.len(),
                forall|j: int| 0 <= j < i ==> (#[trigger] self.jobs@[j]).id != id,
            decreases self.jobs@.len() - i,
        {
            if self.jobs[i].id == id {
                proof {
                    assert(self.ids()[i as int] == id);
                }
                return true;
            }
            i = i + 1;
        }
        proof {
            if self.ids().contains(id) {
                let j = choose|j: int| 0 <= j < self.ids().len() && self.ids()[j] == id;
                assert(self.jobs@[j].id == id);
            }
        }
        false
    }

    /// Registers a newly dispatched job.
    pub fn add_to_active_jobs(&mut self, job: Job)
        requires
            old(self).wf(),
            !old(self).contains_id_spec(job.id),
        ensures
            final(self).wf(),
            final(self).jobs@ == old(self).jobs@.push(job),
    {
        proof {
            let new_ids = old(self).jobs@.push(job).map_values(|j: Job| j.id);
            assert(new_ids =~= old(self).ids().push(job.id));
            assert forall|a: int, b: int|
                0 <= a < b < new_ids.len() implies new_ids[a] != new_ids[b] by {
                if b < new_ids.len() - 1 {
                    assert(old(self).ids()[a] != old(self).ids()[b]);
                } else {
                    if new_ids[a] == job.id {
                        assert(old(self).ids().contains(job.id)) by {
                            assert(old(self).ids()[a] == new_ids[a]);
                        }
                    }
                }
            }
        }
        self.jobs.push(job);
    }

    /// Removes the job registered under `id`, if any: that job is then fully
    /// finished.
    pub fn remove_job(&mut self, id: usize) -> (r: Option<Job>)
        requires
            old(self).wf(),
        ensures
            final(self).wf(),
            match r {
                Some(job) => {
                    &&& job.id == id
                    &&& old(self).contains_id_spec(id)
                    &&& exists|idx: int|
                        0 <= idx < old(self).jobs@.len() && (#[trigger] old(
                            self,
                        ).jobs@[idx]).id == id && final(self).jobs@ == old(self).jobs@.remove(idx)
                },
                None => {
                    &&& !old(self).contains_id_spec(id)
                    &&& final(self).jobs@ == old(self).jobs@
                },
            },
    {
        let mut i: usize = 0;
        while i < self.jobs.len()
            invariant
                i <= self.jobs@.len(),
                old(self).wf(),
                self.jobs@ == old(self).jobs@,
                forall|j: int| 0 <= j < i ==> (#[trigger] self.jobs@[j]).id != id,
            decreases self.jobs@.len() - i,
        {
            if self.jobs[i].id == id {
                let job = self.jobs.remove(i);
                proof {
                    assert(old(self).ids()[i as int] == id);
                    let new_ids = self.jobs@.map_values(|j: Job| j.id);
                    assert(new_ids =~= old(self).ids().remove(i as int));
                    assert forall|a: int, b: int|
                        0 <= a < b < new_ids.len() implies new_ids[a] != new_ids[b] by {
                        let a0 = if a < i {
                            a
                        } else {
                            a + 1
                        };
                        let b0 = if b < i {
                            b
                        } else {
                            b + 1
                        };
                        assert(new_ids[a] == old(self).ids()[a0]);
                        assert(new_ids[b] == old(self).ids()[b0]);
                        assert(old(self).ids()[a0] != old(self).ids()[b0]);
                    }
                }
                return Some(job);
            }
            i = i + 1;
        }
        proof {
            if self.ids().contains(id) {
                let j = choose|j: int| 0 <= j < self.ids().len() && self.ids()[j] == id;
                assert(self.jobs@[j].id == id);
            }
        }
        None
    }

    /// Hands out every job still in flight and empties the registry: the
    /// shutdown drain, after which each handed-out job is joined.
    pub fn wait_all_to_finish(&mut self) -> (jobs: Vec<Job>)
        ensures
            final(self).wf(),
            final(self).jobs@.len() == 0,
            jobs@ == old(self).jobs@,
    {
        let mut jobs: Vec<Job> = Vec::new();
        core::mem::swap(&mut jobs, &mut self.jobs);
        jobs
    }
}

/// The log file that captures a job's stdout: `<folder>/<id>.out`.
pub open spec fn stdout_log_path_spec(folder: Seq<char>, id: nat) -> Seq<char> {
    folder + "/"@ + dec_rep(id) + ".out"@
}

/// The log file that captures a job's stderr: `<folder>/<id>.err`.
pub open spec fn stderr_log_path_spec(folder: Seq<char>, id: nat) -> Seq<char> {
    folder + "/"@ + dec_rep(id) + ".err"@
}

/// Builds the path of the file a job's captured stdout is persisted to.
pub fn stdout_log_path(folder: &str, id: usize) -> (p: String)
    ensures
        p@ == stdout_log_path_spec(folder@, id as nat),
{
    let mut p = folder.to_owned();
    p.append("/");
    let digits = format_usize(id);
    p.append(digits.as_str());
    p.append(".out");
    p
}

/// Builds the path of the file a job's captured stderr is persisted to.
pub fn stderr_log_path(folder: &str, id: usize) -> (p: String)
    ensures
        p@ == stderr_log_path_spec(folder@, id as nat),
{
    let mut p = folder.to_owned();
    p.append("/");
    let digits = format_usize(id);
    p.append(digits.as_str());
    p.append(".err");
    p
}

} // verus!
