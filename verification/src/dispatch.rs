//! The dispatch loop's decisions: when to stop, when to idle, how much to
//! claim, and the per-instance engine that ties the table, the concurrency
//! governor and the active-job registry together.
//!
//! The loop itself — sleeping out the poll interval, spawning child
//! processes, awaiting their exit — is outside work. The engine here makes
//! every decision and records every state change, and holds for every exit
//! code the outside work can hand back.

use vstd::prelude::*;

use crate::governor::ConcurrencyGovernor;
use crate::job::Job;
use crate::logger::ActiveJobRegistry;
use crate::process::{classify_exit, classify_exit_spec};
use crate::status::ExperimentStatus;
use crate::table::{
    claim_step, claimed_ids, count_with_status, has_claimable_row, has_id_with_status,
    lemma_count_positive, lemma_count_single_change, min_nat, set_step, JobTable,
};

verus! {

/// What one poll cycle decides to do.
#[derive(Copy, Clone, PartialEq, Eq, Structural, Debug)]
pub enum CycleAction {
    /// No work is available and the loop is not in keep-running mode: drain
    /// and shut down.
    Stop,
    /// The loop goes on, but no capacity is free: just sleep this cycle.
    Idle,
    /// Claim up to this many jobs, then sleep.
    Claim(usize),
}

/// The decision of one poll cycle: stop once nothing is available (unless
/// the keep-running flag forces the loop to wait for new work), skip the
/// claim when no capacity is free, and otherwise claim up to the free
/// capacity `limit - running`.
pub open spec fn plan_cycle_spec(
    available: usize,
    running: usize,
    limit: usize,
    keep_running: bool,
) -> CycleAction {
    if available == 0 && !keep_running {
        CycleAction::Stop
    } else if running >= limit {
        CycleAction::Idle
    } else {
        CycleAction::Claim((limit - running) as usize)
    }
}

/// Decides one poll cycle from the availability the store reported and the
/// governor's reading. A stale reading only shifts the claim size by a
/// transient margin; it never makes the decision wrong for the values read.
pub fn plan_cycle(available: usize, running: usize, limit: usize, keep_running: bool) -> (a:
    CycleAction)
    ensures
        a == plan_cycle_spec(available, running, limit, keep_running),
{
    if available == 0 && !keep_running {
        CycleAction::Stop
    } else if running >= limit {
        CycleAction::Idle
    } else {
        CycleAction::Claim(limit - running)
    }
}

/// One dispatcher instance: the shared table it works, its concurrency
/// governor, and its registry of in-flight jobs.
#[derive(Debug)]
pub struct Dispatcher {
    pub table: JobTable,
    pub governor: ConcurrencyGovernor,
    pub registry: ActiveJobRegistry,
    pub shuffle: bool,
}

impl Dispatcher {
    /// The engine invariant: the governor counts exactly the `Running` rows
    /// (and stays within its limit), every running job is registered in
    /// flight, and nothing registered is available for claiming again.
    pub open spec fn inv(self) -> bool {
        &&& self.table.wf()
        &&& self.governor.wf()
        &&& self.registry.wf()
        &&& self.governor.count as nat == count_with_status(
            self.table.rows@,
            ExperimentStatus::Running,
        )
        &&& forall|x: usize|
            has_id_with_status(self.table.rows@, ExperimentStatus::Running, x)
                ==> #[trigger] self.registry.contains_id_spec(x)
        &&& forall|x: usize| #[trigger]
            self.registry.contains_id_spec(x) ==> !has_id_with_status(
                self.table.rows@,
                ExperimentStatus::NotRunning,
                x,
            )
    }

    /// A fresh dispatcher instance over a table with nothing running.
    pub fn new(table: JobTable, concurrency_limit: usize, shuffle: bool) -> (d: Dispatcher)
        requires
            table.wf(),
            count_with_status(table.rows@, ExperimentStatus::Running) == 0,
        ensures
            d.inv(),
            d.table == table,
            d.governor.count == 0,
            d.governor.limit == concurrency_limit,
            d.registry.jobs@.len() == 0,
            d.shuffle == shuffle,
    {
        proof {
            assert forall|x: usize|
                !has_id_with_status(table.rows@, ExperimentStatus::Running, x) by {
                if has_id_with_status(table.rows@, ExperimentStatus::Running, x) {
                    lemma_count_positive(table.rows@, ExperimentStatus::Running, x);
                }
            }
        }
        Dispatcher {
            table,
            governor: ConcurrencyGovernor::new(concurrency_limit),
            registry: ActiveJobRegistry::new(),
            shuffle,
        }
    }

    /// One claiming cycle: claims up to the free capacity, counts every
    /// claimed job as running, and registers it as in flight. The caller
    /// spawns one process per returned job.
    pub fn claim_and_launch(&mut self) -> (jobs: Vec<Job>)
        requires
            old(self).inv(),
        ensures
            final(self).inv(),
            claim_step(old(self).table.rows@, final(self).table.rows@, jobs@),
            jobs@.len() == min_nat(
                (old(self).governor.limit - old(self).governor.count) as nat,
                count_with_status(old(self).table.rows@, ExperimentStatus::NotRunning),
            ),
            final(self).registry.jobs@ == old(self).registry.jobs@ + jobs@,
            final(self).governor.count == old(self).governor.count + jobs@.len(),
            final(self).governor.limit == old(self).governor.limit,
            final(self).table.next_id == old(self).table.next_id,
            final(self).shuffle == old(self).shuffle,
    {
        let capacity = self.governor.free_capacity();
        let ghost rows0 = self.table.rows@;
        let jobs = self.table.claim_available(capacity, self.shuffle);
        let ghost table1 = self.table;
        // Count every claimed job as running.
        let mut k: usize = 0;
        while k < jobs.len()
            invariant
                k <= jobs@.len(),
                jobs@.len() <= old(self).governor.limit - old(self).governor.count,
                self.governor.limit == old(self).governor.limit,
                self.governor.count == old(self).governor.count + k,
                self.table == table1,
                self.registry == old(self).registry,
                self.shuffle == old(self).shuffle,
            decreases jobs@.len() - k,
        {
            self.governor.increment();
            k = k + 1;
        }
        // Register every claimed job as in flight.
        let ghost gov1 = self.governor;
        let ghost reg0 = self.registry.jobs@;
        let mut m: usize = 0;
        while m < jobs.len()
            invariant
                m <= jobs@.len(),
                old(self).inv(),
                claim_step(rows0, self.table.rows@, jobs@),
                rows0 == old(self).table.rows@,
                reg0 == old(self).registry.jobs@,
                self.registry.wf(),
                self.registry.jobs@ == reg0 + jobs@.take(m as int),
                self.table == table1,
                self.governor == gov1,
                self.shuffle == old(self).shuffle,
            decreases jobs@.len() - m,
        {
            proof {
                // The claimed job was available, so it is in no registry.
                assert(has_claimable_row(rows0, jobs@[m as int]));
                let w = choose|w: int|
                    0 <= w < rows0.len() && (#[trigger] rows0[w]).id == jobs@[m as int].id
                        && rows0[w].command@ == jobs@[m as int].command@ && rows0[w].status
                        == ExperimentStatus::NotRunning;
                assert(has_id_with_status(rows0, ExperimentStatus::NotRunning, jobs@[m as int].id));
                assert(!old(self).registry.contains_id_spec(jobs@[m as int].id));
                // Nor was it claimed twice in this very cycle.
                assert(!self.registry.contains_id_spec(jobs@[m as int].id)) by {
                    let ids = self.registry.ids();
                    if ids.contains(jobs@[m as int].id) {
                        let p = choose|p: int| 0 <= p < ids.len() && ids[p] == jobs@[m as int].id;
                        assert(self.registry.jobs@[p].id == jobs@[m as int].id);
                        if p < reg0.len() {
                            assert(old(self).registry.ids()[p] == jobs@[m as int].id);
                        } else {
                            assert(claimed_ids(jobs@)[p - reg0.len()] == jobs@[m as int].id);
                            assert(claimed_ids(jobs@)[m as int] == jobs@[m as int].id);
                        }
                    }
                }
            }
            let job = jobs[m].clone();
            self.registry.add_to_active_jobs(job);
            proof {
                assert(self.registry.jobs@ =~= reg0 + jobs@.take(m + 1));
            }
            m = m + 1;
        }
        proof {
            assert(self.registry.jobs@ =~= reg0 + jobs@);
            // Every part of the invariant survives the cycle.
            assert forall|x: usize|
                has_id_with_status(self.table.rows@, ExperimentStatus::Running, x) implies #[trigger] self.registry.contains_id_spec(
                x,
            ) by {
                let w = choose|w: int|
                    0 <= w < self.table.rows@.len() && (#[trigger] self.table.rows@[w]).id == x
                        && self.table.rows@[w].status == ExperimentStatus::Running;
                if claimed_ids(jobs@).contains(rows0[w].id) {
                    // Claimed in this cycle: registered just now.
                    let q = choose|q: int|
                        0 <= q < claimed_ids(jobs@).len() && claimed_ids(jobs@)[q] == rows0[w].id;
                    assert(self.registry.jobs@[reg0.len() + q].id == x);
                    assert(self.registry.ids()[reg0.len() + q] == x);
                } else {
                    // Already running before: registered before.
                    assert(has_id_with_status(rows0, ExperimentStatus::Running, x));
                    assert(old(self).registry.contains_id_spec(x));
                    let p = choose|p: int|
                        0 <= p < reg0.len() && old(self).registry.ids()[p] == x;
                    assert(self.registry.jobs@[p].id == x);
                    assert(self.registry.ids()[p] == x);
                }
            }
            assert forall|x: usize| #[trigger]
                self.registry.contains_id_spec(x) implies !has_id_with_status(
                self.table.rows@,
                ExperimentStatus::NotRunning,
                x,
            ) by {
                if has_id_with_status(self.table.rows@, ExperimentStatus::NotRunning, x) {
                    let w = choose|w: int|
                        0 <= w < self.table.rows@.len() && (#[trigger] self.table.rows@[w]).id == x
                            && self.table.rows@[w].status == ExperimentStatus::NotRunning;
                    // A row still available was not claimed and was already
                    // available before the cycle.
                    assert(!claimed_ids(jobs@).contains(rows0[w].id));
                    assert(rows0[w].status == ExperimentStatus::NotRunning);
                    assert(has_id_with_status(rows0, ExperimentStatus::NotRunning, x));
                    // So the id was in no registry before the cycle, and this
                    // cycle only registered claimed — previously available —
                    // jobs, none of which carries the id of a row that is
                    // still available.
                    let p = choose|p: int|
                        0 <= p < self.registry.ids().len() && self.registry.ids()[p] == x;
                    assert(self.registry.jobs@[p].id == x);
                    if p < reg0.len() {
                        assert(old(self).registry.ids()[p] == x);
                        assert(old(self).registry.contains_id_spec(x));
                    } else {
                        let q = p - reg0.len();
                        assert(jobs@[q].id == x);
                        assert(claimed_ids(jobs@)[q] == x);
                        assert(claimed_ids(jobs@).contains(x));
                        assert(self.table.rows@[w].status == ExperimentStatus::Running);
                    }
                }
            }
        }
        jobs
    }

    /// Records one finished job: classifies the exit code, writes the
    /// terminal status — this comes first, so the job can never stay
    /// `Running` even if collecting its output later fails — and frees the
    /// job's capacity. The job stays registered until its result is
    /// collected.
    pub fn complete_job(&mut self, job_id: usize, exit_code: Option<i32>) -> (st: ExperimentStatus)
        requires
            old(self).inv(),
            has_id_with_status(old(self).table.rows@, ExperimentStatus::Running, job_id),
        ensures
            final(self).inv(),
            st == classify_exit_spec(exit_code),
            crate::status::is_terminal_spec(st),
            set_step(old(self).table.rows@, final(self).table.rows@, seq![job_id], st),
            final(self).governor.count == old(self).governor.count - 1,
            final(self).governor.limit == old(self).governor.limit,
            final(self).registry.jobs@ == old(self).registry.jobs@,
            final(self).table.next_id == old(self).table.next_id,
            final(self).shuffle == old(self).shuffle,
    {
        let st = classify_exit(exit_code);
        let mut ids: Vec<usize> = Vec::new();
        ids.push(job_id);
        let ghost rows0 = self.table.rows@;
        proof {
            lemma_count_positive(rows0, ExperimentStatus::Running, job_id);
        }
        self.table.change_status_given_ids(ids, st);
        self.governor.decrement();
        proof {
            let w = choose|w: int|
                0 <= w < rows0.len() && (#[trigger] rows0[w]).id == job_id && rows0[w].status
                    == ExperimentStatus::Running;
            assert(seq![job_id][0] == job_id);
            assert(seq![job_id].contains(job_id));
            assert forall|j: int|
                0 <= j < rows0.len() && j != w implies (#[trigger] self.table.rows@[j]).status
                == rows0[j].status by {
                if seq![job_id].contains(rows0[j].id) {
                    assert(rows0[j].id == job_id);
                    assert(false);
                }
            }
            assert(self.table.rows@[w].status == st);
            lemma_count_single_change(rows0, self.table.rows@, w, ExperimentStatus::Running);
            lemma_count_single_change(rows0, self.table.rows@, w, ExperimentStatus::NotRunning);
            // A job that is no longer running is still registered, and
            // nothing newly claimable appeared.
            assert forall|x: usize|
                has_id_with_status(self.table.rows@, ExperimentStatus::Running, x) implies #[trigger] self.registry.contains_id_spec(
                x,
            ) by {
                let v = choose|v: int|
                    0 <= v < self.table.rows@.len() && (#[trigger] self.table.rows@[v]).id == x
                        && self.table.rows@[v].status == ExperimentStatus::Running;
                assert(rows0[v].id == x && rows0[v].status == ExperimentStatus::Running);
                assert(has_id_with_status(rows0, ExperimentStatus::Running, x));
            }
            assert forall|x: usize| #[trigger]
                self.registry.contains_id_spec(x) implies !has_id_with_status(
                self.table.rows@,
                ExperimentStatus::NotRunning,
                x,
            ) by {
                if has_id_with_status(self.table.rows@, ExperimentStatus::NotRunning, x) {
                    let v = choose|v: int|
                        0 <= v < self.table.rows@.len() && (#[trigger] self.table.rows@[v]).id == x
                            && self.table.rows@[v].status == ExperimentStatus::NotRunning;
                    assert(rows0[v].status == ExperimentStatus::NotRunning);
                    assert(has_id_with_status(rows0, ExperimentStatus::NotRunning, x));
                }
            }
        }
        st
    }

    /// Collects one delivered result: the job leaves the registry and is
    /// from then on fully finished. Its terminal status was written before
    /// the result was delivered, so the row is no longer `Running`.
    pub fn collect_result(&mut self, job_id: usize) -> (r: Option<Job>)
        requires
            old(self).inv(),
            !has_id_with_status(old(self).table.rows@, ExperimentStatus::Running, job_id),
        ensures
            final(self).inv(),
            final(self).table == old(self).table,
            final(self).governor == old(self).governor,
            final(self).shuffle == old(self).shuffle,
            match r {
                Some(job) => {
                    &&& job.id == job_id
                    &&& old(self).registry.contains_id_spec(job_id)
                    &&& final(self).registry.jobs@.len() == old(self).registry.jobs@.len() - 1
                },
                None => {
                    &&& !old(self).registry.contains_id_spec(job_id)
                    &&& final(self).registry.jobs@ == old(self).registry.jobs@
                },
            },
    {
        let r = self.registry.remove_job(job_id);
        proof {
            if r is Some {
                let idx = choose|idx: int|
                    0 <= idx < old(self).registry.jobs@.len() && (#[trigger] old(
                        self,
                    ).registry.jobs@[idx]).id == job_id && self.registry.jobs@ == old(
                        self,
                    ).registry.jobs@.remove(idx);
                assert forall|x: usize| #[trigger]
                    self.registry.contains_id_spec(x) implies old(self).registry.contains_id_spec(
                    x,
                ) by {
                    let p = choose|p: int|
                        0 <= p < self.registry.ids().len() && self.registry.ids()[p] == x;
                    assert(self.registry.jobs@[p].id == x);
                    let p0 = if p < idx {
                        p
                    } else {
                        p + 1
                    };
                    assert(old(self).registry.jobs@[p0].id == x);
                    assert(old(self).registry.ids()[p0] == x);
                }
                assert forall|x: usize|
                    has_id_with_status(
                        self.table.rows@,
                        ExperimentStatus::Running,
                        x,
                    ) implies #[trigger] self.registry.contains_id_spec(x) by {
                    assert(old(self).registry.contains_id_spec(x));
                    let p0 = choose|p0: int|
                        0 <= p0 < old(self).registry.ids().len() && old(self).registry.ids()[p0]
                            == x;
                    assert(old(self).registry.jobs@[p0].id == x);
                    // The removed job is not running, so it is not this one.
                    assert(x != job_id);
                    assert(p0 != idx);
                    let p = if p0 < idx {
                        p0
                    } else {
                        p0 - 1
                    };
                    assert(self.registry.jobs@[p].id == x);
                    assert(self.registry.ids()[p] == x);
                }
            } else {
                assert(self.registry.ids() == old(self).registry.ids());
                assert forall|x: usize|
                    has_id_with_status(
                        self.table.rows@,
                        ExperimentStatus::Running,
                        x,
                    ) implies #[trigger] self.registry.contains_id_spec(x) by {
                    assert(old(self).registry.contains_id_spec(x));
                }
                assert forall|x: usize| #[trigger]
                    self.registry.contains_id_spec(x) implies !has_id_with_status(
                    self.table.rows@,
                    ExperimentStatus::NotRunning,
                    x,
                ) by {
                    assert(old(self).registry.contains_id_spec(x));
                }
            }
        }
        r
    }

    /// Drains the registry for shutdown, once every claimed job has been
    /// completed: with nothing running, nothing may stay in flight. The
    /// caller joins each returned job's handle before exiting.
    pub fn wait_all_to_finish(&mut self) -> (jobs: Vec<Job>)
        requires
            old(self).inv(),
            old(self).governor.count == 0,
        ensures
            final(self).inv(),
            final(self).registry.jobs@.len() == 0,
            jobs@ == old(self).registry.jobs@,
            final(self).table == old(self).table,
            final(self).governor == old(self).governor,
            final(self).shuffle == old(self).shuffle,
    {
        let jobs = self.registry.wait_all_to_finish();
        proof {
            assert forall|x: usize|
                !has_id_with_status(self.table.rows@, ExperimentStatus::Running, x) by {
                if has_id_with_status(self.table.rows@, ExperimentStatus::Running, x) {
                    lemma_count_positive(self.table.rows@, ExperimentStatus::Running, x);
                }
            }
        }
        jobs
    }
}

/// The number of `Running` jobs the governor tracks never exceeds the
/// configured concurrency limit, and neither does the number of `Running`
/// rows the engine has produced.
pub proof fn lemma_running_within_limit(d: Dispatcher)
    requires
        d.inv(),
    ensures
        d.governor.count <= d.governor.limit,
        count_with_status(d.table.rows@, ExperimentStatus::Running) <= d.governor.limit,
{
}

} // verus!
