//! Model of the shared work table: one row per job, with atomic claim, bulk
//! status transition, and counting operations.
//!
//! A `JobTable` value stands for the durable table that all dispatcher
//! instances share. Exclusive access to the value (`&mut self` on the mutating
//! operations) plays the part of the table-level write lock: an operation owns
//! the whole table from its first read to its last write, so no two claimants
//! can interleave inside a claim.

use vstd::prelude::*;

use crate::command::command_lines;
use crate::job::Job;
use crate::status::{code_to_status_spec, ExperimentStatus};

verus! {

/// One row of the shared work table.
#[derive(Debug)]
pub struct JobRow {
    pub id: usize,
    pub command: String,
    pub status: ExperimentStatus,
}

/// Number of rows in `rows` whose status is `st`.
pub open spec fn count_with_status(rows: Seq<JobRow>, st: ExperimentStatus) -> nat
    decreases rows.len(),
{
    if rows.len() == 0 {
        0
    } else {
        count_with_status(rows.drop_last(), st) + if rows.last().status == st {
            1nat
        } else {
            0nat
        }
    }
}

/// Ids of the rows in `rows` whose status is `st`, in row order.
pub open spec fn ids_with_status(rows: Seq<JobRow>, st: ExperimentStatus) -> Seq<usize>
    decreases rows.len(),
{
    if rows.len() == 0 {
        Seq::empty()
    } else if rows.last().status == st {
        ids_with_status(rows.drop_last(), st).push(rows.last().id)
    } else {
        ids_with_status(rows.drop_last(), st)
    }
}

/// Ids of the rows that a claim may take: the `NotRunning` ones, in row order.
pub open spec fn avail_ids(rows: Seq<JobRow>) -> Seq<usize> {
    ids_with_status(rows, ExperimentStatus::NotRunning)
}

/// Ids and commands of `new_rows` are those of `old_rows`, row for row: a
/// status update never creates, drops, reorders or rewrites a job.
pub open spec fn rows_preserved(old_rows: Seq<JobRow>, new_rows: Seq<JobRow>) -> bool {
    &&& new_rows.len() == old_rows.len()
    &&& forall|i: int|
        0 <= i < old_rows.len() ==> (#[trigger] new_rows[i]).id == old_rows[i].id
            && new_rows[i].command@ == old_rows[i].command@
}

/// Effect of one bulk status update: every row whose id is listed in `ids`
/// now has status `st`, every other row is untouched.
pub open spec fn set_step(
    old_rows: Seq<JobRow>,
    new_rows: Seq<JobRow>,
    ids: Seq<usize>,
    st: ExperimentStatus,
) -> bool {
    &&& rows_preserved(old_rows, new_rows)
    &&& forall|i: int|
        0 <= i < old_rows.len() ==> (#[trigger] new_rows[i]).status == (if ids.contains(
            old_rows[i].id,
        ) {
            st
        } else {
            old_rows[i].status
        })
}

/// Effect of a reset keyed by status: every row that had status `st` is back
/// to `NotRunning`, every other row is untouched.
pub open spec fn reset_where_step(
    old_rows: Seq<JobRow>,
    new_rows: Seq<JobRow>,
    st: ExperimentStatus,
) -> bool {
    &&& rows_preserved(old_rows, new_rows)
    &&& forall|i: int|
        0 <= i < old_rows.len() ==> (#[trigger] new_rows[i]).status == (if old_rows[i].status
            == st {
            ExperimentStatus::NotRunning
        } else {
            old_rows[i].status
        })
}

/// Some row in `rows` carries id `x` with status `st`.
pub open spec fn has_id_with_status(rows: Seq<JobRow>, st: ExperimentStatus, x: usize) -> bool {
    exists|i: int| 0 <= i < rows.len() && (#[trigger] rows[i]).id == x && rows[i].status == st
}

/// An id is listed for status `st` exactly when some row carries that id with
/// that status.
pub proof fn lemma_ids_with_status_membership(rows: Seq<JobRow>, st: ExperimentStatus, x: usize)
    ensures
        ids_with_status(rows, st).contains(x) <==> has_id_with_status(rows, st, x),
    decreases rows.len(),
{
    if rows.len() > 0 {
        let tail = rows.drop_last();
        let lastr = rows.last();
        lemma_ids_with_status_membership(tail, st, x);
        let prefix = ids_with_status(tail, st);
        let whole = ids_with_status(rows, st);
        // Membership in the whole row sequence splits into tail or last row.
        assert(has_id_with_status(rows, st, x) <==> (has_id_with_status(tail, st, x) || (lastr.id
            == x && lastr.status == st))) by {
            if has_id_with_status(rows, st, x) {
                let i = choose|i: int|
                    0 <= i < rows.len() && (#[trigger] rows[i]).id == x && rows[i].status == st;
                if i < rows.len() - 1 {
                    assert(tail[i].id == x && tail[i].status == st);
                }
            }
            if has_id_with_status(tail, st, x) {
                let i = choose|i: int|
                    0 <= i < tail.len() && (#[trigger] tail[i]).id == x && tail[i].status == st;
                assert(rows[i].id == x && rows[i].status == st);
            }
        }
        if lastr.status == st {
            assert(whole == prefix.push(lastr.id));
            assert(whole.contains(x) <==> (prefix.contains(x) || lastr.id == x)) by {
                if prefix.contains(x) {
                    let k = choose|k: int| 0 <= k < prefix.len() && prefix[k] == x;
                    assert(whole[k] == x);
                }
                if lastr.id == x {
                    assert(whole[whole.len() - 1] == x);
                }
                if whole.contains(x) {
                    let k = choose|k: int| 0 <= k < whole.len() && whole[k] == x;
                    if k < whole.len() - 1 {
                        assert(prefix[k] == x);
                    }
                }
            }
        }
    }
}

/// The smaller of two counts.
pub open spec fn min_nat(a: nat, b: nat) -> nat {
    if a <= b {
        a
    } else {
        b
    }
}

/// The ids a claim returned, in the order the jobs were returned.
pub open spec fn claimed_ids(jobs: Seq<Job>) -> Seq<usize> {
    jobs.map_values(|j: Job| j.id)
}

/// Some row in `rows` could have produced `job` by a claim: same id, same
/// command, and available at the time.
pub open spec fn has_claimable_row(rows: Seq<JobRow>, job: Job) -> bool {
    exists|i: int|
        0 <= i < rows.len() && (#[trigger] rows[i]).id == job.id && rows[i].command@
            == job.command@ && rows[i].status == ExperimentStatus::NotRunning
}

/// Effect of one claim: the claimed rows were `NotRunning` and are now
/// `Running`, every other row is untouched, and each returned job copies the
/// id and command of the row it was claimed from, no id twice.
pub open spec fn claim_step(old_rows: Seq<JobRow>, new_rows: Seq<JobRow>, jobs: Seq<Job>) -> bool {
    &&& rows_preserved(old_rows, new_rows)
    &&& forall|i: int|
        0 <= i < old_rows.len() ==> (if claimed_ids(jobs).contains((#[trigger] old_rows[i]).id) {
            old_rows[i].status == ExperimentStatus::NotRunning && new_rows[i].status
                == ExperimentStatus::Running
        } else {
            new_rows[i].status == old_rows[i].status
        })
    &&& forall|k: int| 0 <= k < jobs.len() ==> has_claimable_row(old_rows, #[trigger] jobs[k])
    &&& claimed_ids(jobs).no_duplicates()
}

/// There are as many listed ids for a status as there are rows with it.
pub proof fn lemma_ids_with_status_len(rows: Seq<JobRow>, st: ExperimentStatus)
    ensures
        ids_with_status(rows, st).len() == count_with_status(rows, st),
    decreases rows.len(),
{
    if rows.len() > 0 {
        lemma_ids_with_status_len(rows.drop_last(), st);
    }
}

/// With strictly increasing row ids, the ids listed for a status are strictly
/// increasing too — in particular, no id is listed twice.
pub proof fn lemma_ids_with_status_increasing(rows: Seq<JobRow>, st: ExperimentStatus)
    requires
        forall|i: int, j: int|
            0 <= i < j < rows.len() ==> #[trigger] rows[i].id < #[trigger] rows[j].id,
    ensures
        forall|k1: int, k2: int|
            0 <= k1 < k2 < ids_with_status(rows, st).len() ==> #[trigger] ids_with_status(
                rows,
                st,
            )[k1] < #[trigger] ids_with_status(rows, st)[k2],
        ids_with_status(rows, st).no_duplicates(),
    decreases rows.len(),
{
    let ids = ids_with_status(rows, st);
    if rows.len() > 0 {
        let tail = rows.drop_last();
        let lastr = rows.last();
        assert(forall|i: int, j: int|
            0 <= i < j < tail.len() ==> #[trigger] tail[i].id < #[trigger] tail[j].id) by {
            assert(forall|i: int| 0 <= i < tail.len() ==> tail[i] == rows[i]);
        }
        lemma_ids_with_status_increasing(tail, st);
        let prefix = ids_with_status(tail, st);
        if lastr.status == st {
            assert(ids == prefix.push(lastr.id));
            assert forall|k1: int, k2: int|
                0 <= k1 < k2 < ids.len() implies #[trigger] ids[k1] < #[trigger] ids[k2] by {
                if k2 == ids.len() - 1 {
                    assert(prefix.contains(prefix[k1]));
                    lemma_ids_with_status_membership(tail, st, prefix[k1]);
                    let w = choose|w: int|
                        0 <= w < tail.len() && (#[trigger] tail[w]).id == prefix[k1]
                            && tail[w].status == st;
                    assert(rows[w].id < lastr.id);
                } else {
                    assert(prefix[k1] < prefix[k2]);
                }
            }
        }
    }
}

/// Mapping a function over two sequences with the same multiset of elements
/// gives the same multiset of results: a permutation stays a permutation.
pub proof fn lemma_map_values_multiset_eq<A, B>(s1: Seq<A>, s2: Seq<A>, f: spec_fn(A) -> B)
    requires
        s1.to_multiset() == s2.to_multiset(),
    ensures
        s1.map_values(f).to_multiset() == s2.map_values(f).to_multiset(),
    decreases s1.len(),
{
    broadcast use vstd::seq_lib::group_to_multiset_ensures;
    broadcast use vstd::multiset::group_multiset_axioms;

    if s1.len() == 0 {
        assert(s1.to_multiset().len() == 0);
        assert(s2.len() == 0);
        assert(s1.map_values(f) =~= s2.map_values(f));
    } else {
        let x = s1.last();
        assert(s1.contains(x));
        assert(s2.to_multiset().count(x) > 0);
        assert(s2.contains(x));
        let i = choose|i: int| 0 <= i < s2.len() && s2[i] == x;
        let t1 = s1.drop_last();
        let t2 = s2.remove(i);
        assert(t1 =~= s1.remove(s1.len() - 1));
        assert(t1.to_multiset() == s1.to_multiset().remove(x));
        assert(t2.to_multiset() == s2.to_multiset().remove(x));
        lemma_map_values_multiset_eq(t1, t2, f);
        // Rebuild both mapped multisets from the mapped remainders.
        assert(s1.map_values(f) =~= t1.map_values(f).push(f(x)));
        assert(s1.map_values(f).to_multiset() == t1.map_values(f).to_multiset().insert(f(x)));
        assert(t2.map_values(f) =~= s2.map_values(f).remove(i));
        assert(s2.map_values(f)[i] == f(x));
        assert(s2.map_values(f).remove(i).to_multiset() == s2.map_values(f).to_multiset().remove(
            f(x),
        ));
        assert(s2.map_values(f).contains(f(x)));
        assert(s2.map_values(f).to_multiset().count(f(x)) > 0);
        assert(s2.map_values(f).to_multiset().remove(f(x)).insert(f(x)) =~= s2.map_values(
            f,
        ).to_multiset());
    }
}

/// The commands a load appended, in row order.
pub open spec fn appended_commands(old_rows: Seq<JobRow>, new_rows: Seq<JobRow>) -> Seq<Seq<char>> {
    new_rows.skip(old_rows.len() as int).map_values(|r: JobRow| r.command@)
}

/// The model of the shared table: the rows, and the next id the table will
/// assign (ids auto-increment from 1).
#[derive(Debug)]
pub struct JobTable {
    pub rows: Vec<JobRow>,
    pub next_id: usize,
}

impl JobTable {
    /// Well-formedness: row ids are strictly increasing (hence unique), and
    /// all lie below the next id to be assigned.
    pub open spec fn wf(self) -> bool {
        &&& forall|i: int, j: int|
            0 <= i < j < self.rows@.len() ==> #[trigger] self.rows@[i].id < #[trigger] self.rows@[j].id
        &&& forall|i: int| 0 <= i < self.rows@.len() ==> #[trigger] self.rows@[i].id < self.next_id
        &&& self.next_id >= 1
    }

    /// A fresh, empty table.
    pub fn new() -> (t: JobTable)
        ensures
            t.wf(),
            t.rows@.len() == 0,
            t.next_id == 1,
    {
        JobTable { rows: Vec::new(), next_id: 1 }
    }

    /// (Re)creates the table: drops every existing row. Destructive by
    /// design; callers must be aware.
    pub fn create_table(&mut self)
        ensures
            final(self).wf(),
            final(self).rows@.len() == 0,
            final(self).next_id == 1,
    {
        self.rows = Vec::new();
        self.next_id = 1;
    }

    /// Index of the row that carries `id`, if any. Row ids are unique in a
    /// well-formed table, so the index is the only one.
    fn find_row_index(&self, id: usize) -> (r: Option<usize>)
        ensures
            match r {
                Some(i) => i < self.rows@.len() && self.rows@[i as int].id == id,
                None => forall|i: int| 0 <= i < self.rows@.len() ==> (#[trigger] self.rows@[i]).id != id,
            },
    {
        let mut i: usize = 0;
        while i < self.rows.len()
            invariant
                i <= self.rows@.len(),
                forall|j: int| 0 <= j < i ==> (#[trigger] self.rows@[j]).id != id,
            decreases self.rows@.len() - i,
        {
            if self.rows[i].id == id {
                return Some(i);
            }
            i = i + 1;
        }
        None
    }

    /// Bulk status update keyed by job id: used both for the terminal
    /// transition after execution and for manual resets. An id with no row is
    /// a no-op, as for the SQL `UPDATE` it stands for.
    pub fn change_status_given_ids(&mut self, ids: Vec<usize>, new_status: ExperimentStatus)
        requires
            old(self).wf(),
        ensures
            final(self).wf(),
            final(self).next_id == old(self).next_id,
            set_step(old(self).rows@, final(self).rows@, ids@, new_status),
    {
        let mut k: usize = 0;
        while k < ids.len()
            invariant
                k <= ids@.len(),
                self.wf(),
                self.next_id == old(self).next_id,
                set_step(old(self).rows@, self.rows@, ids@.take(k as int), new_status),
            decreases ids@.len() - k,
        {
            let id = ids[k];
            proof {
                assert(ids@.take(k + 1).drop_last() =~= ids@.take(k as int));
                assert forall|x: usize| #[trigger] ids@.take(k + 1).contains(x) implies ids@.take(
                    k as int,
                ).contains(x) || x == id by {
                    let j = choose|j: int| 0 <= j < k + 1 && (#[trigger] ids@.take(k + 1)[j]) == x;
                    if j < k {
                        assert(ids@.take(k as int)[j] == x);
                    }
                }
                assert forall|x: usize|
                    ids@.take(k as int).contains(x) implies #[trigger] ids@.take(k + 1).contains(
                    x,
                ) by {
                    let j = choose|j: int| 0 <= j < k && (#[trigger] ids@.take(k as int)[j]) == x;
                    assert(ids@.take(k + 1)[j] == x);
                }
                assert(ids@.take(k + 1)[k as int] == id);
            }
            match self.find_row_index(id) {
                Some(i) => {
                    let replaced = JobRow {
                        id: self.rows[i].id,
                        command: self.rows[i].command.clone(),
                        status: new_status,
                    };
                    self.rows[i] = replaced;
                },
                None => {},
            }
            k = k + 1;
        }
        proof {
            assert(ids@.take(ids@.len() as int) =~= ids@);
        }
    }

    /// Resets the listed jobs back to `NotRunning`.
    pub fn reset_given_ids(&mut self, ids: Vec<usize>)
        requires
            old(self).wf(),
        ensures
            final(self).wf(),
            final(self).next_id == old(self).next_id,
            set_step(old(self).rows@, final(self).rows@, ids@, ExperimentStatus::NotRunning),
    {
        self.change_status_given_ids(ids, ExperimentStatus::NotRunning);
    }

    /// Resets every job that currently has status `status` back to
    /// `NotRunning`: selects the matching ids, then transitions them.
    pub fn reset_jobs_with_status(&mut self, status: ExperimentStatus)
        requires
            old(self).wf(),
        ensures
            final(self).wf(),
            final(self).next_id == old(self).next_id,
            reset_where_step(old(self).rows@, final(self).rows@, status),
    {
        let mut ids: Vec<usize> = Vec::new();
        let mut i: usize = 0;
        while i < self.rows.len()
            invariant
                i <= self.rows@.len(),
                ids@ == ids_with_status(self.rows@.take(i as int), status),
            decreases self.rows@.len() - i,
        {
            proof {
                assert(self.rows@.take(i + 1).drop_last() =~= self.rows@.take(i as int));
                assert(self.rows@.take(i + 1).last() == self.rows@[i as int]);
            }
            if self.rows[i].status == status {
                ids.push(self.rows[i].id);
            }
            i = i + 1;
        }
        proof {
            assert(self.rows@.take(self.rows@.len() as int) =~= self.rows@);
        }
        let ghost old_rows = self.rows@;
        self.reset_given_ids(ids);
        proof {
            assert forall|j: int| 0 <= j < old_rows.len() implies (#[trigger] self.rows@[j]).status
                == (if old_rows[j].status == status {
                ExperimentStatus::NotRunning
            } else {
                old_rows[j].status
            }) by {
                lemma_ids_with_status_membership(old_rows, status, old_rows[j].id);
                if old_rows[j].status == status {
                    assert(has_id_with_status(old_rows, status, old_rows[j].id));
                } else {
                    if ids_with_status(old_rows, status).contains(old_rows[j].id) {
                        let w = choose|w: int|
                            0 <= w < old_rows.len() && (#[trigger] old_rows[w]).id == old_rows[j].id
                                && old_rows[w].status == status;
                        assert(w == j);
                    }
                }
            }
        }
    }

    /// Resets every job in the table back to `NotRunning`: selects all ids,
    /// then transitions them.
    pub fn reset_all_jobs(&mut self)
        requires
            old(self).wf(),
        ensures
            final(self).wf(),
            final(self).next_id == old(self).next_id,
            rows_preserved(old(self).rows@, final(self).rows@),
            forall|i: int|
                0 <= i < final(self).rows@.len() ==> (#[trigger] final(self).rows@[i]).status
                    == ExperimentStatus::NotRunning,
    {
        let mut ids: Vec<usize> = Vec::new();
        let mut i: usize = 0;
        while i < self.rows.len()
            invariant
                i <= self.rows@.len(),
                ids@.len() == i,
                forall|j: int| 0 <= j < i ==> #[trigger] ids@[j] == self.rows@[j].id,
            decreases self.rows@.len() - i,
        {
            ids.push(self.rows[i].id);
            i = i + 1;
        }
        let ghost old_rows = self.rows@;
        self.reset_given_ids(ids);
        proof {
            assert forall|j: int| 0 <= j < old_rows.len() implies (#[trigger] self.rows@[j]).status
                == ExperimentStatus::NotRunning by {
                assert(ids@[j] == old_rows[j].id);
            }
        }
    }

    /// Count of rows available for claiming, i.e. with status `NotRunning`.
    /// Drives the dispatch loop's termination condition.
    pub fn get_number_of_available_jobs(&self) -> (n: usize)
        ensures
            n as nat == count_with_status(self.rows@, ExperimentStatus::NotRunning),
    {
        let mut n: usize = 0;
        let mut i: usize = 0;
        while i < self.rows.len()
            invariant
                i <= self.rows@.len(),
                n as nat == count_with_status(
                    self.rows@.take(i as int),
                    ExperimentStatus::NotRunning,
                ),
                n <= i,
            decreases self.rows@.len() - i,
        {
            proof {
                assert(self.rows@.take(i + 1).drop_last() =~= self.rows@.take(i as int));
                assert(self.rows@.take(i + 1).last() == self.rows@[i as int]);
            }
            if matches!(self.rows[i].status, ExperimentStatus::NotRunning) {
                n = n + 1;
            }
            i = i + 1;
        }
        proof {
            assert(self.rows@.take(self.rows@.len() as int) =~= self.rows@);
        }
        n
    }

    /// Loads the commands of a command file: one new row per non-empty line,
    /// each with status `NotRunning` and a fresh auto-incremented id. Under
    /// `shuffle` the insertion order is a random permutation of the input
    /// order — the same commands are loaded either way, only against other
    /// ids.
    pub fn load_commands(&mut self, contents: &str, shuffle: bool)
        requires
            old(self).wf(),
            old(self).next_id + command_lines(contents@).len() <= usize::MAX,
        ensures
            final(self).wf(),
            final(self).rows@.len() == old(self).rows@.len() + command_lines(contents@).len(),
            final(self).next_id == old(self).next_id + command_lines(contents@).len(),
            forall|i: int|
                0 <= i < old(self).rows@.len() ==> #[trigger] final(self).rows@[i] == old(
                    self,
                ).rows@[i],
            forall|m: int|
                0 <= m < command_lines(contents@).len() ==> {
                    let r = #[trigger] final(self).rows@[old(self).rows@.len() + m];
                    r.status == ExperimentStatus::NotRunning && r.id == old(self).next_id + m
                },
            appended_commands(old(self).rows@, final(self).rows@).to_multiset() == command_lines(
                contents@,
            ).to_multiset(),
            !shuffle ==> appended_commands(old(self).rows@, final(self).rows@) == command_lines(
                contents@,
            ),
    {
        let mut commands = crate::command::parse_command_lines(contents);
        let ghost parsed = commands@;
        if shuffle {
            crate::shuffle::shuffle_vec(&mut commands);
            proof {
                lemma_map_values_multiset_eq(commands@, parsed, |t: String| t@);
            }
        }
        let ghost cmds = commands@;
        let ghost old_len = self.rows@.len();
        let ghost old_next = self.next_id;
        let mut k: usize = 0;
        while k < commands.len()
            invariant
                commands@ == cmds,
                cmds.len() == command_lines(contents@).len(),
                k <= cmds.len(),
                old(self).wf(),
                old_len == old(self).rows@.len(),
                old_next == old(self).next_id,
                old_next + cmds.len() <= usize::MAX,
                self.wf(),
                self.next_id == old_next + k,
                self.rows@.len() == old_len + k,
                forall|i: int|
                    0 <= i < old_len ==> #[trigger] self.rows@[i] == old(self).rows@[i],
                forall|m: int|
                    0 <= m < k ==> {
                        let r = #[trigger] self.rows@[old_len + m];
                        r.status == ExperimentStatus::NotRunning && r.id == old_next + m
                            && r.command@ == cmds[m]@
                    },
            decreases cmds.len() - k,
        {
            let command = commands[k].clone();
            let id = self.next_id;
            self.rows.push(JobRow { id, command, status: ExperimentStatus::NotRunning });
            self.next_id = self.next_id + 1;
            k = k + 1;
        }
        proof {
            let appended = appended_commands(old(self).rows@, self.rows@);
            assert(appended =~= cmds.map_values(|t: String| t@)) by {
                assert(forall|m: int|
                    0 <= m < cmds.len() ==> #[trigger] self.rows@.skip(old_len as int)[m]
                        == self.rows@[old_len + m]);
            }
            if shuffle {
                assert(parsed.map_values(|t: String| t@) == command_lines(contents@));
            } else {
                assert(appended =~= command_lines(contents@));
            }
        }
    }

    /// Claims up to `nb_jobs` available rows: selects them (in row order, or
    /// in a random order under `shuffle`) and transitions every selected row
    /// to `Running` before returning, all under the exclusive borrow that
    /// stands for the table-level write lock — no other claimant can observe
    /// the selected rows still available.
    pub fn claim_available(&mut self, nb_jobs: usize, shuffle: bool) -> (jobs: Vec<Job>)
        requires
            old(self).wf(),
        ensures
            final(self).wf(),
            final(self).next_id == old(self).next_id,
            claim_step(old(self).rows@, final(self).rows@, jobs@),
            jobs@.len() == min_nat(
                nb_jobs as nat,
                count_with_status(old(self).rows@, ExperimentStatus::NotRunning),
            ),
            !shuffle ==> claimed_ids(jobs@) == avail_ids(old(self).rows@).take(
                jobs@.len() as int,
            ),
            nb_jobs >= count_with_status(old(self).rows@, ExperimentStatus::NotRunning)
                ==> claimed_ids(jobs@).to_multiset() == avail_ids(old(self).rows@).to_multiset(),
            count_with_status(final(self).rows@, ExperimentStatus::Running) == count_with_status(
                old(self).rows@,
                ExperimentStatus::Running,
            ) + jobs@.len(),
            count_with_status(final(self).rows@, ExperimentStatus::NotRunning) + jobs@.len()
                == count_with_status(old(self).rows@, ExperimentStatus::NotRunning),
    {
        broadcast use vstd::seq_lib::group_to_multiset_ensures;
        // Select the candidate ids: every available row, in row order.
        let mut cand: Vec<usize> = Vec::new();
        let mut i: usize = 0;
        while i < self.rows.len()
            invariant
                i <= self.rows@.len(),
                cand@ == avail_ids(self.rows@.take(i as int)),
            decreases self.rows@.len() - i,
        {
            proof {
                assert(self.rows@.take(i + 1).drop_last() =~= self.rows@.take(i as int));
                assert(self.rows@.take(i + 1).last() == self.rows@[i as int]);
            }
            if matches!(self.rows[i].status, ExperimentStatus::NotRunning) {
                cand.push(self.rows[i].id);
            }
            i = i + 1;
        }
        proof {
            assert(self.rows@.take(self.rows@.len() as int) =~= self.rows@);
        }
        let ghost avail = avail_ids(old(self).rows@);
        proof {
            lemma_ids_with_status_increasing(old(self).rows@, ExperimentStatus::NotRunning);
            lemma_ids_with_status_len(old(self).rows@, ExperimentStatus::NotRunning);
        }
        // Under `shuffle`, claim in a random order instead of row order.
        if shuffle {
            crate::shuffle::shuffle_vec(&mut cand);
            proof {
                avail.lemma_multiset_has_no_duplicates();
                cand@.lemma_multiset_has_no_duplicates_conv();
            }
        }
        proof {
            assert(cand@.to_multiset() == avail.to_multiset());
            assert(cand@.no_duplicates());
            assert forall|x: usize| #[trigger] cand@.contains(x) implies has_id_with_status(
                old(self).rows@,
                ExperimentStatus::NotRunning,
                x,
            ) by {
                assert(avail.to_multiset().count(x) > 0);
                lemma_ids_with_status_membership(old(self).rows@, ExperimentStatus::NotRunning, x);
            }
        }
        let ghost full = cand@;
        // Take at most `nb_jobs` of the candidates.
        cand.truncate(nb_jobs);
        proof {
            if nb_jobs <= full.len() {
                assert(cand@ =~= full.take(nb_jobs as int));
            } else {
                assert(cand@ =~= full.take(full.len() as int));
            }
            assert(cand@.no_duplicates()) by {
                assert(forall|m: int| 0 <= m < cand@.len() ==> #[trigger] cand@[m] == full[m]);
            }
            assert forall|x: usize| #[trigger] cand@.contains(x) implies full.contains(x) by {
                let m = choose|m: int| 0 <= m < cand@.len() && cand@[m] == x;
                assert(full[m] == x);
            }
        }
        // Transition every selected row to `Running`, building the returned
        // jobs from the rows' own ids and commands.
        let mut jobs: Vec<Job> = Vec::new();
        let mut k: usize = 0;
        while k < cand.len()
            invariant
                k <= cand@.len(),
                self.wf(),
                old(self).wf(),
                self.next_id == old(self).next_id,
                rows_preserved(old(self).rows@, self.rows@),
                cand@.no_duplicates(),
                forall|x: usize|
                    #[trigger] cand@.contains(x) ==> has_id_with_status(
                        old(self).rows@,
                        ExperimentStatus::NotRunning,
                        x,
                    ),
                jobs@.len() == k,
                forall|m: int| 0 <= m < k ==> (#[trigger] jobs@[m]).id == cand@[m],
                forall|m: int|
                    0 <= m < k ==> has_claimable_row(old(self).rows@, #[trigger] jobs@[m]),
                forall|i: int|
                    0 <= i < old(self).rows@.len() ==> (if cand@.take(k as int).contains(
                        (#[trigger] old(self).rows@[i]).id,
                    ) {
                        old(self).rows@[i].status == ExperimentStatus::NotRunning
                            && self.rows@[i].status == ExperimentStatus::Running
                    } else {
                        self.rows@[i].status == old(self).rows@[i].status
                    }),
                count_with_status(self.rows@, ExperimentStatus::Running) == count_with_status(
                    old(self).rows@,
                    ExperimentStatus::Running,
                ) + k,
                count_with_status(self.rows@, ExperimentStatus::NotRunning) + k
                    == count_with_status(old(self).rows@, ExperimentStatus::NotRunning),
            decreases cand@.len() - k,
        {
            let id = cand[k];
            proof {
                assert(cand@.contains(id));
            }
            let row_index = self.find_row_index(id);
            let i = match row_index {
                Some(i) => i,
                None => {
                    proof {
                        let w = choose|w: int|
                            0 <= w < old(self).rows@.len() && (#[trigger] old(
                                self,
                            ).rows@[w]).id == id && old(self).rows@[w].status
                                == ExperimentStatus::NotRunning;
                        assert(self.rows@[w].id == id);
                    }
                    vstd::pervasive::unreached()
                },
            };
            proof {
                // The row found for this id is the claimable one, still
                // untouched: no candidate id is taken twice.
                let w = choose|w: int|
                    0 <= w < old(self).rows@.len() && (#[trigger] old(self).rows@[w]).id == id
                        && old(self).rows@[w].status == ExperimentStatus::NotRunning;
                assert(self.rows@[w].id == id);
                assert(w == i as int);
                if cand@.take(k as int).contains(id) {
                    let m = choose|m: int| 0 <= m < k && (#[trigger] cand@.take(k as int)[m]) == id;
                    assert(cand@[m] == id && cand@[k as int] == id);
                    assert(false);
                }
                assert(old(self).rows@[i as int].status == ExperimentStatus::NotRunning);
                assert(self.rows@[i as int].status == ExperimentStatus::NotRunning);
            }
            let command = self.rows[i].command.clone();
            let command_for_row = self.rows[i].command.clone();
            jobs.push(Job { id, command });
            let replaced = JobRow {
                id,
                command: command_for_row,
                status: ExperimentStatus::Running,
            };
            let ghost prev_rows = self.rows@;
            self.rows[i] = replaced;
            proof {
                lemma_count_single_change(prev_rows, self.rows@, i as int, ExperimentStatus::Running);
                lemma_count_single_change(
                    prev_rows,
                    self.rows@,
                    i as int,
                    ExperimentStatus::NotRunning,
                );
                assert(cand@.take(k + 1).drop_last() =~= cand@.take(k as int));
                assert forall|x: usize| #[trigger] cand@.take(k + 1).contains(x) implies cand@.take(
                    k as int,
                ).contains(x) || x == id by {
                    let m = choose|m: int| 0 <= m < k + 1 && (#[trigger] cand@.take(k + 1)[m]) == x;
                    if m < k {
                        assert(cand@.take(k as int)[m] == x);
                    }
                }
                assert forall|x: usize|
                    cand@.take(k as int).contains(x) implies #[trigger] cand@.take(k + 1).contains(
                    x,
                ) by {
                    let m = choose|m: int| 0 <= m < k && (#[trigger] cand@.take(k as int)[m]) == x;
                    assert(cand@.take(k + 1)[m] == x);
                }
                assert(cand@.take(k + 1)[k as int] == id);
                // Any other row carrying a candidate id is a different row,
                // so this step leaves it as it was.
                assert forall|j: int|
                    0 <= j < old(self).rows@.len() && j != i as int && old(self).rows@[j].id
                        == id implies false by {
                    let w2 = choose|w2: int|
                        0 <= w2 < old(self).rows@.len() && (#[trigger] old(self).rows@[w2]).id == id
                            && old(self).rows@[w2].status == ExperimentStatus::NotRunning;
                }
            }
            k = k + 1;
        }
        proof {
            assert(cand@.take(cand@.len() as int) =~= cand@);
            assert(claimed_ids(jobs@) =~= cand@);
            if nb_jobs >= count_with_status(old(self).rows@, ExperimentStatus::NotRunning) {
                assert(cand@ =~= full);
            }
        }
        jobs
    }

    /// Every row's command and status, in row order: the read-only reporting
    /// surface.
    pub fn all_rows(&self) -> (r: Vec<(String, ExperimentStatus)>)
        ensures
            r@.len() == self.rows@.len(),
            forall|i: int|
                0 <= i < self.rows@.len() ==> (#[trigger] r@[i]).0@ == self.rows@[i].command@
                    && r@[i].1 == self.rows@[i].status,
    {
        let mut r: Vec<(String, ExperimentStatus)> = Vec::new();
        let mut i: usize = 0;
        while i < self.rows.len()
            invariant
                i <= self.rows@.len(),
                r@.len() == i,
                forall|j: int|
                    0 <= j < i ==> (#[trigger] r@[j]).0@ == self.rows@[j].command@ && r@[j].1
                        == self.rows@[j].status,
            decreases self.rows@.len() - i,
        {
            r.push((self.rows[i].command.clone(), self.rows[i].status));
            i = i + 1;
        }
        r
    }

    /// Per-status row counts, indexed by the status code: entry `c` counts
    /// the rows whose status is stored under code `c`.
    pub fn status_histogram(&self) -> (h: Vec<usize>)
        ensures
            h@.len() == 5,
            forall|c: int|
                0 <= c < 5 ==> #[trigger] h@[c] as nat == count_with_status(
                    self.rows@,
                    code_to_status_spec(c as nat),
                ),
    {
        let mut h: Vec<usize> = Vec::new();
        h.push(0);
        h.push(0);
        h.push(0);
        h.push(0);
        h.push(0);
        let mut i: usize = 0;
        while i < self.rows.len()
            invariant
                i <= self.rows@.len(),
                h@.len() == 5,
                forall|c: int|
                    0 <= c < 5 ==> #[trigger] h@[c] as nat == count_with_status(
                        self.rows@.take(i as int),
                        code_to_status_spec(c as nat),
                    ),
                forall|c: int| 0 <= c < 5 ==> #[trigger] h@[c] <= i,
            decreases self.rows@.len() - i,
        {
            proof {
                assert(self.rows@.take(i + 1).drop_last() =~= self.rows@.take(i as int));
                assert(self.rows@.take(i + 1).last() == self.rows@[i as int]);
            }
            let code = self.rows[i].status.to_db_code();
            let bumped = h[code] + 1;
            h[code] = bumped;
            i = i + 1;
        }
        proof {
            assert(self.rows@.take(self.rows@.len() as int) =~= self.rows@);
        }
        h
    }
}

/// No double-claim: whatever two claims against the same table select — the
/// second sees the table as the first left it, which is what the exclusive
/// table lock enforces between any two claimants — no job id is handed to
/// both. The first claim leaves every id it returned `Running`, and a claim
/// only returns rows it found `NotRunning`.
pub proof fn lemma_no_double_claim(
    rows0: Seq<JobRow>,
    rows1: Seq<JobRow>,
    rows2: Seq<JobRow>,
    jobs1: Seq<Job>,
    jobs2: Seq<Job>,
)
    requires
        forall|i: int, j: int|
            0 <= i < j < rows0.len() ==> #[trigger] rows0[i].id < #[trigger] rows0[j].id,
        claim_step(rows0, rows1, jobs1),
        claim_step(rows1, rows2, jobs2),
    ensures
        forall|k1: int, k2: int|
            0 <= k1 < jobs1.len() && 0 <= k2 < jobs2.len() ==> (#[trigger] jobs1[k1]).id
                != (#[trigger] jobs2[k2]).id,
{
    assert forall|k1: int, k2: int|
        0 <= k1 < jobs1.len() && 0 <= k2 < jobs2.len() implies (#[trigger] jobs1[k1]).id
        != (#[trigger] jobs2[k2]).id by {
        if jobs1[k1].id == jobs2[k2].id {
            let x = jobs1[k1].id;
            // The row the first claim took is `Running` once it is done.
            assert(has_claimable_row(rows0, jobs1[k1]));
            let i = choose|i: int|
                0 <= i < rows0.len() && (#[trigger] rows0[i]).id == x && rows0[i].command@
                    == jobs1[k1].command@ && rows0[i].status == ExperimentStatus::NotRunning;
            assert(claimed_ids(jobs1)[k1] == x);
            assert(claimed_ids(jobs1).contains(x));
            assert(rows1[i].status == ExperimentStatus::Running);
            // Yet the second claim found a row with the same id `NotRunning`,
            // and ids are unique.
            assert(has_claimable_row(rows1, jobs2[k2]));
            let i2 = choose|i2: int|
                0 <= i2 < rows1.len() && (#[trigger] rows1[i2]).id == x && rows1[i2].command@
                    == jobs2[k2].command@ && rows1[i2].status == ExperimentStatus::NotRunning;
            assert(rows0[i2].id == x);
            assert(i2 == i);
            assert(false);
        }
    }
}

/// Every status change a claim makes is a legal transition: the claimed rows
/// go from `NotRunning` to `Running`, the rest do not move.
pub proof fn lemma_claim_transitions_legal(
    old_rows: Seq<JobRow>,
    new_rows: Seq<JobRow>,
    jobs: Seq<Job>,
)
    requires
        claim_step(old_rows, new_rows, jobs),
    ensures
        forall|i: int|
            0 <= i < old_rows.len() && (#[trigger] new_rows[i]).status != old_rows[i].status
                ==> crate::status::transition_ok(old_rows[i].status, new_rows[i].status),
{
}

/// Every status change a reset keyed by status makes is a legal transition:
/// a reset may take any status back to `NotRunning`.
pub proof fn lemma_reset_transitions_legal(
    old_rows: Seq<JobRow>,
    new_rows: Seq<JobRow>,
    st: ExperimentStatus,
)
    requires
        reset_where_step(old_rows, new_rows, st),
    ensures
        forall|i: int|
            0 <= i < old_rows.len() && (#[trigger] new_rows[i]).status != old_rows[i].status
                ==> crate::status::transition_ok(old_rows[i].status, new_rows[i].status),
{
}

/// Every status change a terminal bulk update makes is a legal transition,
/// provided it only names rows that are `Running` — which is how the engine
/// uses it: the terminal status is written for a job that was executing.
pub proof fn lemma_finish_transitions_legal(
    old_rows: Seq<JobRow>,
    new_rows: Seq<JobRow>,
    ids: Seq<usize>,
    st: ExperimentStatus,
)
    requires
        set_step(old_rows, new_rows, ids, st),
        crate::status::is_terminal_spec(st),
        forall|i: int|
            0 <= i < old_rows.len() && ids.contains((#[trigger] old_rows[i]).id)
                ==> old_rows[i].status == ExperimentStatus::Running,
    ensures
        forall|i: int|
            0 <= i < old_rows.len() && (#[trigger] new_rows[i]).status != old_rows[i].status
                ==> crate::status::transition_ok(old_rows[i].status, new_rows[i].status),
{
}

/// Two row sequences with the same statuses, row for row, have the same
/// per-status counts.
pub proof fn lemma_count_status_eq(r1: Seq<JobRow>, r2: Seq<JobRow>, st: ExperimentStatus)
    requires
        r1.len() == r2.len(),
        forall|j: int| 0 <= j < r1.len() ==> (#[trigger] r2[j]).status == r1[j].status,
    ensures
        count_with_status(r1, st) == count_with_status(r2, st),
    decreases r1.len(),
{
    if r1.len() > 0 {
        lemma_count_status_eq(r1.drop_last(), r2.drop_last(), st);
    }
}

/// Changing the status of one row moves the per-status counts by exactly
/// that row's old and new status.
pub proof fn lemma_count_single_change(
    old_rows: Seq<JobRow>,
    new_rows: Seq<JobRow>,
    i: int,
    st: ExperimentStatus,
)
    requires
        old_rows.len() == new_rows.len(),
        0 <= i < old_rows.len(),
        forall|j: int|
            0 <= j < old_rows.len() && j != i ==> (#[trigger] new_rows[j]).status
                == old_rows[j].status,
    ensures
        count_with_status(new_rows, st) + (if old_rows[i].status == st {
            1nat
        } else {
            0nat
        }) == count_with_status(old_rows, st) + (if new_rows[i].status == st {
            1nat
        } else {
            0nat
        }),
    decreases old_rows.len(),
{
    if old_rows.len() > 0 {
        if i == old_rows.len() - 1 {
            lemma_count_status_eq(old_rows.drop_last(), new_rows.drop_last(), st);
        } else {
            lemma_count_single_change(old_rows.drop_last(), new_rows.drop_last(), i, st);
        }
    }
}

/// A row with a status contributes to that status's count.
pub proof fn lemma_count_positive(rows: Seq<JobRow>, st: ExperimentStatus, x: usize)
    requires
        has_id_with_status(rows, st, x),
    ensures
        count_with_status(rows, st) > 0,
    decreases rows.len(),
{
    let i = choose|i: int| 0 <= i < rows.len() && (#[trigger] rows[i]).id == x && rows[i].status == st;
    if i < rows.len() - 1 {
        assert(has_id_with_status(rows.drop_last(), st, x)) by {
            assert(rows.drop_last()[i].id == x && rows.drop_last()[i].status == st);
        }
        lemma_count_positive(rows.drop_last(), st, x);
    }
}

/// The five per-status counts always sum exactly to the total row count:
/// every row has exactly one status.
pub proof fn lemma_histogram_sum(rows: Seq<JobRow>)
    ensures
        count_with_status(rows, ExperimentStatus::NotRunning) + count_with_status(
            rows,
            ExperimentStatus::Running,
        ) + count_with_status(rows, ExperimentStatus::SuccessFinished) + count_with_status(
            rows,
            ExperimentStatus::FailedFinished,
        ) + count_with_status(rows, ExperimentStatus::TimedOut) == rows.len(),
    decreases rows.len(),
{
    if rows.len() > 0 {
        lemma_histogram_sum(rows.drop_last());
    }
}

} // verus!
