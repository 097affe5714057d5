//! The reaper: committing the termination of child processes into the state,
//! completing the deferred reset, and honoring pause-on-failure.

use vstd::prelude::*;

use crate::handler::{ChildHandle, TaskHandler, children_unique, has_child};
use crate::phases::{Effects, done_preserved};
use crate::state::{has_task, lemma_unique_index, occupies_slot, task_of};
use crate::task::{Task, TaskResult, TaskStatus, result_failed, task_wf};

verus! {

/// How the OS reported a child's termination.
#[derive(Clone, Copy, Debug)]
pub enum ExitOutcome {
    /// The child exited; `code` is absent when it was ended by a signal.
    Exited { code: Option<i32> },
    /// The non-blocking wait itself failed.
    WaitError,
}

/// One reaped child, as the daemon's poll reports it.
#[derive(Clone, Copy, Debug)]
pub struct FinishedChild {
    pub id: usize,
    pub outcome: ExitOutcome,
}

/// The result a termination report maps to: exit code zero is success, any
/// other code is a failure, and a codeless exit or a wait error counts as
/// killed.
pub open spec fn result_of_outcome(o: ExitOutcome) -> TaskResult {
    match o {
        ExitOutcome::Exited { code } => match code {
            Some(c) => if c == 0 {
                TaskResult::Success
            } else {
                TaskResult::Failed(c)
            },
            None => TaskResult::Killed,
        },
        ExitOutcome::WaitError => TaskResult::Killed,
    }
}

/// Whether the report list mentions task `id`.
pub open spec fn finished_contains(finished: Seq<FinishedChild>, id: usize) -> bool {
    exists|k: int| 0 <= k < finished.len() && finished[k].id == id
}

/// No task is reported twice.
pub open spec fn finished_ids_distinct(finished: Seq<FinishedChild>) -> bool {
    forall|a: int, b: int| 0 <= a < b < finished.len() ==> finished[a].id != finished[b].id
}

/// The outcome reported for task `id`; meaningful when the list mentions it.
pub open spec fn outcome_of(finished: Seq<FinishedChild>, id: usize) -> ExitOutcome {
    finished[choose|k: int| 0 <= k < finished.len() && finished[k].id == id].outcome
}

/// A report commits a result: the task still has a live child and has not
/// already reached a terminal status (an eagerly killed task keeps its
/// record; only its handle is dropped).
pub open spec fn commits(tasks: Seq<Task>, children: Seq<ChildHandle>, f: FinishedChild) -> bool {
    &&& has_child(children, f.id)
    &&& has_task(tasks, f.id)
    &&& !(task_of(tasks, f.id).status is Done)
}

/// The ids whose results a report list commits, in report order.
pub open spec fn committed_ids(
    tasks: Seq<Task>,
    children: Seq<ChildHandle>,
    finished: Seq<FinishedChild>,
) -> Seq<usize>
    decreases finished.len(),
{
    if finished.len() == 0 {
        Seq::empty()
    } else {
        committed_ids(tasks, children, finished.drop_last()) + if commits(
            tasks,
            children,
            finished.last(),
        ) {
            seq![finished.last().id]
        } else {
            Seq::empty()
        }
    }
}

/// Whether the list commits a result for task `id`.
pub open spec fn committed_in(
    tasks: Seq<Task>,
    children: Seq<ChildHandle>,
    finished: Seq<FinishedChild>,
    id: usize,
) -> bool {
    exists|k: int| 0 <= k < finished.len() && finished[k].id == id
        && commits(tasks, children, finished[k])
}

/// Whether the list commits a failure result for some task.
pub open spec fn any_committed_failure(
    tasks: Seq<Task>,
    children: Seq<ChildHandle>,
    finished: Seq<FinishedChild>,
) -> bool {
    exists|k: int| 0 <= k < finished.len() && commits(tasks, children, finished[k])
        && result_failed(result_of_outcome(finished[k].outcome))
}

/// The record of a task whose child terminated.
pub open spec fn done_version(t: Task, o: ExitOutcome, now: i64) -> Task {
    Task {
        status: TaskStatus::Done,
        result: Some(result_of_outcome(o)),
        end: Some(now),
        ..t
    }
}

proof fn lemma_committed_ids_take_step(
    tasks: Seq<Task>,
    children: Seq<ChildHandle>,
    finished: Seq<FinishedChild>,
    k: int,
)
    requires
        0 <= k < finished.len(),
    ensures
        committed_ids(tasks, children, finished.take(k + 1)) == committed_ids(
            tasks,
            children,
            finished.take(k),
        ) + if commits(tasks, children, finished[k]) {
            seq![finished[k].id]
        } else {
            Seq::<usize>::empty()
        },
{
    assert(finished.take(k + 1).drop_last() =~= finished.take(k));
    assert(finished.take(k + 1).last() == finished[k]);
}

/// In a duplicate-free report list, the entry found at one index is the one
/// the spec-level lookup denotes.
proof fn lemma_outcome_of(finished: Seq<FinishedChild>, k: int)
    requires
        finished_ids_distinct(finished),
        0 <= k < finished.len(),
    ensures
        outcome_of(finished, finished[k].id) == finished[k].outcome,
{
    let id = finished[k].id;
    let k2 = choose|k2: int| 0 <= k2 < finished.len() && finished[k2].id == id;
    if k2 != k {
        if k2 < k {
            assert(finished[k2].id != finished[k].id);
        } else {
            assert(finished[k].id != finished[k2].id);
        }
    }
}

/// Drop the child entry for task `id`, if one exists.
pub fn remove_child_entry(children: &mut Vec<ChildHandle>, id: usize) -> (r: bool)
    requires
        children_unique(old(children)@),
    ensures
        children_unique(final(children)@),
        r == has_child(old(children)@, id),
        forall|x: usize| #[trigger] has_child(final(children)@, x)
            <==> (has_child(old(children)@, x) && x != id),
{
    let ghost pre = old(children)@;
    let n: usize = children.len();
    let mut out: Vec<ChildHandle> = Vec::new();
    let mut found: bool = false;
    let mut i: usize = 0;
    proof {
        assert(pre.take(0) =~= Seq::<ChildHandle>::empty());
    }
    while i < n
        invariant
            children@ == pre,
            n == pre.len(),
            i <= n,
            children_unique(pre),
            children_unique(out@),
            found == has_child(pre.take(i as int), id),
            forall|j: int| 0 <= j < out@.len() ==> #[trigger] out@[j].id != id,
            forall|j: int| #![trigger out@[j]] 0 <= j < out@.len() ==> exists|j0: int|
                0 <= j0 < i && #[trigger] pre[j0] == out@[j],
            forall|x: usize| #[trigger] has_child(out@, x)
                <==> (has_child(pre.take(i as int), x) && x != id),
        decreases n - i,
    {
        proof {
            assert(pre.take(i as int + 1) =~= pre.take(i as int).push(pre[i as int]));
        }
        if children[i].id == id {
            found = true;
            proof {
                assert(pre.take(i as int + 1)[i as int].id == id);
                assert forall|x: usize| #[trigger] has_child(out@, x)
                        <==> (has_child(pre.take(i as int + 1), x) && x != id) by {
                    if x != id && has_child(pre.take(i as int + 1), x) {
                        let j = choose|j: int| 0 <= j < pre.take(i as int + 1).len()
                            && #[trigger] pre.take(i as int + 1)[j].id == x;
                        assert(j < i);
                        assert(pre.take(i as int)[j].id == x);
                    }
                }
            }
        } else {
            let ghost pre_out = out@;
            out.push(children[i]);
            proof {
                assert forall|a: int, b: int| 0 <= a < b < out@.len()
                        implies out@[a].id != out@[b].id by {
                    if b == out@.len() - 1 {
                        let j0 = choose|j0: int| 0 <= j0 < i && pre[j0] == pre_out[a];
                        assert(out@[a] == pre_out[a]);
                        assert(out@[b] == pre[i as int]);
                        assert(pre[j0].id != pre[i as int].id);
                    } else {
                        assert(out@[a] == pre_out[a] && out@[b] == pre_out[b]);
                    }
                }
                assert forall|x: usize| #[trigger] has_child(out@, x)
                        implies (has_child(pre.take(i as int + 1), x) && x != id) by {
                    let j = choose|j: int| 0 <= j < out@.len() && out@[j].id == x;
                    if j < out@.len() - 1 {
                        assert(pre_out[j].id == x);
                        assert(has_child(pre_out, x));
                        assert(has_child(pre.take(i as int), x));
                        let j2 = choose|j2: int| 0 <= j2 < pre.take(i as int).len()
                            && pre.take(i as int)[j2].id == x;
                        assert(pre.take(i as int + 1)[j2].id == x);
                    } else {
                        assert(out@[j] == pre[i as int]);
                        assert(pre.take(i as int + 1)[i as int].id == x);
                    }
                }
                assert forall|x: usize| has_child(pre.take(i as int + 1), x) && x != id
                        implies #[trigger] has_child(out@, x) by {
                    let j = choose|j: int| 0 <= j < pre.take(i as int + 1).len()
                        && #[trigger] pre.take(i as int + 1)[j].id == x;
                    if j < i {
                        assert(pre.take(i as int)[j].id == x);
                        assert(has_child(pre.take(i as int), x));
                        assert(has_child(pre_out, x));
                        let j2 = choose|j2: int| 0 <= j2 < pre_out.len()
                            && pre_out[j2].id == x;
                        assert(out@[j2].id == x);
                    } else {
                        assert(out@[out@.len() - 1].id == x);
                    }
                }
            }
        }
        i = i + 1;
    }
    proof {
        assert(pre.take(n as int) =~= pre);
    }
    *children = out;
    found
}

/// The result a termination report maps to, computed.
pub fn outcome_result(o: &ExitOutcome) -> (r: TaskResult)
    ensures
        r == result_of_outcome(*o),
{
    match o {
        ExitOutcome::Exited { code } => match code {
            Some(c) => if *c == 0 {
                TaskResult::Success
            } else {
                TaskResult::Failed(*c)
            },
            None => TaskResult::Killed,
        },
        ExitOutcome::WaitError => TaskResult::Killed,
    }
}

impl TaskHandler {
    /// Commit every reported child termination: drop the handle, and — unless
    /// the task already reached a terminal status through an eager kill —
    /// record its result and end time and mark it for a callback. When a
    /// reset is pending and no child is left, wipe the task table first and
    /// resume the daemon. If any committed result is a failure and
    /// pause-on-failure is set, stop launching. The effects list the newly
    /// completed ids (in report order), the log files to delete while a reset
    /// is in progress, and whether a save is owed.
    #[verifier::rlimit(100)]
    pub fn handle_finished_tasks(&mut self, finished: &Vec<FinishedChild>, now: i64) -> (r:
        Effects)
        requires
            old(self).wf(),
            finished_ids_distinct(finished@),
        ensures
            final(self).wf(),
            ({
                let wiped = old(self).reset && old(self).children@.len() == 0;
                let ots = old(self).state.tasks@;
                let och = old(self).children@;
                &&& r.state_wiped == wiped
                &&& final(self).reset == (old(self).reset && !wiped)
                &&& final(self).shutdown == old(self).shutdown
                &&& final(self).pueue_directory == old(self).pueue_directory
                &&& final(self).callback == old(self).callback
                &&& final(self).pause_on_failure == old(self).pause_on_failure
                &&& final(self).state.settings == old(self).state.settings
                &&& forall|x: usize| #[trigger] has_child(final(self).children@, x)
                    <==> (has_child(och, x) && !finished_contains(finished@, x))
                &&& r.completed@ == committed_ids(ots, och, finished@)
                &&& r.clean_logs@ == if old(self).reset && !wiped {
                    committed_ids(ots, och, finished@)
                } else {
                    Seq::<usize>::empty()
                }
                &&& r.save == (r.completed@.len() > 0 || wiped)
                &&& r.spawns@.len() == 0
                &&& r.stdin_write is None
                &&& if wiped {
                    &&& final(self).state.tasks@.len() == 0
                    &&& final(self).state.running
                } else {
                    &&& final(self).state.tasks@.len() == ots.len()
                    &&& forall|i: int| 0 <= i < ots.len() ==> final(self).state.tasks@[i]
                        == (if committed_in(ots, och, finished@, ots[i].id) {
                        done_version(
                            #[trigger] ots[i],
                            outcome_of(finished@, ots[i].id),
                            now,
                        )
                    } else {
                        ots[i]
                    })
                    &&& final(self).state.running == (old(self).state.running && !(
                    any_committed_failure(ots, och, finished@) && old(self).pause_on_failure))
                    &&& done_preserved(ots, final(self).state.tasks@)
                }
            }),
            old(self).handle_status_consistent() ==> final(self).handle_status_consistent(),
    {
        let ghost ots = old(self).state.tasks@;
        let ghost och = old(self).children@;
        let wiped: bool;
        if self.reset && self.children.len() == 0 {
            self.state.reset();
            self.state.running = true;
            self.reset = false;
            wiped = true;
        } else {
            wiped = false;
        }
        let ghost mid_tasks = self.state.tasks@;
        let n: usize = finished.len();
        let mut completed: Vec<usize> = Vec::new();
        let mut clean_logs: Vec<usize> = Vec::new();
        let mut failure: bool = false;
        let mut k: usize = 0;
        proof {
            assert(finished@.take(0) =~= Seq::<FinishedChild>::empty());
        }
        while k < n
            invariant
                old(self).wf(),
                n == finished@.len(),
                finished_ids_distinct(finished@),
                k <= n,
                ots == old(self).state.tasks@,
                och == old(self).children@,
                mid_tasks == if wiped { Seq::<Task>::empty() } else { ots },
                wiped == (old(self).reset && och.len() == 0),
                self.reset == (old(self).reset && !wiped),
                self.shutdown == old(self).shutdown,
                self.pueue_directory == old(self).pueue_directory,
                self.callback == old(self).callback,
                self.pause_on_failure == old(self).pause_on_failure,
                self.state.settings == old(self).state.settings,
                self.state.running == if wiped { true } else { old(self).state.running },
                children_unique(self.children@),
                forall|x: usize| #[trigger] has_child(self.children@, x)
                    <==> (has_child(och, x) && !finished_contains(finished@.take(k as int), x)),
                self.state.tasks@.len() == mid_tasks.len(),
                forall|i: int| 0 <= i < mid_tasks.len() ==> self.state.tasks@[i]
                    == (if committed_in(ots, och, finished@.take(k as int), mid_tasks[i].id) {
                    done_version(
                        #[trigger] mid_tasks[i],
                        outcome_of(finished@, mid_tasks[i].id),
                        now,
                    )
                } else {
                    mid_tasks[i]
                }),
                completed@ == committed_ids(ots, och, finished@.take(k as int)),
                clean_logs@ == if old(self).reset && !wiped {
                    committed_ids(ots, och, finished@.take(k as int))
                } else {
                    Seq::<usize>::empty()
                },
                failure == any_committed_failure(ots, och, finished@.take(k as int)),
            decreases n - k,
        {
            proof {
                lemma_committed_ids_take_step(ots, och, finished@, k as int);
                assert(finished@.take(k as int + 1) =~= finished@.take(k as int).push(
                    finished@[k as int],
                ));
            }
            let f_id: usize = finished[k].id;
            let ghost f = finished@[k as int];
            let ghost pre_children = self.children@;
            let had = remove_child_entry(&mut self.children, f_id);
            proof {
                lemma_outcome_of(finished@, k as int);
                assert forall|x: usize| #[trigger] has_child(self.children@, x)
                        <==> (has_child(och, x)
                            && !finished_contains(finished@.take(k as int + 1), x)) by {
                    if x == f_id {
                        assert(finished@.take(k as int + 1)[k as int].id == x);
                        assert(finished_contains(finished@.take(k as int + 1), x));
                    } else {
                        assert(finished_contains(finished@.take(k as int + 1), x)
                            == finished_contains(finished@.take(k as int), x));
                    }
                }
            }
            if had {
                proof {
                    assert(has_child(pre_children, f_id));
                    assert(has_child(och, f_id));
                    assert(!finished_contains(finished@.take(k as int), f_id));
                    assert(!wiped) by {
                        if wiped {
                            assert(och.len() == 0);
                        }
                    };
                    let cj = choose|cj: int| 0 <= cj < och.len() && och[cj].id == f_id;
                    assert(has_task(ots, och[cj].id));
                    let j0 = choose|j0: int| 0 <= j0 < ots.len() && ots[j0].id == f_id;
                    assert(self.state.tasks@[j0].id == f_id);
                    assert(has_task(self.state.tasks@, f_id));
                }
                let tidx_opt = self.state.find_index(f_id);
                match tidx_opt {
                    None => {
                        proof {
                            assert(false);
                        }
                    },
                    Some(ti) => {
                        proof {
                            lemma_unique_index(ots, f_id, ti as int);
                            assert(self.state.tasks@[ti as int]
                                == (if committed_in(
                                ots,
                                och,
                                finished@.take(k as int),
                                ots[ti as int].id,
                            ) {
                                done_version(
                                    ots[ti as int],
                                    outcome_of(finished@, ots[ti as int].id),
                                    now,
                                )
                            } else {
                                ots[ti as int]
                            }));
                            assert(!committed_in(ots, och, finished@.take(k as int), f_id)) by {
                                assert(!finished_contains(finished@.take(k as int), f_id));
                            };
                            assert(self.state.tasks@[ti as int] == ots[ti as int]);
                        }
                        let is_done = self.state.tasks[ti].status == TaskStatus::Done;
                        if !is_done {
                            proof {
                                assert(commits(ots, och, f));
                                assert(committed_in(ots, och, finished@.take(k as int + 1), f_id))
                                    by {
                                    assert(finished@.take(k as int + 1)[k as int] == f);
                                };
                            }
                            let res = outcome_result(&finished[k].outcome);
                            let res_failed = !matches!(res, TaskResult::Success);
                            self.state.tasks[ti].status = TaskStatus::Done;
                            self.state.tasks[ti].result = Some(res);
                            self.state.tasks[ti].end = Some(now);
                            completed.push(f_id);
                            if self.reset {
                                clean_logs.push(f_id);
                            }
                            if res_failed {
                                failure = true;
                            }
                            proof {
                                assert(self.state.tasks@[ti as int] == done_version(
                                    mid_tasks[ti as int],
                                    outcome_of(finished@, mid_tasks[ti as int].id),
                                    now,
                                ));
                                if res_failed {
                                    assert(any_committed_failure(
                                        ots,
                                        och,
                                        finished@.take(k as int + 1),
                                    )) by {
                                        assert(finished@.take(k as int + 1)[k as int] == f);
                                    };
                                }
                            }
                        } else {
                            proof {
                                assert(!commits(ots, och, f));
                            }
                        }
                    },
                }
            } else {
                proof {
                    assert(!commits(ots, och, f) || finished_contains(
                        finished@.take(k as int),
                        f_id,
                    ));
                    if commits(ots, och, f) {
                        assert(!finished_contains(finished@.take(k as int), f_id));
                        assert(has_child(self.children@, f_id) == (has_child(och, f_id)
                            && !finished_contains(finished@.take(k as int), f_id)));
                        assert(false);
                    }
                }
            }
            proof {
                if !(failure == any_committed_failure(ots, och, finished@.take(k as int + 1))) {
                    let k2 = choose|k2: int| 0 <= k2 < finished@.take(k as int + 1).len()
                        && commits(ots, och, #[trigger] finished@.take(k as int + 1)[k2])
                        && result_failed(result_of_outcome(
                        finished@.take(k as int + 1)[k2].outcome,
                    ));
                    assert(k2 < k as int + 1);
                    assert(any_committed_failure(ots, och, finished@.take(k as int)) || k2
                        == k as int);
                    assert(false);
                }
            }
            k = k + 1;
        }
        proof {
            assert(finished@.take(n as int) =~= finished@);
        }
        if failure && self.pause_on_failure {
            self.state.running = false;
        }
        let save: bool = completed.len() > 0 || wiped;
        proof {
            assert forall|i2: int| 0 <= i2 < final(self).state.tasks@.len()
                implies #[trigger] task_wf(final(self).state.tasks@[i2])
                    && final(self).state.tasks@[i2].id == mid_tasks[i2].id by {
                assert(task_wf(mid_tasks[i2]));
            }
            assert forall|a: int, b: int| 0 <= a < b < final(self).state.tasks@.len()
                implies final(self).state.tasks@[a].id < final(self).state.tasks@[b].id by {
                assert(mid_tasks[a].id < mid_tasks[b].id);
            }
            assert forall|ci: int| 0 <= ci < final(self).children@.len()
                implies has_task(
                    final(self).state.tasks@,
                    #[trigger] final(self).children@[ci].id,
                ) by {
                let id = final(self).children@[ci].id;
                assert(has_child(final(self).children@, id));
                assert(has_child(och, id));
                assert(!wiped) by {
                    if wiped {
                        assert(och.len() == 0);
                    }
                };
                assert(has_task(ots, id));
                let j = choose|j: int| 0 <= j < ots.len() && ots[j].id == id;
                assert(final(self).state.tasks@[j].id == id);
            }
            assert forall|ti: int| 0 <= ti < final(self).state.tasks@.len()
                    && occupies_slot(#[trigger] final(self).state.tasks@[ti])
                implies has_child(
                    final(self).children@,
                    final(self).state.tasks@[ti].id,
                ) by {
                assert(final(self).state.tasks@[ti]
                    == (if committed_in(ots, och, finished@, mid_tasks[ti].id) {
                    done_version(mid_tasks[ti], outcome_of(finished@, mid_tasks[ti].id), now)
                } else {
                    mid_tasks[ti]
                }));
                assert(occupies_slot(mid_tasks[ti]));
                assert(!wiped);
                assert(has_child(och, ots[ti].id));
                assert(!committed_in(ots, och, finished@, ots[ti].id));
                if finished_contains(finished@, ots[ti].id) {
                    let k2 = choose|k2: int| 0 <= k2 < finished@.len()
                        && finished@[k2].id == ots[ti].id;
                    assert(commits(ots, och, finished@[k2])) by {
                        lemma_unique_index(ots, ots[ti].id, ti);
                    };
                    assert(false);
                }
            }
            assert(final(self).wf());
            if old(self).handle_status_consistent() {
                assert forall|ti: int| 0 <= ti < final(self).state.tasks@.len()
                    implies (occupies_slot(#[trigger] final(self).state.tasks@[ti])
                        <==> has_child(
                        final(self).children@,
                        final(self).state.tasks@[ti].id,
                    )) by {
                    assert(!wiped ==> final(self).state.tasks@[ti]
                        == (if committed_in(ots, och, finished@, mid_tasks[ti].id) {
                        done_version(mid_tasks[ti], outcome_of(finished@, mid_tasks[ti].id), now)
                    } else {
                        mid_tasks[ti]
                    }));
                    if !wiped && !occupies_slot(final(self).state.tasks@[ti]) {
                        if has_child(final(self).children@, final(self).state.tasks@[ti].id) {
                            assert(has_child(och, ots[ti].id));
                            assert(!finished_contains(finished@, ots[ti].id));
                            assert(!committed_in(ots, och, finished@, ots[ti].id));
                            assert(final(self).state.tasks@[ti] == ots[ti]);
                            assert(occupies_slot(ots[ti]));
                            assert(false);
                        }
                    }
                }
            }
        }
        Effects {
            spawns: Vec::new(),
            completed,
            stdin_write: None,
            clean_logs,
            state_wiped: wiped,
            save,
        }
    }
}

}
