//! Tick phases that mutate state and hand the daemon its OS work: the spawn
//! path, the delayed-enqueue check, and the dependency-failure cascade.

use vstd::prelude::*;
use vstd::string::StringExecFns;

use crate::handler::{ChildHandle, TaskHandler, has_child};
use crate::render::{render_template, rendered_of, string_from_chars};
use crate::state::{has_task, lemma_unique_index, occupies_slot, task_index, task_of};
use crate::task::{Task, TaskResult, TaskStatus, result_failed, result_str, result_str_spec, task_wf};

verus! {

/// Input waiting to be written to one child's stdin.
pub struct SendPayload {
    pub task_id: usize,
    pub input: String,
}

/// OS work a phase asks the daemon to perform.
pub struct Effects {
    /// Tasks to force-start through the spawn path.
    pub spawns: Vec<usize>,
    /// Tasks that newly reached `Done`: render and fire their callbacks.
    pub completed: Vec<usize>,
    /// Bytes to deliver to a child's stdin.
    pub stdin_write: Option<SendPayload>,
    /// Tasks whose log files should be deleted.
    pub clean_logs: Vec<usize>,
    /// The deferred reset wiped the task table this tick.
    pub state_wiped: bool,
    /// The state holds unsaved changes to persisted fields.
    pub save: bool,
}

impl Effects {
    /// No work at all.
    pub fn empty() -> (r: Effects)
        ensures
            r.spawns@.len() == 0,
            r.completed@.len() == 0,
            r.stdin_write is None,
            r.clean_logs@.len() == 0,
            !r.state_wiped,
            !r.save,
    {
        Effects {
            spawns: Vec::new(),
            completed: Vec::new(),
            stdin_write: None,
            clean_logs: Vec::new(),
            state_wiped: false,
            save: false,
        }
    }
}

/// Everything but the task table and the running flag is kept.
pub open spec fn frame_kept(a: TaskHandler, b: TaskHandler) -> bool {
    &&& b.children == a.children
    &&& b.reset == a.reset
    &&& b.shutdown == a.shutdown
    &&& b.pueue_directory == a.pueue_directory
    &&& b.callback == a.callback
    &&& b.pause_on_failure == a.pause_on_failure
    &&& b.state.settings == a.state.settings
}

/// A task that was already done keeps its whole record.
pub open spec fn done_preserved(a: Seq<Task>, b: Seq<Task>) -> bool {
    &&& a.len() == b.len()
    &&& forall|i: int| 0 <= i < a.len() ==> a[i].status is Done ==> b[i] == #[trigger] a[i]
}

/// What the spawner needs to start a task: its shell command and its working
/// directory.
pub struct SpawnCommand {
    pub command: String,
    pub path: String,
}

/// The outcome of preparing a spawn.
pub struct SpawnDecision {
    /// The command to launch; `None` when the task may not be started.
    pub proceed: Option<SpawnCommand>,
    /// The state holds unsaved changes to persisted fields.
    pub save: bool,
}

/// A stashed task whose delayed enqueue time has passed.
pub open spec fn delayed_ready(t: Task, now: i64) -> bool {
    &&& t.status is Stashed
    &&& t.enqueue_at matches Some(at) && at <= now
}

/// One step of the delayed-enqueue phase: promote a ready stashed task.
pub open spec fn enqueue_delayed_task(t: Task, now: i64) -> Task {
    if delayed_ready(t, now) {
        Task { status: TaskStatus::Queued, enqueue_at: None, ..t }
    } else {
        t
    }
}

/// A dependency that exists and ended in a failure result.
pub open spec fn dep_failed(tasks: Seq<Task>, d: usize) -> bool {
    &&& has_task(tasks, d)
    &&& task_of(tasks, d).result matches Some(res) && result_failed(res)
}

/// Some dependency of `t` has already failed.
pub open spec fn has_failed_dep(tasks: Seq<Task>, t: Task) -> bool {
    exists|k: int| 0 <= k < t.dependencies@.len()
        && dep_failed(tasks, #[trigger] t.dependencies@[k])
}

/// One step of the cascade: fail a queued task with a failed dependency.
pub open spec fn dep_fail_task(all: Seq<Task>, t: Task) -> Task {
    if t.status is Queued && has_failed_dep(all, t) {
        Task { status: TaskStatus::Done, result: Some(TaskResult::DependencyFailed), ..t }
    } else {
        t
    }
}

/// The ids the cascade marks within a prefix of the table, in table order.
pub open spec fn dep_failed_ids(all: Seq<Task>, upto: Seq<Task>) -> Seq<usize>
    decreases upto.len(),
{
    if upto.len() == 0 {
        Seq::empty()
    } else {
        dep_failed_ids(all, upto.drop_last()) + if upto.last().status is Queued
            && has_failed_dep(all, upto.last()) {
            seq![upto.last().id]
        } else {
            Seq::empty()
        }
    }
}

proof fn lemma_dep_failed_ids_take_step(all: Seq<Task>, i: int)
    requires
        0 <= i < all.len(),
    ensures
        dep_failed_ids(all, all.take(i + 1)) == dep_failed_ids(all, all.take(i))
            + if all[i].status is Queued && has_failed_dep(all, all[i]) {
            seq![all[i].id]
        } else {
            Seq::<usize>::empty()
        },
{
    assert(all.take(i + 1).drop_last() =~= all.take(i));
    assert(all.take(i + 1).last() == all[i]);
}

/// Whether some dependency of `t` has failed, by scanning the table.
pub fn failed_dep_of(tasks: &Vec<Task>, t: &Task) -> (r: bool)
    requires
        crate::state::tasks_sorted(tasks@),
    ensures
        r == has_failed_dep(tasks@, *t),
{
    let n: usize = t.dependencies.len();
    let mut k: usize = 0;
    while k < n
        invariant
            crate::state::tasks_sorted(tasks@),
            n == t.dependencies@.len(),
            k <= n,
            forall|m: int| 0 <= m < k ==> !dep_failed(tasks@, #[trigger] t.dependencies@[m]),
        decreases n - k,
    {
        let d: usize = t.dependencies[k];
        let found = crate::handler::find_in(tasks, d);
        match found {
            Some(j) => {
                proof {
                    lemma_unique_index(tasks@, d, j as int);
                }
                if tasks[j].failed() {
                    return true;
                }
            },
            None => {},
        }
        k = k + 1;
    }
    false
}

impl TaskHandler {
    /// Render the configured callback template for a finished task: the
    /// variables are the task's id, command, path, and the canonical string
    /// of its result. `None` when no template is configured, the task is not
    /// done, or strict rendering fails.
    pub fn spawn_callback(&self, t: &Task) -> (r: Option<String>)
        ensures
            (self.callback is None || t.result is None) ==> r is None,
            self.callback matches Some(template) ==> t.result matches Some(res) ==> match r {
                Some(s) => rendered_of(
                    template@,
                    t.id,
                    t.command@,
                    t.path@,
                    result_str_spec(res),
                ) == Some(s@),
                None => rendered_of(
                    template@,
                    t.id,
                    t.command@,
                    t.path@,
                    result_str_spec(res),
                ) is None,
            },
    {
        let template = match &self.callback {
            Some(c) => c,
            None => {
                return None;
            },
        };
        let res = match &t.result {
            Some(r) => r,
            None => {
                return None;
            },
        };
        let chars = result_str(res);
        let rendered = string_from_chars(&chars);
        render_template(template, t.id, &t.command, &t.path, &rendered)
    }

    /// The delayed-enqueue phase at a given clock reading: every stashed task
    /// whose `enqueue_at` has passed becomes queued, with the delay cleared.
    /// Returns whether anything changed, i.e. whether a save is owed.
    pub fn enqueue_delayed(&mut self, now: i64) -> (r: bool)
        requires
            old(self).wf(),
        ensures
            final(self).wf(),
            frame_kept(*old(self), *final(self)),
            final(self).state.running == old(self).state.running,
            final(self).state.tasks@.len() == old(self).state.tasks@.len(),
            forall|i: int| 0 <= i < old(self).state.tasks@.len()
                ==> final(self).state.tasks@[i]
                    == enqueue_delayed_task(#[trigger] old(self).state.tasks@[i], now),
            r == exists|i: int| 0 <= i < old(self).state.tasks@.len()
                && delayed_ready(#[trigger] old(self).state.tasks@[i], now),
            r == (final(self).state.tasks@ != old(self).state.tasks@),
            done_preserved(old(self).state.tasks@, final(self).state.tasks@),
            old(self).handle_status_consistent() ==> final(self).handle_status_consistent(),
    {
        let n: usize = self.state.tasks.len();
        let mut changed: bool = false;
        let mut i: usize = 0;
        while i < n
            invariant
                n == self.state.tasks@.len(),
                n == old(self).state.tasks@.len(),
                i <= n,
                frame_kept(*old(self), *self),
                self.state.running == old(self).state.running,
                forall|j: int| 0 <= j < i ==> self.state.tasks@[j]
                    == enqueue_delayed_task(#[trigger] old(self).state.tasks@[j], now),
                forall|j: int| i <= j < n ==> self.state.tasks@[j]
                    == #[trigger] old(self).state.tasks@[j],
                changed == exists|j: int| 0 <= j < i
                    && delayed_ready(#[trigger] old(self).state.tasks@[j], now),
            decreases n - i,
        {
            let ghost old_t = old(self).state.tasks@[i as int];
            proof {
                assert(self.state.tasks@[i as int] == old_t);
            }
            let is_stashed = self.state.tasks[i].status == TaskStatus::Stashed;
            let mut flipped: bool = false;
            if is_stashed {
                let due = match self.state.tasks[i].enqueue_at {
                    Some(at) => at <= now,
                    None => false,
                };
                if due {
                    self.state.tasks[i].status = TaskStatus::Queued;
                    self.state.tasks[i].enqueue_at = None;
                    changed = true;
                    flipped = true;
                }
            }
            proof {
                if flipped {
                    assert(delayed_ready(old_t, now));
                    assert(self.state.tasks@[i as int] == enqueue_delayed_task(old_t, now));
                } else {
                    assert(!delayed_ready(old_t, now));
                    assert(self.state.tasks@[i as int] == enqueue_delayed_task(old_t, now));
                }
            }
            i = i + 1;
        }
        proof {
            assert forall|i2: int| 0 <= i2 < final(self).state.tasks@.len()
                implies #[trigger] task_wf(final(self).state.tasks@[i2])
                    && final(self).state.tasks@[i2].id == old(self).state.tasks@[i2].id by {
                assert(task_wf(old(self).state.tasks@[i2]));
                assert(final(self).state.tasks@[i2]
                    == enqueue_delayed_task(old(self).state.tasks@[i2], now));
            }
            assert forall|a: int, b: int| 0 <= a < b < final(self).state.tasks@.len()
                implies final(self).state.tasks@[a].id < final(self).state.tasks@[b].id by {
                assert(old(self).state.tasks@[a].id < old(self).state.tasks@[b].id);
            }
            assert forall|ci: int| 0 <= ci < final(self).children@.len()
                implies has_task(
                    final(self).state.tasks@,
                    #[trigger] final(self).children@[ci].id,
                ) by {
                let id = final(self).children@[ci].id;
                assert(has_task(old(self).state.tasks@, id));
                let j = choose|j: int| 0 <= j < old(self).state.tasks@.len()
                    && old(self).state.tasks@[j].id == id;
                assert(final(self).state.tasks@[j].id == id);
            }
            assert forall|ti: int| 0 <= ti < final(self).state.tasks@.len()
                    && occupies_slot(#[trigger] final(self).state.tasks@[ti])
                implies occupies_slot(old(self).state.tasks@[ti])
                    && final(self).state.tasks@[ti].id == old(self).state.tasks@[ti].id by {
                assert(final(self).state.tasks@[ti]
                    == enqueue_delayed_task(old(self).state.tasks@[ti], now));
            }
            assert(final(self).wf());
            if old(self).handle_status_consistent() {
                assert forall|ti: int| 0 <= ti < final(self).state.tasks@.len()
                    implies (occupies_slot(#[trigger] final(self).state.tasks@[ti])
                        <==> has_child(
                        final(self).children@,
                        final(self).state.tasks@[ti].id,
                    )) by {
                    assert(final(self).state.tasks@[ti]
                        == enqueue_delayed_task(old(self).state.tasks@[ti], now));
                    assert(occupies_slot(old(self).state.tasks@[ti])
                        <==> has_child(old(self).children@, old(self).state.tasks@[ti].id));
                }
            }
            if changed {
                let iw = choose|iw: int| 0 <= iw < old(self).state.tasks@.len()
                    && delayed_ready(#[trigger] old(self).state.tasks@[iw], now);
                assert(final(self).state.tasks@[iw]
                    == enqueue_delayed_task(old(self).state.tasks@[iw], now));
                assert(final(self).state.tasks@[iw].status is Queued);
                assert(final(self).state.tasks@[iw] != old(self).state.tasks@[iw]);
                assert(final(self).state.tasks@ != old(self).state.tasks@);
            } else {
                assert forall|i2: int| 0 <= i2 < final(self).state.tasks@.len()
                    implies final(self).state.tasks@[i2]
                        == #[trigger] old(self).state.tasks@[i2] by {
                    assert(final(self).state.tasks@[i2]
                        == enqueue_delayed_task(old(self).state.tasks@[i2], now));
                    assert(!delayed_ready(old(self).state.tasks@[i2], now));
                }
                assert(final(self).state.tasks@ =~= old(self).state.tasks@);
            }
        }
        changed
    }

    /// The delayed-enqueue phase against the wall clock.
    pub fn check_stashed(&mut self) -> (r: bool)
        requires
            old(self).wf(),
        ensures
            final(self).wf(),
            frame_kept(*old(self), *final(self)),
            final(self).state.running == old(self).state.running,
            final(self).state.tasks@.len() == old(self).state.tasks@.len(),
            forall|i: int| 0 <= i < old(self).state.tasks@.len()
                ==> final(self).state.tasks@[i] == #[trigger] old(self).state.tasks@[i]
                    || (old(self).state.tasks@[i].status is Stashed
                        && old(self).state.tasks@[i].enqueue_at is Some
                        && final(self).state.tasks@[i] == Task {
                            status: TaskStatus::Queued,
                            enqueue_at: None,
                            ..old(self).state.tasks@[i]
                        }),
            r == (final(self).state.tasks@ != old(self).state.tasks@),
            done_preserved(old(self).state.tasks@, final(self).state.tasks@),
            old(self).handle_status_consistent() ==> final(self).handle_status_consistent(),
    {
        let now: i64 = crate::clock::now_millis();
        self.enqueue_delayed(now)
    }

    /// The dependency-failure cascade: every queued task one of whose
    /// dependencies ended in a failure result becomes `Done` with
    /// `DependencyFailed`. The returned effects carry the ids that completed,
    /// in table order, and whether a save is owed.
    pub fn check_failed_dependencies(&mut self) -> (r: Effects)
        requires
            old(self).wf(),
        ensures
            final(self).wf(),
            frame_kept(*old(self), *final(self)),
            final(self).state.running == old(self).state.running,
            final(self).state.tasks@.len() == old(self).state.tasks@.len(),
            forall|i: int| 0 <= i < old(self).state.tasks@.len()
                ==> final(self).state.tasks@[i]
                    == dep_fail_task(old(self).state.tasks@, #[trigger] old(self).state.tasks@[i]),
            r.completed@ == dep_failed_ids(old(self).state.tasks@, old(self).state.tasks@),
            r.save == (r.completed@.len() > 0),
            r.spawns@.len() == 0,
            r.stdin_write is None,
            r.clean_logs@.len() == 0,
            !r.state_wiped,
            done_preserved(old(self).state.tasks@, final(self).state.tasks@),
            old(self).handle_status_consistent() ==> final(self).handle_status_consistent(),
    {
        let ghost all = self.state.tasks@;
        let n: usize = self.state.tasks.len();
        let mut marked: Vec<usize> = Vec::new();
        let mut ids: Vec<usize> = Vec::new();
        let mut i: usize = 0;
        proof {
            assert(all.take(0) =~= Seq::<Task>::empty());
        }
        while i < n
            invariant
                self == old(self),
                n == self.state.tasks@.len(),
                all == self.state.tasks@,
                self.wf(),
                i <= n,
                ids@ == dep_failed_ids(all, all.take(i as int)),
                marked@.len() == ids@.len(),
                forall|m: int| 0 <= m < marked@.len() ==> #[trigger] marked@[m] < i
                    && all[marked@[m] as int].status is Queued
                    && has_failed_dep(all, all[marked@[m] as int])
                    && ids@[m] == all[marked@[m] as int].id,
                forall|m1: int, m2: int| 0 <= m1 < m2 < marked@.len()
                    ==> marked@[m1] < marked@[m2],
                forall|j: int| 0 <= j < i
                    ==> (all[j].status is Queued && has_failed_dep(all, #[trigger] all[j]))
                        ==> exists|m: int| 0 <= m < marked@.len() && marked@[m] == j,
            decreases n - i,
        {
            proof {
                lemma_dep_failed_ids_take_step(all, i as int);
            }
            let ghost pre_marked = marked@;
            let is_queued = self.state.tasks[i].status == TaskStatus::Queued;
            let mut pushed: bool = false;
            if is_queued {
                let has_failed = failed_dep_of(&self.state.tasks, &self.state.tasks[i]);
                if has_failed {
                    marked.push(i);
                    ids.push(self.state.tasks[i].id);
                    pushed = true;
                }
            }
            proof {
                assert forall|j: int| 0 <= j < i + 1
                        && (all[j].status is Queued && has_failed_dep(all, all[j]))
                    implies exists|m: int| 0 <= m < marked@.len() && marked@[m] == j by {
                    if j == i as int {
                        assert(pushed);
                        assert(marked@[marked@.len() - 1] == j);
                    } else {
                        let m0 = choose|m: int| 0 <= m < pre_marked.len() && pre_marked[m] == j;
                        assert(marked@[m0] == j);
                    }
                }
            }
            i = i + 1;
        }
        proof {
            assert(all.take(n as int) =~= all);
        }
        let m_len: usize = marked.len();
        let mut k: usize = 0;
        while k < m_len
            invariant
                m_len == marked@.len(),
                k <= m_len,
                frame_kept(*old(self), *self),
                self.state.running == old(self).state.running,
                self.state.tasks@.len() == all.len(),
                all == old(self).state.tasks@,
                forall|m: int| 0 <= m < marked@.len() ==> #[trigger] marked@[m] < all.len()
                    && all[marked@[m] as int].status is Queued
                    && has_failed_dep(all, all[marked@[m] as int]),
                forall|m1: int, m2: int| 0 <= m1 < m2 < marked@.len()
                    ==> marked@[m1] < marked@[m2],
                forall|j: int| 0 <= j < all.len()
                    ==> (all[j].status is Queued && has_failed_dep(all, #[trigger] all[j]))
                        ==> exists|m: int| 0 <= m < marked@.len() && marked@[m] == j,
                forall|m: int| 0 <= m < k ==> self.state.tasks@[marked@[m] as int]
                    == dep_fail_task(all, all[#[trigger] marked@[m] as int]),
                forall|j: int| 0 <= j < all.len()
                    ==> (forall|m: int| 0 <= m < k ==> marked@[m] != j)
                        ==> self.state.tasks@[j] == #[trigger] all[j],
            decreases m_len - k,
        {
            let idx: usize = marked[k];
            self.state.tasks[idx].status = TaskStatus::Done;
            self.state.tasks[idx].result = Some(TaskResult::DependencyFailed);
            k = k + 1;
        }
        proof {
            assert forall|i2: int| 0 <= i2 < final(self).state.tasks@.len()
                implies final(self).state.tasks@[i2]
                    == dep_fail_task(all, #[trigger] all[i2]) by {
                if all[i2].status is Queued && has_failed_dep(all, all[i2]) {
                    let m = choose|m: int| 0 <= m < marked@.len() && marked@[m] == i2;
                    assert(final(self).state.tasks@[marked@[m] as int]
                        == dep_fail_task(all, all[marked@[m] as int]));
                }
            }
            assert forall|i2: int| 0 <= i2 < final(self).state.tasks@.len()
                implies #[trigger] task_wf(final(self).state.tasks@[i2])
                    && final(self).state.tasks@[i2].id == all[i2].id by {
                assert(task_wf(all[i2]));
                assert(final(self).state.tasks@[i2] == dep_fail_task(all, all[i2]));
            }
            assert forall|a: int, b: int| 0 <= a < b < final(self).state.tasks@.len()
                implies final(self).state.tasks@[a].id < final(self).state.tasks@[b].id by {
                assert(all[a].id < all[b].id);
            }
            assert forall|ci: int| 0 <= ci < final(self).children@.len()
                implies has_task(
                    final(self).state.tasks@,
                    #[trigger] final(self).children@[ci].id,
                ) by {
                let id = final(self).children@[ci].id;
                assert(has_task(all, id));
                let j = choose|j: int| 0 <= j < all.len() && all[j].id == id;
                assert(final(self).state.tasks@[j].id == id);
            }
            assert forall|ti: int| 0 <= ti < final(self).state.tasks@.len()
                    && occupies_slot(#[trigger] final(self).state.tasks@[ti])
                implies occupies_slot(all[ti]) && final(self).state.tasks@[ti].id
                    == all[ti].id by {
                assert(final(self).state.tasks@[ti] == dep_fail_task(all, all[ti]));
            }
            assert(final(self).wf());
            if old(self).handle_status_consistent() {
                assert forall|ti: int| 0 <= ti < final(self).state.tasks@.len()
                    implies (occupies_slot(#[trigger] final(self).state.tasks@[ti])
                        <==> has_child(
                        final(self).children@,
                        final(self).state.tasks@[ti].id,
                    )) by {
                    assert(final(self).state.tasks@[ti] == dep_fail_task(all, all[ti]));
                    assert(occupies_slot(all[ti]) <==> has_child(old(self).children@, all[ti].id));
                }
            }
        }
        let save: bool = ids.len() > 0;
        Effects {
            spawns: Vec::new(),
            completed: ids,
            stdin_write: None,
            clean_logs: Vec::new(),
            state_wiped: false,
            save,
        }
    }
}

}
