//! The library's standing guarantees, stated and proved over the same spec
//! functions the phase contracts use.

use vstd::prelude::*;

use crate::handler::{dep_satisfied, deps_satisfied, eligible, lemma_group_load_update,
    slot_contrib};
use crate::phases::{enqueue_delayed_task, delayed_ready};
use crate::state::{Settings, effective_group, group_capacity, group_load, has_task,
    task_index, task_of};
use crate::task::{Task, TaskResult, TaskStatus};

verus! {

/// The slot bound: no group with a configured budget holds more running or
/// paused tasks than that budget.
pub open spec fn slot_bound(settings: Settings, tasks: Seq<Task>) -> bool {
    forall|g: Seq<char>| (#[trigger] group_capacity(settings, g)) matches Some(cap)
        ==> group_load(tasks, g) <= cap
}

/// Slot bound under launches: when the scheduler's pick at index `i` is
/// eligible (in particular its group has a free slot), replacing it with any
/// record of the same group — the running record the spawner commits — keeps
/// every group within its budget.
pub proof fn slot_bound_preserved_by_launch(
    settings: Settings,
    tasks: Seq<Task>,
    i: int,
    t2: Task,
)
    requires
        slot_bound(settings, tasks),
        0 <= i < tasks.len(),
        tasks[i].status is Queued,
        group_capacity(settings, effective_group(tasks[i])) matches Some(cap)
            && group_load(tasks, effective_group(tasks[i])) < cap,
        t2.group == tasks[i].group,
    ensures
        slot_bound(settings, tasks.update(i, t2)),
{
    assert forall|g: Seq<char>| (#[trigger] group_capacity(settings, g)) is Some
        implies group_load(tasks.update(i, t2), g) <= group_capacity(settings, g).unwrap() by {
        lemma_group_load_update(tasks, i, t2, g);
        assert(slot_contrib(tasks[i], g) == 0);
        assert(effective_group(t2) == effective_group(tasks[i]));
        if effective_group(t2) == g {
            assert(group_load(tasks, g) < group_capacity(settings, g).unwrap());
        } else {
            assert(slot_contrib(t2, g) == 0);
        }
    }
}

/// Slot bound across one whole scheduled launch: the record the scheduler
/// picked, replaced by the running record the spawner commits on success,
/// leaves every group within its budget.
pub proof fn slot_bound_after_scheduled_launch(s: crate::state::State, id: usize, now: i64)
    requires
        s.wf(),
        slot_bound(s.settings, s.tasks@),
        has_task(s.tasks@, id),
        eligible(s, task_index(s.tasks@, id)),
    ensures
        slot_bound(
            s.settings,
            s.tasks@.update(
                task_index(s.tasks@, id),
                Task { status: TaskStatus::Running, start: Some(now), ..task_of(s.tasks@, id) },
            ),
        ),
{
    let i = task_index(s.tasks@, id);
    let t2 = Task { status: TaskStatus::Running, start: Some(now), ..task_of(s.tasks@, id) };
    slot_bound_preserved_by_launch(s.settings, s.tasks@, i, t2);
}

/// Group loads never grow when no record's slot contribution grows: the
/// reaper, the cascade, pauses, kills and delayed enqueues only keep or
/// vacate slots, so they keep the slot bound.
pub proof fn lemma_group_load_mono(a: Seq<Task>, b: Seq<Task>, g: Seq<char>)
    requires
        a.len() == b.len(),
        forall|i: int| 0 <= i < a.len() ==> #[trigger] slot_contrib(b[i], g)
            <= slot_contrib(a[i], g),
    ensures
        group_load(b, g) <= group_load(a, g),
    decreases a.len(),
{
    if a.len() > 0 {
        lemma_group_load_mono(a.drop_last(), b.drop_last(), g);
        assert(slot_contrib(b.last(), g) <= slot_contrib(a.last(), g));
    }
}

/// Slot bound under slot-vacating transitions.
pub proof fn slot_bound_preserved_by_release(settings: Settings, a: Seq<Task>, b: Seq<Task>)
    requires
        slot_bound(settings, a),
        a.len() == b.len(),
        forall|i: int, g: Seq<char>| 0 <= i < a.len() ==> #[trigger] slot_contrib(b[i], g)
            <= slot_contrib(a[i], g),
    ensures
        slot_bound(settings, b),
{
    assert forall|g: Seq<char>| (#[trigger] group_capacity(settings, g)) is Some
        implies group_load(b, g) <= group_capacity(settings, g).unwrap() by {
        lemma_group_load_mono(a, b, g);
    }
}

/// Dependency safety: a task the scheduler finds eligible — the only way a
/// queued task reaches the spawn path outside a forced start — has every
/// dependency present, done, and successful; none has a failure result.
pub proof fn dependency_safety(s: crate::state::State, id: usize)
    requires
        s.wf(),
        has_task(s.tasks@, id),
        eligible(s, task_index(s.tasks@, id)),
    ensures
        deps_satisfied(s.tasks@, task_of(s.tasks@, id)),
        forall|k: int| 0 <= k < task_of(s.tasks@, id).dependencies@.len()
            ==> task_of(s.tasks@, #[trigger] task_of(s.tasks@, id).dependencies@[k]).result
                == Some(TaskResult::Success),
{
    let t = task_of(s.tasks@, id);
    assert forall|k: int| 0 <= k < t.dependencies@.len()
        implies task_of(s.tasks@, #[trigger] t.dependencies@[k]).result
            == Some(TaskResult::Success) by {
        assert(dep_satisfied(s.tasks@, t.dependencies@[k]));
    }
}

/// What one pass of the delayed-enqueue phase yields for a whole table.
pub open spec fn enqueue_delayed_all(tasks: Seq<Task>, now: i64) -> Seq<Task> {
    tasks.map_values(|t: Task| enqueue_delayed_task(t, now))
}

/// Delayed-enqueue idempotence: applying the phase twice in a row at the
/// same clock reading is the same as applying it once.
pub proof fn delayed_enqueue_idempotent(tasks: Seq<Task>, now: i64)
    ensures
        enqueue_delayed_all(enqueue_delayed_all(tasks, now), now)
            == enqueue_delayed_all(tasks, now),
{
    let once = enqueue_delayed_all(tasks, now);
    let twice = enqueue_delayed_all(once, now);
    assert forall|i: int| 0 <= i < tasks.len() implies twice[i] == #[trigger] once[i] by {
        assert(once[i] == enqueue_delayed_task(tasks[i], now));
        assert(!delayed_ready(once[i], now));
    }
    assert(twice =~= once);
}

/// A clean exit commits a success, in general: when the reaper's report
/// lists a running task whose child exited with code zero, the report
/// commits exactly that task, the record the reaper's contract installs for
/// it is `Done` with `Success`, with the start stamp kept and the end stamp
/// set, and no failure is committed — so a save is owed and, by the reap
/// contract, the handle is dropped and pause-on-failure stays untouched.
pub proof fn clean_exit_commits_success(
    tasks: Seq<Task>,
    children: Seq<crate::handler::ChildHandle>,
    id: usize,
    now: i64,
)
    requires
        crate::state::tasks_sorted(tasks),
        has_task(tasks, id),
        task_of(tasks, id).status is Running,
        task_of(tasks, id).start is Some,
        crate::handler::has_child(children, id),
    ensures
        ({
            let report = seq![
                crate::reaper::FinishedChild {
                    id,
                    outcome: crate::reaper::ExitOutcome::Exited { code: Some(0) },
                },
            ];
            &&& crate::reaper::finished_ids_distinct(report)
            &&& crate::reaper::committed_in(tasks, children, report, id)
            &&& crate::reaper::committed_ids(tasks, children, report) == seq![id]
            &&& !crate::reaper::any_committed_failure(tasks, children, report)
            &&& ({
                let d = crate::reaper::done_version(
                    task_of(tasks, id),
                    crate::reaper::outcome_of(report, id),
                    now,
                );
                &&& d.id == id
                &&& d.status is Done
                &&& d.result == Some(TaskResult::Success)
                &&& d.start is Some
                &&& d.end == Some(now)
            })
        }),
{
    let f = crate::reaper::FinishedChild {
        id,
        outcome: crate::reaper::ExitOutcome::Exited { code: Some(0) },
    };
    let report = seq![f];
    assert(report[0] == f);
    assert(crate::reaper::commits(tasks, children, f));
    assert(crate::reaper::committed_in(tasks, children, report, id));
    assert(report.drop_last() =~= Seq::<crate::reaper::FinishedChild>::empty());
    assert(report.last() == f);
    assert(crate::reaper::committed_ids(
        tasks,
        children,
        Seq::<crate::reaper::FinishedChild>::empty(),
    ) == Seq::<usize>::empty());
    assert(crate::reaper::committed_ids(tasks, children, report)
        == Seq::<usize>::empty() + seq![id]);
    assert(crate::reaper::committed_ids(tasks, children, report) =~= seq![id]);
    let k = choose|k: int| 0 <= k < report.len() && report[k].id == id;
    assert(k == 0);
    assert(crate::reaper::outcome_of(report, id) == f.outcome);
    if crate::reaper::any_committed_failure(tasks, children, report) {
        let k2 = choose|k2: int| 0 <= k2 < report.len()
            && crate::reaper::commits(tasks, children, report[k2])
            && crate::task::result_failed(
            crate::reaper::result_of_outcome(report[k2].outcome),
        );
        assert(k2 == 0);
        assert(crate::reaper::result_of_outcome(report[0].outcome)
            == TaskResult::Success);
        assert(false);
    }
}

/// Monotone completion composes: if no done record changed from `a` to `b`,
/// nor from `b` to `c`, none changed from `a` to `c`. With the
/// `done_preserved` clause on every phase, a record that reaches `Done`
/// keeps its status and result through any run of phases.
pub proof fn monotone_completion_trans(a: Seq<Task>, b: Seq<Task>, c: Seq<Task>)
    requires
        crate::phases::done_preserved(a, b),
        crate::phases::done_preserved(b, c),
    ensures
        crate::phases::done_preserved(a, c),
{
    assert forall|i: int| 0 <= i < a.len() && a[i].status is Done
        implies c[i] == #[trigger] a[i] by {
        assert(b[i] == a[i]);
    }
}

}
