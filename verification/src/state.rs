//! The authoritative store: the task table, the daemon's running flag, and the
//! settings that bound scheduling.

use vstd::prelude::*;

use crate::task::{Task, TaskStatus, task_wf};

verus! {

/// One named parallelism bucket and its slot budget.
pub struct GroupEntry {
    pub name: String,
    pub max_parallel: usize,
}

/// Daemon settings that the scheduling core reads.
pub struct Settings {
    pub groups: Vec<GroupEntry>,
    pub default_parallel_tasks: usize,
    pub pause_on_failure: bool,
    pub callback: Option<String>,
    pub pueue_directory: String,
}

/// The in-memory authoritative state.
pub struct State {
    pub tasks: Vec<Task>,
    pub running: bool,
    pub settings: Settings,
}

/// The name of the implicit group for tasks without one.
pub open spec fn default_group_name() -> Seq<char> {
    "default"@
}

/// The group a task occupies a slot in.
pub open spec fn effective_group(t: Task) -> Seq<char> {
    match t.group {
        Some(g) => g@,
        None => default_group_name(),
    }
}

/// Whether a task holds a slot in its group: paused tasks still do.
pub open spec fn occupies_slot(t: Task) -> bool {
    t.status is Running || t.status is Paused
}

/// How many tasks hold a slot in group `g`.
pub open spec fn group_load(tasks: Seq<Task>, g: Seq<char>) -> nat
    decreases tasks.len(),
{
    if tasks.len() == 0 {
        0
    } else {
        group_load(tasks.drop_last(), g) + if occupies_slot(tasks.last())
            && effective_group(tasks.last()) == g {
            1nat
        } else {
            0nat
        }
    }
}

/// The slot budget of the first settings entry named `g`, if any.
pub open spec fn find_group_spec(groups: Seq<GroupEntry>, g: Seq<char>) -> Option<usize>
    decreases groups.len(),
{
    if groups.len() == 0 {
        None
    } else if groups.first().name@ == g {
        Some(groups.first().max_parallel)
    } else {
        find_group_spec(groups.drop_first(), g)
    }
}

/// The slot budget of group `g`: the implicit default group always has one;
/// other groups only when the settings name them.
pub open spec fn group_capacity(s: Settings, g: Seq<char>) -> Option<usize> {
    if g == default_group_name() {
        Some(s.default_parallel_tasks)
    } else {
        find_group_spec(s.groups@, g)
    }
}

/// Whether some task in `tasks` has id `id`.
pub open spec fn has_task(tasks: Seq<Task>, id: usize) -> bool {
    exists|j: int| 0 <= j < tasks.len() && tasks[j].id == id
}

/// The index of the task with id `id`; meaningful under `has_task`.
pub open spec fn task_index(tasks: Seq<Task>, id: usize) -> int {
    choose|j: int| 0 <= j < tasks.len() && tasks[j].id == id
}

/// The task with id `id`; meaningful under `has_task`.
pub open spec fn task_of(tasks: Seq<Task>, id: usize) -> Task {
    tasks[task_index(tasks, id)]
}

/// Task ids strictly increase along the table: unique ids, ascending order.
pub open spec fn tasks_sorted(tasks: Seq<Task>) -> bool {
    forall|i: int, j: int| 0 <= i < j < tasks.len() ==> tasks[i].id < tasks[j].id
}

/// Every record in the table is well formed.
pub open spec fn tasks_wf(tasks: Seq<Task>) -> bool {
    forall|i: int| 0 <= i < tasks.len() ==> #[trigger] task_wf(tasks[i])
}

/// What flipping a live task's status yields: the table with that task's
/// status replaced, when the task exists and is currently `Running` or
/// `Paused`; the table unchanged otherwise.
pub open spec fn change_status_spec(tasks: Seq<Task>, id: usize, status: TaskStatus) -> Seq<Task> {
    if has_task(tasks, id) && (task_of(tasks, id).status is Running
        || task_of(tasks, id).status is Paused) {
        tasks.update(task_index(tasks, id), Task { status, ..tasks[task_index(tasks, id)] })
    } else {
        tasks
    }
}

impl State {
    /// Well-formed state: a sorted task table of well-formed records.
    pub open spec fn wf(&self) -> bool {
        &&& tasks_sorted(self.tasks@)
        &&& tasks_wf(self.tasks@)
    }

    /// Append a fresh record, as the request path does. Its id must be larger
    /// than every id already present, which keeps the table sorted.
    pub fn add_task(&mut self, t: Task)
        requires
            old(self).wf(),
            task_wf(t),
            forall|i: int| 0 <= i < old(self).tasks@.len() ==> old(self).tasks@[i].id < t.id,
        ensures
            final(self).wf(),
            final(self).tasks@ == old(self).tasks@.push(t),
            final(self).running == old(self).running,
            final(self).settings == old(self).settings,
    {
        self.tasks.push(t);
    }

    /// Borrow the task with the given id, if present.
    pub fn get_task(&self, id: usize) -> (r: Option<&Task>)
        ensures
            match r {
                Some(t) => has_task(self.tasks@, id) && exists|j: int|
                    0 <= j < self.tasks@.len() && self.tasks@[j].id == id && self.tasks@[j] == *t,
                None => !has_task(self.tasks@, id),
            },
    {
        let n: usize = self.tasks.len();
        let mut i: usize = 0;
        while i < n
            invariant
                n == self.tasks@.len(),
                i <= n,
                forall|j: int| 0 <= j < i ==> self.tasks@[j].id != id,
            decreases n - i,
        {
            if self.tasks[i].id == id {
                return Some(&self.tasks[i]);
            }
            i = i + 1;
        }
        None
    }

    /// The index of the task with the given id, if present.
    pub fn find_index(&self, id: usize) -> (r: Option<usize>)
        ensures
            match r {
                Some(j) => j < self.tasks@.len() && self.tasks@[j as int].id == id,
                None => !has_task(self.tasks@, id),
            },
    {
        let n: usize = self.tasks.len();
        let mut i: usize = 0;
        while i < n
            invariant
                n == self.tasks@.len(),
                i <= n,
                forall|j: int| 0 <= j < i ==> self.tasks@[j].id != id,
            decreases n - i,
        {
            if self.tasks[i].id == id {
                return Some(i);
            }
            i = i + 1;
        }
        None
    }

    /// Flip a live task between `Running` and `Paused`. A missing or already
    /// terminal task is left alone, so a completed record never changes.
    pub fn change_status(&mut self, id: usize, status: TaskStatus)
        requires
            old(self).wf(),
            status is Running || status is Paused,
        ensures
            final(self).wf(),
            final(self).running == old(self).running,
            final(self).settings == old(self).settings,
            final(self).tasks@ == change_status_spec(old(self).tasks@, id, status),
    {
        let idx_opt = self.find_index(id);
        match idx_opt {
            Some(i) => {
                proof {
                    lemma_unique_index(self.tasks@, id, i as int);
                }
                let st = self.tasks[i].status;
                if st == TaskStatus::Running || st == TaskStatus::Paused {
                    self.tasks[i].status = status;
                    proof {
                        assert(task_wf(old(self).tasks@[i as int]));
                        assert(task_wf(final(self).tasks@[i as int]));
                        assert(final(self).wf());
                    }
                } else {
                    proof {
                        assert(final(self).tasks@ =~= old(self).tasks@);
                    }
                }
            },
            None => {},
        }
    }

    /// Wipe the task table, as the deferred reset does once no child is left.
    pub fn reset(&mut self)
        ensures
            final(self).wf(),
            final(self).tasks@.len() == 0,
            final(self).running == old(self).running,
            final(self).settings == old(self).settings,
    {
        self.tasks.clear();
    }
}

/// In a sorted table, the task id found at one index pins that index as the
/// one the spec-level lookup denotes.
pub proof fn lemma_unique_index(tasks: Seq<Task>, id: usize, i: int)
    requires
        tasks_sorted(tasks),
        0 <= i < tasks.len(),
        tasks[i].id == id,
    ensures
        has_task(tasks, id),
        task_index(tasks, id) == i,
        task_of(tasks, id) == tasks[i],
{
    assert(has_task(tasks, id));
    let j = task_index(tasks, id);
    if j != i {
        if j < i {
            assert(tasks[j].id < tasks[i].id);
        } else {
            assert(tasks[i].id < tasks[j].id);
        }
    }
}

}
