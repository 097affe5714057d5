//! The task handler: owner of the child table and of every execution-state
//! transition. Each tick phase is a function here; the daemon around the
//! library performs the OS work (spawning, reaping, writing stdin, saving)
//! that the returned effects ask for, and feeds outcomes back in.

use vstd::prelude::*;

use crate::state::{
    State, default_group_name, effective_group, find_group_spec, group_capacity, group_load,
    has_task, lemma_unique_index, occupies_slot, task_index, task_of, tasks_sorted,
};
use crate::task::{Task, TaskResult, TaskStatus};

verus! {

/// A live child process: the task it runs and its OS process id.
#[derive(Clone, Copy, Debug)]
pub struct ChildHandle {
    pub id: usize,
    pub pid: i32,
}

/// A reason the daemon is being shut down.
#[derive(Clone, Copy, Debug, PartialEq, Eq, Structural)]
pub enum Shutdown {
    Graceful,
    Emergency,
}

/// The scheduling and execution engine. It owns the authoritative state and
/// the table of live children (as task id / process id pairs; the OS handles
/// themselves live with the daemon).
pub struct TaskHandler {
    pub state: State,
    pub children: Vec<ChildHandle>,
    pub reset: bool,
    pub shutdown: Option<Shutdown>,
    pub pueue_directory: String,
    pub callback: Option<String>,
    pub pause_on_failure: bool,
}

/// Whether the child table holds an entry for task `id`.
pub open spec fn has_child(children: Seq<ChildHandle>, id: usize) -> bool {
    exists|j: int| 0 <= j < children.len() && children[j].id == id
}

/// No two entries of the child table belong to the same task.
pub open spec fn children_unique(children: Seq<ChildHandle>) -> bool {
    forall|i: int, j: int| 0 <= i < j < children.len() ==> children[i].id != children[j].id
}

impl TaskHandler {
    /// Well-formed handler: well-formed state, a duplicate-free child table
    /// whose entries all name existing tasks, a child for every task that
    /// holds a slot, and settings caches that agree with the state.
    pub open spec fn wf(&self) -> bool {
        &&& self.state.wf()
        &&& children_unique(self.children@)
        &&& forall|i: int| 0 <= i < self.children@.len()
            ==> has_task(self.state.tasks@, #[trigger] self.children@[i].id)
        &&& forall|i: int| 0 <= i < self.state.tasks@.len()
            ==> occupies_slot(#[trigger] self.state.tasks@[i])
            ==> has_child(self.children@, self.state.tasks@[i].id)
        &&& self.callback == self.state.settings.callback
        &&& self.pause_on_failure == self.state.settings.pause_on_failure
        &&& self.pueue_directory == self.state.settings.pueue_directory
    }

    /// A child handle exists for a task exactly when that task holds a slot.
    /// Holds at tick boundaries; an eager kill suspends it until the next
    /// reap drops the handle.
    pub open spec fn handle_status_consistent(&self) -> bool {
        forall|i: int| 0 <= i < self.state.tasks@.len()
            ==> (occupies_slot(#[trigger] self.state.tasks@[i])
                <==> has_child(self.children@, self.state.tasks@[i].id))
    }

    /// Take ownership of a freshly restored state. Children of an earlier
    /// daemon process are gone, so no task may still hold a slot.
    pub fn new(state: State) -> (h: TaskHandler)
        requires
            state.wf(),
            forall|i: int| 0 <= i < state.tasks@.len()
                ==> !occupies_slot(#[trigger] state.tasks@[i]),
        ensures
            h.wf(),
            h.state == state,
            h.children@.len() == 0,
            !h.reset,
            h.shutdown is None,
            h.handle_status_consistent(),
    {
        let pueue_directory = state.settings.pueue_directory.clone();
        let callback = match &state.settings.callback {
            Some(c) => Some(c.clone()),
            None => None,
        };
        let pause_on_failure = state.settings.pause_on_failure;
        TaskHandler {
            state,
            children: Vec::new(),
            reset: false,
            shutdown: None,
            pueue_directory,
            callback,
            pause_on_failure,
        }
    }

    /// Whether a child handle is registered for task `id`.
    pub fn has_child_for(&self, id: usize) -> (r: bool)
        ensures
            r == has_child(self.children@, id),
    {
        let n: usize = self.children.len();
        let mut i: usize = 0;
        while i < n
            invariant
                n == self.children@.len(),
                i <= n,
                forall|j: int| 0 <= j < i ==> self.children@[j].id != id,
            decreases n - i,
        {
            if self.children[i].id == id {
                return true;
            }
            i = i + 1;
        }
        false
    }

    /// The process id recorded for task `id`, if a child is registered.
    pub fn child_pid(&self, id: usize) -> (r: Option<i32>)
        ensures
            r is Some <==> has_child(self.children@, id),
            r matches Some(p) ==> exists|j: int| 0 <= j < self.children@.len()
                && #[trigger] self.children@[j].id == id && self.children@[j].pid == p,
    {
        let n: usize = self.children.len();
        let mut i: usize = 0;
        while i < n
            invariant
                n == self.children@.len(),
                i <= n,
                forall|j: int| 0 <= j < i ==> self.children@[j].id != id,
            decreases n - i,
        {
            if self.children[i].id == id {
                return Some(self.children[i].pid);
            }
            i = i + 1;
        }
        None
    }

    /// The task ids of every live child, in table order.
    pub fn child_ids(&self) -> (r: Vec<usize>)
        ensures
            r@.len() == self.children@.len(),
            forall|j: int| 0 <= j < r@.len() ==> r@[j] == self.children@[j].id,
    {
        let n: usize = self.children.len();
        let mut out: Vec<usize> = Vec::new();
        let mut i: usize = 0;
        while i < n
            invariant
                n == self.children@.len(),
                i <= n,
                out@.len() == i,
                forall|j: int| 0 <= j < i ==> out@[j] == self.children@[j].id,
            decreases n - i,
        {
            out.push(self.children[i].id);
            i = i + 1;
        }
        out
    }
}

/// A single dependency is satisfied: it names a task that finished
/// successfully. A missing id counts as not yet satisfied.
pub open spec fn dep_satisfied(tasks: Seq<Task>, d: usize) -> bool {
    &&& has_task(tasks, d)
    &&& task_of(tasks, d).status is Done
    &&& task_of(tasks, d).result == Some(TaskResult::Success)
}

/// All dependencies of `t` are satisfied.
pub open spec fn deps_satisfied(tasks: Seq<Task>, t: Task) -> bool {
    forall|k: int| 0 <= k < t.dependencies@.len()
        ==> dep_satisfied(tasks, #[trigger] t.dependencies@[k])
}

/// The task at index `i` may be launched now: queued, a free slot in a known
/// group, and every dependency finished successfully.
pub open spec fn eligible(s: State, i: int) -> bool {
    &&& 0 <= i < s.tasks@.len()
    &&& s.tasks@[i].status is Queued
    &&& match group_capacity(s.settings, effective_group(s.tasks@[i])) {
        Some(cap) => group_load(s.tasks@, effective_group(s.tasks@[i])) < cap,
        None => false,
    }
    &&& deps_satisfied(s.tasks@, s.tasks@[i])
}

/// The implicit group's name as an owned string.
pub fn default_name() -> (r: String)
    ensures
        r@ == default_group_name(),
{
    "default".to_owned()
}

/// The group a task occupies, as an owned string.
pub fn effective_group_of(t: &Task) -> (r: String)
    ensures
        r@ == effective_group(*t),
{
    match &t.group {
        Some(g) => g.clone(),
        None => default_name(),
    }
}

/// The slot budget of the group named `g`, per the settings.
pub fn capacity_of(settings: &crate::state::Settings, g: &String) -> (r: Option<usize>)
    ensures
        r == group_capacity(*settings, g@),
{
    let dflt = default_name();
    if *g == dflt {
        return Some(settings.default_parallel_tasks);
    }
    let n: usize = settings.groups.len();
    let mut i: usize = 0;
    proof {
        assert(settings.groups@.skip(0) =~= settings.groups@);
    }
    while i < n
        invariant
            n == settings.groups@.len(),
            i <= n,
            g@ != default_group_name(),
            find_group_spec(settings.groups@, g@)
                == find_group_spec(settings.groups@.skip(i as int), g@),
        decreases n - i,
    {
        proof {
            assert(settings.groups@.skip(i as int).first() == settings.groups@[i as int]);
            assert(settings.groups@.skip(i as int).drop_first()
                =~= settings.groups@.skip(i as int + 1));
        }
        if settings.groups[i].name == *g {
            return Some(settings.groups[i].max_parallel);
        }
        i = i + 1;
    }
    proof {
        assert(settings.groups@.skip(n as int) =~= Seq::<crate::state::GroupEntry>::empty());
    }
    None
}

/// How a task at one index contributes to its group's load.
pub open spec fn slot_contrib(t: Task, g: Seq<char>) -> nat {
    if occupies_slot(t) && effective_group(t) == g {
        1nat
    } else {
        0nat
    }
}

/// Extending the counted prefix by one task adds that task's contribution.
proof fn lemma_group_load_take_step(tasks: Seq<Task>, g: Seq<char>, i: int)
    requires
        0 <= i < tasks.len(),
    ensures
        group_load(tasks.take(i + 1), g) == group_load(tasks.take(i), g)
            + slot_contrib(tasks[i], g),
{
    assert(tasks.take(i + 1).drop_last() =~= tasks.take(i));
    assert(tasks.take(i + 1).last() == tasks[i]);
}

/// Replacing one task changes its group loads by the difference of the old
/// and new contributions, and no other load.
pub proof fn lemma_group_load_update(tasks: Seq<Task>, i: int, t: Task, g: Seq<char>)
    requires
        0 <= i < tasks.len(),
    ensures
        group_load(tasks.update(i, t), g) + slot_contrib(tasks[i], g)
            == group_load(tasks, g) + slot_contrib(t, g),
    decreases tasks.len(),
{
    if i == tasks.len() - 1 {
        assert(tasks.update(i, t).drop_last() =~= tasks.drop_last());
        assert(tasks.update(i, t).last() == t);
    } else {
        assert(tasks.update(i, t).drop_last() =~= tasks.drop_last().update(i, t));
        assert(tasks.update(i, t).last() == tasks.last());
        lemma_group_load_update(tasks.drop_last(), i, t, g);
    }
}

/// Count the tasks that hold a slot in the group named `g`.
pub fn count_occupied(tasks: &Vec<Task>, g: &String) -> (r: usize)
    ensures
        r == group_load(tasks@, g@),
{
    let n: usize = tasks.len();
    let mut count: usize = 0;
    let mut i: usize = 0;
    while i < n
        invariant
            n == tasks@.len(),
            i <= n,
            count <= i,
            count == group_load(tasks@.take(i as int), g@),
        decreases n - i,
    {
        proof {
            lemma_group_load_take_step(tasks@, g@, i as int);
        }
        let t = &tasks[i];
        if t.status == TaskStatus::Running || t.status == TaskStatus::Paused {
            let tg = effective_group_of(t);
            if tg == *g {
                count = count + 1;
            }
        }
        i = i + 1;
    }
    proof {
        assert(tasks@.take(n as int) =~= tasks@);
    }
    count
}

/// Whether every dependency of `t` names a task that finished successfully.
pub fn deps_ok(tasks: &Vec<Task>, t: &Task) -> (r: bool)
    requires
        tasks_sorted(tasks@),
    ensures
        r == deps_satisfied(tasks@, *t),
{
    let n: usize = t.dependencies.len();
    let mut k: usize = 0;
    while k < n
        invariant
            tasks_sorted(tasks@),
            n == t.dependencies@.len(),
            k <= n,
            forall|m: int| 0 <= m < k ==> dep_satisfied(tasks@, #[trigger] t.dependencies@[m]),
        decreases n - k,
    {
        let d: usize = t.dependencies[k];
        let found = find_in(tasks, d);
        match found {
            Some(j) => {
                proof {
                    lemma_unique_index(tasks@, d, j as int);
                }
                let dep = &tasks[j];
                let ok = dep.status == TaskStatus::Done
                    && matches!(&dep.result, Some(TaskResult::Success));
                if !ok {
                    return false;
                }
            },
            None => {
                return false;
            },
        }
        k = k + 1;
    }
    true
}

/// The index of the task with id `id` in a plain task table.
pub fn find_in(tasks: &Vec<Task>, id: usize) -> (r: Option<usize>)
    ensures
        match r {
            Some(j) => j < tasks@.len() && tasks@[j as int].id == id,
            None => !has_task(tasks@, id),
        },
{
    let n: usize = tasks.len();
    let mut i: usize = 0;
    while i < n
        invariant
            n == tasks@.len(),
            i <= n,
            forall|j: int| 0 <= j < i ==> tasks@[j].id != id,
        decreases n - i,
    {
        if tasks[i].id == id {
            return Some(i);
        }
        i = i + 1;
    }
    None
}

/// Whether the task at index `i` may be launched now.
pub fn eligible_at(state: &State, i: usize) -> (r: bool)
    requires
        state.wf(),
        i < state.tasks@.len(),
    ensures
        r == eligible(*state, i as int),
{
    let t = &state.tasks[i];
    if t.status != TaskStatus::Queued {
        return false;
    }
    let g = effective_group_of(t);
    let cap = capacity_of(&state.settings, &g);
    match cap {
        None => false,
        Some(cap) => {
            let load = count_occupied(&state.tasks, &g);
            if load >= cap {
                return false;
            }
            deps_ok(&state.tasks, t)
        },
    }
}

impl TaskHandler {
    /// Search for the next task that can be started: the first task in
    /// ascending id order that is queued, has a free slot in a known group,
    /// and whose dependencies all finished successfully.
    pub fn get_next_task_id(&self) -> (r: Option<usize>)
        requires
            self.wf(),
        ensures
            match r {
                Some(id) => has_task(self.state.tasks@, id)
                    && eligible(self.state, task_index(self.state.tasks@, id))
                    && forall|j: int| 0 <= j < task_index(self.state.tasks@, id)
                        ==> !eligible(self.state, j),
                None => forall|j: int| !eligible(self.state, j),
            },
    {
        let n: usize = self.state.tasks.len();
        let mut i: usize = 0;
        while i < n
            invariant
                self.wf(),
                n == self.state.tasks@.len(),
                i <= n,
                forall|j: int| 0 <= j < i ==> !eligible(self.state, j),
            decreases n - i,
        {
            if eligible_at(&self.state, i) {
                let id: usize = self.state.tasks[i].id;
                proof {
                    lemma_unique_index(self.state.tasks@, id, i as int);
                }
                return Some(id);
            }
            i = i + 1;
        }
        None
    }
}

}
