//! Control messages: pause, start, kill, send, reset, and shutdown, routed
//! to signal delivery and state transitions.

use vstd::prelude::*;

use crate::handler::{Shutdown, TaskHandler, has_child};
use crate::phases::{Effects, SendPayload, done_preserved};
use crate::signals::{ProcessAction, send_signal_raw};
use crate::state::{change_status_spec, has_task, lemma_unique_index, task_index, task_of};
use crate::task::{Task, TaskResult, TaskStatus, task_wf};

verus! {

/// A control message from the client-facing request path.
pub enum Message {
    Pause { task_ids: Vec<usize>, wait: bool },
    Start { task_ids: Vec<usize> },
    Kill { task_ids: Vec<usize>, all: bool },
    Send { task_id: usize, input: String },
    Reset,
}

/// The table with one live task killed eagerly: status `Done`, result
/// `Killed`, everything else kept. Applies only to a task that exists and is
/// not already terminal.
pub open spec fn kill_update(tasks: Seq<Task>, id: usize) -> Seq<Task> {
    if has_task(tasks, id) && !(task_of(tasks, id).status is Done) {
        tasks.update(
            task_index(tasks, id),
            Task {
                status: TaskStatus::Done,
                result: Some(TaskResult::Killed),
                ..tasks[task_index(tasks, id)]
            },
        )
    } else {
        tasks
    }
}

/// Every task record is either kept or eagerly paused in place.
pub open spec fn paused_or_same(a: Seq<Task>, b: Seq<Task>) -> bool {
    &&& a.len() == b.len()
    &&& forall|i: int| 0 <= i < a.len() ==> b[i] == #[trigger] a[i]
        || ((a[i].status is Running || a[i].status is Paused)
            && b[i] == Task { status: TaskStatus::Paused, ..a[i] })
}

/// Every task record is either kept or resumed in place.
pub open spec fn resumed_or_same(a: Seq<Task>, b: Seq<Task>) -> bool {
    &&& a.len() == b.len()
    &&& forall|i: int| 0 <= i < a.len() ==> b[i] == #[trigger] a[i]
        || ((a[i].status is Running || a[i].status is Paused)
            && b[i] == Task { status: TaskStatus::Running, ..a[i] })
}

/// Every task record is either kept or eagerly killed in place.
pub open spec fn killed_or_same(a: Seq<Task>, b: Seq<Task>) -> bool {
    &&& a.len() == b.len()
    &&& forall|i: int| 0 <= i < a.len() ==> b[i] == #[trigger] a[i]
        || (!(a[i].status is Done) && b[i] == Task {
            status: TaskStatus::Done,
            result: Some(TaskResult::Killed),
            ..a[i]
        })
}

/// The ids among `ids` with no registered child, in order: the tasks a
/// targeted start must spawn rather than resume.
pub open spec fn spawn_requests(
    children: Seq<crate::handler::ChildHandle>,
    ids: Seq<usize>,
) -> Seq<usize>
    decreases ids.len(),
{
    if ids.len() == 0 {
        Seq::empty()
    } else {
        spawn_requests(children, ids.drop_last()) + if !has_child(children, ids.last()) {
            seq![ids.last()]
        } else {
            Seq::empty()
        }
    }
}

impl TaskHandler {
    /// Flip the daemon's running flag; a save is owed afterwards.
    pub fn change_running(&mut self, running: bool)
        requires
            old(self).wf(),
        ensures
            final(self).wf(),
            final(self).state.running == running,
            final(self).state.tasks == old(self).state.tasks,
            final(self).state.settings == old(self).state.settings,
            final(self).children == old(self).children,
            final(self).reset == old(self).reset,
            final(self).shutdown == old(self).shutdown,
            final(self).pueue_directory == old(self).pueue_directory,
            final(self).callback == old(self).callback,
            final(self).pause_on_failure == old(self).pause_on_failure,
    {
        self.state.running = running;
    }

    /// Deliver a signal to the child registered for a task. `Ok(true)` when
    /// the child exists and the OS accepted the signal, `Ok(false)` when no
    /// child is registered, `Err` when delivery failed.
    pub fn perform_action(&self, id: usize, action: ProcessAction) -> (r: Result<bool, String>)
        ensures
            match r {
                Ok(b) => b == has_child(self.children@, id),
                Err(_) => has_child(self.children@, id),
            },
    {
        let pid_opt = self.child_pid(id);
        match pid_opt {
            Some(pid) => match send_signal_raw(pid, action) {
                Ok(()) => Ok(true),
                Err(e) => Err(e),
            },
            None => Ok(false),
        }
    }

    /// Pause one task: deliver stop to its child and, only if delivery
    /// succeeded, mark the task paused. A task without a child or already
    /// terminal is left alone. Returns whether the status was updated.
    pub fn pause_task(&mut self, id: usize) -> (r: bool)
        requires
            old(self).wf(),
        ensures
            final(self).wf(),
            final(self).children == old(self).children,
            final(self).state.running == old(self).state.running,
            final(self).state.settings == old(self).state.settings,
            final(self).reset == old(self).reset,
            final(self).shutdown == old(self).shutdown,
            final(self).pueue_directory == old(self).pueue_directory,
            final(self).callback == old(self).callback,
            final(self).pause_on_failure == old(self).pause_on_failure,
            r ==> has_child(old(self).children@, id) && final(self).state.tasks@
                == change_status_spec(old(self).state.tasks@, id, TaskStatus::Paused),
            !r ==> final(self).state.tasks@ == old(self).state.tasks@,
            done_preserved(old(self).state.tasks@, final(self).state.tasks@),
            old(self).handle_status_consistent() ==> final(self).handle_status_consistent(),
    {
        let present = self.has_child_for(id);
        if !present {
            return false;
        }
        match self.perform_action(id, ProcessAction::Pause) {
            Err(_) => false,
            Ok(success) => {
                if success {
                    self.state.change_status(id, TaskStatus::Paused);
                    proof {
                        lemma_change_status_frame(
                            old(self).state.tasks@,
                            id,
                            TaskStatus::Paused,
                        );
                        lemma_wf_same_shape(*old(self), *final(self));
                        if old(self).handle_status_consistent() {
                            lemma_status_flip_consistent(*old(self), *final(self), id);
                        }
                    }
                    true
                } else {
                    false
                }
            },
        }
    }

    /// Resume one task: deliver continue to its child and, only if delivery
    /// succeeded, mark the task running. A task without a child or already
    /// terminal is left alone. Returns whether the status was updated.
    pub fn continue_task(&mut self, id: usize) -> (r: bool)
        requires
            old(self).wf(),
        ensures
            final(self).wf(),
            final(self).children == old(self).children,
            final(self).state.running == old(self).state.running,
            final(self).state.settings == old(self).state.settings,
            final(self).reset == old(self).reset,
            final(self).shutdown == old(self).shutdown,
            final(self).pueue_directory == old(self).pueue_directory,
            final(self).callback == old(self).callback,
            final(self).pause_on_failure == old(self).pause_on_failure,
            r ==> has_child(old(self).children@, id) && final(self).state.tasks@
                == change_status_spec(old(self).state.tasks@, id, TaskStatus::Running),
            !r ==> final(self).state.tasks@ == old(self).state.tasks@,
            done_preserved(old(self).state.tasks@, final(self).state.tasks@),
            old(self).handle_status_consistent() ==> final(self).handle_status_consistent(),
    {
        let present = self.has_child_for(id);
        if !present {
            return false;
        }
        let done = match self.state.get_task(id) {
            Some(t) => t.is_done(),
            None => true,
        };
        if done {
            return false;
        }
        match self.perform_action(id, ProcessAction::Resume) {
            Err(_) => false,
            Ok(success) => {
                if success {
                    self.state.change_status(id, TaskStatus::Running);
                    proof {
                        lemma_change_status_frame(
                            old(self).state.tasks@,
                            id,
                            TaskStatus::Running,
                        );
                        lemma_wf_same_shape(*old(self), *final(self));
                        if old(self).handle_status_consistent() {
                            lemma_status_flip_consistent(*old(self), *final(self), id);
                        }
                    }
                    true
                } else {
                    false
                }
            },
        }
    }

    /// Kill one task: deliver kill to its child and, if the OS accepted it,
    /// eagerly record `Done` with `Killed` (the handle stays until the reaper
    /// drops it). An already terminal task only loses its process. The
    /// effects name the task for its callback when it newly completed.
    pub fn kill_task(&mut self, task_id: usize) -> (r: Effects)
        requires
            old(self).wf(),
        ensures
            final(self).wf(),
            final(self).children == old(self).children,
            final(self).state.running == old(self).state.running,
            final(self).state.settings == old(self).state.settings,
            final(self).reset == old(self).reset,
            final(self).shutdown == old(self).shutdown,
            final(self).pueue_directory == old(self).pueue_directory,
            final(self).callback == old(self).callback,
            final(self).pause_on_failure == old(self).pause_on_failure,
            r.save ==> has_child(old(self).children@, task_id)
                && has_task(old(self).state.tasks@, task_id)
                && !(task_of(old(self).state.tasks@, task_id).status is Done)
                && final(self).state.tasks@ == kill_update(old(self).state.tasks@, task_id)
                && r.completed@ == seq![task_id],
            !r.save ==> final(self).state.tasks@ == old(self).state.tasks@
                && r.completed@.len() == 0,
            r.spawns@.len() == 0,
            r.stdin_write is None,
            r.clean_logs@.len() == 0,
            !r.state_wiped,
            done_preserved(old(self).state.tasks@, final(self).state.tasks@),
            killed_or_same(old(self).state.tasks@, final(self).state.tasks@),
    {
        let present = self.has_child_for(task_id);
        if !present {
            return Effects::empty();
        }
        match self.perform_action(task_id, ProcessAction::Kill) {
            Err(_) => Effects::empty(),
            Ok(success) => {
                if !success {
                    return Effects::empty();
                }
                let idx_opt = self.state.find_index(task_id);
                match idx_opt {
                    None => Effects::empty(),
                    Some(i) => {
                        proof {
                            lemma_unique_index(self.state.tasks@, task_id, i as int);
                        }
                        let is_done = self.state.tasks[i].status == TaskStatus::Done;
                        if is_done {
                            return Effects::empty();
                        }
                        self.state.tasks[i].status = TaskStatus::Done;
                        self.state.tasks[i].result = Some(TaskResult::Killed);
                        let mut completed: Vec<usize> = Vec::new();
                        completed.push(task_id);
                        proof {
                            let ts = old(self).state.tasks@;
                            assert forall|i2: int| 0 <= i2 < final(self).state.tasks@.len()
                                implies #[trigger] task_wf(final(self).state.tasks@[i2])
                                    && final(self).state.tasks@[i2].id == ts[i2].id by {
                                assert(task_wf(ts[i2]));
                            }
                            assert forall|a: int, b: int|
                                0 <= a < b < final(self).state.tasks@.len()
                                implies final(self).state.tasks@[a].id
                                    < final(self).state.tasks@[b].id by {
                                assert(ts[a].id < ts[b].id);
                            }
                            assert forall|ci: int| 0 <= ci < final(self).children@.len()
                                implies has_task(
                                    final(self).state.tasks@,
                                    #[trigger] final(self).children@[ci].id,
                                ) by {
                                let id2 = final(self).children@[ci].id;
                                assert(has_task(ts, id2));
                                let j = choose|j: int| 0 <= j < ts.len() && ts[j].id == id2;
                                assert(final(self).state.tasks@[j].id == id2);
                            }
                            assert forall|ti: int| 0 <= ti < final(self).state.tasks@.len()
                                    && crate::state::occupies_slot(
                                    #[trigger] final(self).state.tasks@[ti],
                                )
                                implies has_child(
                                    final(self).children@,
                                    final(self).state.tasks@[ti].id,
                                ) by {
                                assert(crate::state::occupies_slot(ts[ti]));
                                assert(has_child(old(self).children@, ts[ti].id));
                            }
                            assert(final(self).wf());
                        }
                        Effects {
                            spawns: Vec::new(),
                            completed,
                            stdin_write: None,
                            clean_logs: Vec::new(),
                            state_wiped: false,
                            save: true,
                        }
                    },
                }
            },
        }
    }

    /// Hand back the input for a child's stdin, if that child is live; the
    /// daemon performs the write, and a failure is logged, not propagated.
    pub fn send(&self, task_id: usize, input: String) -> (r: Option<SendPayload>)
        ensures
            match r {
                Some(p) => has_child(self.children@, task_id) && p.task_id == task_id
                    && p.input == input,
                None => !has_child(self.children@, task_id),
            },
    {
        let present = self.has_child_for(task_id);
        if present {
            Some(SendPayload { task_id, input })
        } else {
            None
        }
    }
}

impl TaskHandler {
    /// Handle a pause message: with explicit task ids, pause exactly those;
    /// with none, stop the scheduler, and unless `wait` is set also pause
    /// every live child.
    pub fn pause(&mut self, task_ids: &Vec<usize>, wait: bool) -> (r: Effects)
        requires
            old(self).wf(),
        ensures
            final(self).wf(),
            final(self).children == old(self).children,
            final(self).state.settings == old(self).state.settings,
            final(self).reset == old(self).reset,
            final(self).shutdown == old(self).shutdown,
            final(self).pueue_directory == old(self).pueue_directory,
            final(self).callback == old(self).callback,
            final(self).pause_on_failure == old(self).pause_on_failure,
            paused_or_same(old(self).state.tasks@, final(self).state.tasks@),
            done_preserved(old(self).state.tasks@, final(self).state.tasks@),
            task_ids@.len() > 0 ==> final(self).state.running == old(self).state.running,
            task_ids@.len() == 0 ==> !final(self).state.running && r.save,
            task_ids@.len() == 0 && wait ==> final(self).state.tasks@
                == old(self).state.tasks@,
            final(self).state.tasks@ != old(self).state.tasks@ ==> r.save,
            r.spawns@.len() == 0,
            r.completed@.len() == 0,
            r.stdin_write is None,
            r.clean_logs@.len() == 0,
            !r.state_wiped,
            old(self).handle_status_consistent() ==> final(self).handle_status_consistent(),
    {
        let mut any: bool = false;
        if task_ids.len() > 0 {
            let n: usize = task_ids.len();
            let mut i: usize = 0;
            while i < n
                invariant
                    n == task_ids@.len(),
                    i <= n,
                    self.wf(),
                    self.children == old(self).children,
                    self.state.settings == old(self).state.settings,
                    self.reset == old(self).reset,
                    self.shutdown == old(self).shutdown,
                    self.pueue_directory == old(self).pueue_directory,
                    self.callback == old(self).callback,
                    self.pause_on_failure == old(self).pause_on_failure,
                    self.state.running == old(self).state.running,
                    paused_or_same(old(self).state.tasks@, self.state.tasks@),
                    done_preserved(old(self).state.tasks@, self.state.tasks@),
                    !any ==> self.state.tasks@ == old(self).state.tasks@,
                    old(self).handle_status_consistent()
                        ==> self.handle_status_consistent(),
                decreases n - i,
            {
                let ghost mid = self.state.tasks@;
                let ok = self.pause_task(task_ids[i]);
                if ok {
                    any = true;
                }
                proof {
                    lemma_pause_step(old(self).state.tasks@, mid, self.state.tasks@);
                }
                i = i + 1;
            }
            let mut eff = Effects::empty();
            eff.save = any;
            proof {
                if self.state.tasks@ != old(self).state.tasks@ {
                    assert(any);
                }
            }
            return eff;
        }
        if !wait {
            let ids = self.child_ids();
            let n: usize = ids.len();
            let mut i: usize = 0;
            while i < n
                invariant
                    n == ids@.len(),
                    i <= n,
                    self.wf(),
                    self.children == old(self).children,
                    self.state.settings == old(self).state.settings,
                    self.reset == old(self).reset,
                    self.shutdown == old(self).shutdown,
                    self.pueue_directory == old(self).pueue_directory,
                    self.callback == old(self).callback,
                    self.pause_on_failure == old(self).pause_on_failure,
                    self.state.running == old(self).state.running,
                    paused_or_same(old(self).state.tasks@, self.state.tasks@),
                    done_preserved(old(self).state.tasks@, self.state.tasks@),
                    old(self).handle_status_consistent()
                        ==> self.handle_status_consistent(),
                decreases n - i,
            {
                let ghost mid = self.state.tasks@;
                let _ok = self.pause_task(ids[i]);
                proof {
                    lemma_pause_step(old(self).state.tasks@, mid, self.state.tasks@);
                }
                i = i + 1;
            }
        }
        self.change_running(false);
        let mut eff = Effects::empty();
        eff.save = true;
        eff
    }
}

/// Every listed id names a task that has reached `Done`.
pub open spec fn all_done_ids(tasks: Seq<Task>, ids: Seq<usize>) -> bool {
    forall|m: int| 0 <= m < ids.len() ==> has_task(tasks, #[trigger] ids[m])
        && task_of(tasks, ids[m]).status is Done
}

impl TaskHandler {
    /// Handle a kill message: with explicit task ids, kill exactly those;
    /// otherwise, if `all` is set, stop the scheduler and kill every live
    /// child. The effects carry the ids that newly completed.
    pub fn kill(&mut self, task_ids: &Vec<usize>, all: bool) -> (r: Effects)
        requires
            old(self).wf(),
        ensures
            final(self).wf(),
            final(self).children == old(self).children,
            final(self).state.settings == old(self).state.settings,
            final(self).reset == old(self).reset,
            final(self).shutdown == old(self).shutdown,
            final(self).pueue_directory == old(self).pueue_directory,
            final(self).callback == old(self).callback,
            final(self).pause_on_failure == old(self).pause_on_failure,
            killed_or_same(old(self).state.tasks@, final(self).state.tasks@),
            done_preserved(old(self).state.tasks@, final(self).state.tasks@),
            task_ids@.len() > 0 ==> final(self).state.running == old(self).state.running,
            task_ids@.len() == 0 && all ==> !final(self).state.running && r.save,
            task_ids@.len() == 0 && !all ==> *final(self) == *old(self) && !r.save,
            final(self).state.tasks@ != old(self).state.tasks@ ==> r.save,
            all_done_ids(final(self).state.tasks@, r.completed@),
            r.spawns@.len() == 0,
            r.stdin_write is None,
            r.clean_logs@.len() == 0,
            !r.state_wiped,
    {
        let mut completed: Vec<usize> = Vec::new();
        let mut any: bool = false;
        if task_ids.len() > 0 {
            let n: usize = task_ids.len();
            let mut i: usize = 0;
            while i < n
                invariant
                    n == task_ids@.len(),
                    i <= n,
                    self.wf(),
                    self.children == old(self).children,
                    self.state.settings == old(self).state.settings,
                    self.reset == old(self).reset,
                    self.shutdown == old(self).shutdown,
                    self.pueue_directory == old(self).pueue_directory,
                    self.callback == old(self).callback,
                    self.pause_on_failure == old(self).pause_on_failure,
                    self.state.running == old(self).state.running,
                    killed_or_same(old(self).state.tasks@, self.state.tasks@),
                    done_preserved(old(self).state.tasks@, self.state.tasks@),
                    !any ==> self.state.tasks@ == old(self).state.tasks@,
                    all_done_ids(self.state.tasks@, completed@),
                decreases n - i,
            {
                let ghost mid = self.state.tasks@;
                let ghost pre_completed = completed@;
                let mut eff = self.kill_task(task_ids[i]);
                if eff.save {
                    any = true;
                    completed.append(&mut eff.completed);
                }
                proof {
                    lemma_kill_step(old(self).state.tasks@, mid, self.state.tasks@);
                    lemma_kill_completed_step(
                        mid,
                        self.state.tasks@,
                        pre_completed,
                        completed@,
                        task_ids@[i as int],
                    );
                }
                i = i + 1;
            }
            let mut eff = Effects::empty();
            eff.completed = completed;
            eff.save = any;
            proof {
                if self.state.tasks@ != old(self).state.tasks@ {
                    assert(any);
                }
            }
            return eff;
        }
        if all {
            self.change_running(false);
            let ids = self.child_ids();
            let n: usize = ids.len();
            let mut i: usize = 0;
            while i < n
                invariant
                    n == ids@.len(),
                    i <= n,
                    self.wf(),
                    self.children == old(self).children,
                    self.state.settings == old(self).state.settings,
                    self.reset == old(self).reset,
                    self.shutdown == old(self).shutdown,
                    self.pueue_directory == old(self).pueue_directory,
                    self.callback == old(self).callback,
                    self.pause_on_failure == old(self).pause_on_failure,
                    !self.state.running,
                    killed_or_same(old(self).state.tasks@, self.state.tasks@),
                    done_preserved(old(self).state.tasks@, self.state.tasks@),
                    all_done_ids(self.state.tasks@, completed@),
                decreases n - i,
            {
                let ghost mid = self.state.tasks@;
                let ghost pre_completed = completed@;
                let mut eff = self.kill_task(ids[i]);
                if eff.save {
                    completed.append(&mut eff.completed);
                }
                proof {
                    lemma_kill_step(old(self).state.tasks@, mid, self.state.tasks@);
                    lemma_kill_completed_step(
                        mid,
                        self.state.tasks@,
                        pre_completed,
                        completed@,
                        ids@[i as int],
                    );
                }
                i = i + 1;
            }
            let mut eff = Effects::empty();
            eff.completed = completed;
            eff.save = true;
            return eff;
        }
        Effects::empty()
    }

    /// Handle a reset message: kill everything as `Kill { all }` does, and
    /// flag the deferred reset; the first later tick that finds no live child
    /// wipes the state.
    pub fn reset(&mut self) -> (r: Effects)
        requires
            old(self).wf(),
        ensures
            final(self).wf(),
            final(self).children == old(self).children,
            final(self).state.settings == old(self).state.settings,
            final(self).reset,
            final(self).shutdown == old(self).shutdown,
            final(self).pueue_directory == old(self).pueue_directory,
            final(self).callback == old(self).callback,
            final(self).pause_on_failure == old(self).pause_on_failure,
            killed_or_same(old(self).state.tasks@, final(self).state.tasks@),
            done_preserved(old(self).state.tasks@, final(self).state.tasks@),
            !final(self).state.running,
            r.save,
            all_done_ids(final(self).state.tasks@, r.completed@),
            r.spawns@.len() == 0,
            r.stdin_write is None,
            r.clean_logs@.len() == 0,
            !r.state_wiped,
    {
        let none: Vec<usize> = Vec::new();
        let eff = self.kill(&none, true);
        self.reset = true;
        eff
    }

    /// Initiate shutdown: record the reason and kill every live child, as a
    /// mass kill does. No group needs pausing — nothing is spawned while a
    /// shutdown is recorded.
    pub fn initiate_shutdown(&mut self, shutdown: Shutdown) -> (r: Effects)
        requires
            old(self).wf(),
        ensures
            final(self).wf(),
            final(self).children == old(self).children,
            final(self).state.settings == old(self).state.settings,
            final(self).reset == old(self).reset,
            final(self).shutdown == Some(shutdown),
            final(self).pueue_directory == old(self).pueue_directory,
            final(self).callback == old(self).callback,
            final(self).pause_on_failure == old(self).pause_on_failure,
            killed_or_same(old(self).state.tasks@, final(self).state.tasks@),
            done_preserved(old(self).state.tasks@, final(self).state.tasks@),
            !final(self).state.running,
            r.save,
            all_done_ids(final(self).state.tasks@, r.completed@),
    {
        self.shutdown = Some(shutdown);
        let none: Vec<usize> = Vec::new();
        self.kill(&none, true)
    }
}

/// Killing steps compose, as pausing steps do.
proof fn lemma_kill_step(a: Seq<Task>, b: Seq<Task>, c: Seq<Task>)
    requires
        killed_or_same(a, b),
        c == b || exists|id: usize| c == #[trigger] kill_update(b, id),
    ensures
        killed_or_same(a, c),
        done_preserved(a, c),
{
    if c != b {
        let id = choose|id: usize| c == #[trigger] kill_update(b, id);
        if has_task(b, id) && !(task_of(b, id).status is Done) {
            let j = task_index(b, id);
            assert(c == b.update(
                j,
                Task { status: TaskStatus::Done, result: Some(TaskResult::Killed), ..b[j] },
            ));
            assert forall|i: int| 0 <= i < a.len() implies c[i] == #[trigger] a[i]
                || (!(a[i].status is Done) && c[i] == Task {
                    status: TaskStatus::Done,
                    result: Some(TaskResult::Killed),
                    ..a[i]
                }) by {
                if i != j {
                    assert(c[i] == b[i]);
                } else {
                    assert(b[j] == a[j] || (!(a[j].status is Done) && b[j] == Task {
                        status: TaskStatus::Done,
                        result: Some(TaskResult::Killed),
                        ..a[j]
                    }));
                }
            }
        }
    }
}

/// One kill step keeps every already collected completion id terminal, and a
/// newly collected id is terminal too.
proof fn lemma_kill_completed_step(
    b: Seq<Task>,
    c: Seq<Task>,
    pre: Seq<usize>,
    post: Seq<usize>,
    id: usize,
)
    requires
        crate::state::tasks_sorted(b),
        crate::state::tasks_sorted(c),
        all_done_ids(b, pre),
        c == b || (has_task(b, id) && !(task_of(b, id).status is Done) && c == kill_update(b, id)),
        post == pre || (post == pre + seq![id] && has_task(b, id)
            && !(task_of(b, id).status is Done) && c == kill_update(b, id)),
    ensures
        all_done_ids(c, post),
{
    assert forall|m: int| 0 <= m < post.len() implies has_task(c, #[trigger] post[m])
        && task_of(c, post[m]).status is Done by {
        if c == b {
            assert(post == pre);
            assert(has_task(b, post[m]) && task_of(b, post[m]).status is Done);
        } else {
            let j = task_index(b, id);
            assert(b[j].id == id);
            assert(c == b.update(
                j,
                Task { status: TaskStatus::Done, result: Some(TaskResult::Killed), ..b[j] },
            ));
            if m < pre.len() {
                let x = pre[m];
                assert(has_task(b, x) && task_of(b, x).status is Done);
                let jx = task_index(b, x);
                assert(b[jx].id == x);
                assert(jx != j);
                assert(c[jx] == b[jx]);
                lemma_unique_index(c, x, jx);
            } else {
                assert(post[m] == id);
                assert(c[j].id == id);
                lemma_unique_index(c, id, j);
            }
        }
    }
}

/// Pausing steps compose: a table reached from `a` by eager pauses, then by
/// one more `change_status_spec` pause (or kept), is still reached from `a`
/// by eager pauses.
proof fn lemma_pause_step(a: Seq<Task>, b: Seq<Task>, c: Seq<Task>)
    requires
        paused_or_same(a, b),
        c == b || exists|id: usize| c == #[trigger] change_status_spec(b, id, TaskStatus::Paused),
    ensures
        paused_or_same(a, c),
        done_preserved(a, c),
{
    if c != b {
        let id = choose|id: usize| c == #[trigger] change_status_spec(b, id, TaskStatus::Paused);
        if has_task(b, id) && (task_of(b, id).status is Running
            || task_of(b, id).status is Paused) {
            let j = task_index(b, id);
            assert(c == b.update(j, Task { status: TaskStatus::Paused, ..b[j] }));
            assert forall|i: int| 0 <= i < a.len() implies c[i] == #[trigger] a[i]
                || ((a[i].status is Running || a[i].status is Paused)
                    && c[i] == Task { status: TaskStatus::Paused, ..a[i] }) by {
                if i != j {
                    assert(c[i] == b[i]);
                } else {
                    assert(b[j] == a[j] || ((a[j].status is Running
                        || a[j].status is Paused)
                        && b[j] == Task { status: TaskStatus::Paused, ..a[j] }));
                }
            }
        }
    }
}

proof fn lemma_spawn_requests_take_step(
    children: Seq<crate::handler::ChildHandle>,
    ids: Seq<usize>,
    i: int,
)
    requires
        0 <= i < ids.len(),
    ensures
        spawn_requests(children, ids.take(i + 1)) == spawn_requests(children, ids.take(i))
            + if !has_child(children, ids[i]) {
            seq![ids[i]]
        } else {
            Seq::<usize>::empty()
        },
{
    assert(ids.take(i + 1).drop_last() =~= ids.take(i));
    assert(ids.take(i + 1).last() == ids[i]);
}

/// Resuming steps compose, as pausing steps do.
proof fn lemma_resume_step(a: Seq<Task>, b: Seq<Task>, c: Seq<Task>)
    requires
        resumed_or_same(a, b),
        c == b || exists|id: usize| c == #[trigger] change_status_spec(b, id, TaskStatus::Running),
    ensures
        resumed_or_same(a, c),
        done_preserved(a, c),
{
    if c != b {
        let id = choose|id: usize| c == #[trigger] change_status_spec(
            b,
            id,
            TaskStatus::Running,
        );
        if has_task(b, id) && (task_of(b, id).status is Running
            || task_of(b, id).status is Paused) {
            let j = task_index(b, id);
            assert(c == b.update(j, Task { status: TaskStatus::Running, ..b[j] }));
            assert forall|i: int| 0 <= i < a.len() implies c[i] == #[trigger] a[i]
                || ((a[i].status is Running || a[i].status is Paused)
                    && c[i] == Task { status: TaskStatus::Running, ..a[i] }) by {
                if i != j {
                    assert(c[i] == b[i]);
                } else {
                    assert(b[j] == a[j] || ((a[j].status is Running
                        || a[j].status is Paused)
                        && b[j] == Task { status: TaskStatus::Running, ..a[j] }));
                }
            }
        }
    }
}

impl TaskHandler {
    /// Handle a start message: with explicit task ids, resume those that
    /// have a live child and hand the rest back as force-start spawn
    /// requests (bypassing dependency and slot checks); with none, resume
    /// every paused child and let the scheduler run again.
    pub fn start(&mut self, task_ids: &Vec<usize>) -> (r: Effects)
        requires
            old(self).wf(),
        ensures
            final(self).wf(),
            final(self).children == old(self).children,
            final(self).state.settings == old(self).state.settings,
            final(self).reset == old(self).reset,
            final(self).shutdown == old(self).shutdown,
            final(self).pueue_directory == old(self).pueue_directory,
            final(self).callback == old(self).callback,
            final(self).pause_on_failure == old(self).pause_on_failure,
            resumed_or_same(old(self).state.tasks@, final(self).state.tasks@),
            done_preserved(old(self).state.tasks@, final(self).state.tasks@),
            task_ids@.len() > 0 ==> final(self).state.running == old(self).state.running
                && r.spawns@ == spawn_requests(old(self).children@, task_ids@),
            task_ids@.len() == 0 ==> final(self).state.running && r.save
                && r.spawns@.len() == 0,
            final(self).state.tasks@ != old(self).state.tasks@ ==> r.save,
            r.completed@.len() == 0,
            r.stdin_write is None,
            r.clean_logs@.len() == 0,
            !r.state_wiped,
            old(self).handle_status_consistent() ==> final(self).handle_status_consistent(),
    {
        let mut any: bool = false;
        if task_ids.len() > 0 {
            let mut spawns: Vec<usize> = Vec::new();
            let n: usize = task_ids.len();
            let mut i: usize = 0;
            proof {
                assert(task_ids@.take(0) =~= Seq::<usize>::empty());
            }
            while i < n
                invariant
                    n == task_ids@.len(),
                    i <= n,
                    self.wf(),
                    self.children == old(self).children,
                    self.state.settings == old(self).state.settings,
                    self.reset == old(self).reset,
                    self.shutdown == old(self).shutdown,
                    self.pueue_directory == old(self).pueue_directory,
                    self.callback == old(self).callback,
                    self.pause_on_failure == old(self).pause_on_failure,
                    self.state.running == old(self).state.running,
                    resumed_or_same(old(self).state.tasks@, self.state.tasks@),
                    done_preserved(old(self).state.tasks@, self.state.tasks@),
                    !any ==> self.state.tasks@ == old(self).state.tasks@,
                    spawns@ == spawn_requests(old(self).children@, task_ids@.take(i as int)),
                    old(self).handle_status_consistent()
                        ==> self.handle_status_consistent(),
                decreases n - i,
            {
                proof {
                    lemma_spawn_requests_take_step(
                        old(self).children@,
                        task_ids@,
                        i as int,
                    );
                }
                let id: usize = task_ids[i];
                let present = self.has_child_for(id);
                if present {
                    let ghost mid = self.state.tasks@;
                    let ok = self.continue_task(id);
                    if ok {
                        any = true;
                    }
                    proof {
                        lemma_resume_step(old(self).state.tasks@, mid, self.state.tasks@);
                    }
                } else {
                    spawns.push(id);
                }
                i = i + 1;
            }
            proof {
                assert(task_ids@.take(n as int) =~= task_ids@);
            }
            let mut eff = Effects::empty();
            eff.spawns = spawns;
            eff.save = any;
            proof {
                if self.state.tasks@ != old(self).state.tasks@ {
                    assert(any);
                }
            }
            return eff;
        }
        let ids = self.child_ids();
        let n: usize = ids.len();
        let mut i: usize = 0;
        while i < n
            invariant
                n == ids@.len(),
                i <= n,
                self.wf(),
                self.children == old(self).children,
                self.state.settings == old(self).state.settings,
                self.reset == old(self).reset,
                self.shutdown == old(self).shutdown,
                self.pueue_directory == old(self).pueue_directory,
                self.callback == old(self).callback,
                self.pause_on_failure == old(self).pause_on_failure,
                self.state.running == old(self).state.running,
                resumed_or_same(old(self).state.tasks@, self.state.tasks@),
                done_preserved(old(self).state.tasks@, self.state.tasks@),
                old(self).handle_status_consistent() ==> self.handle_status_consistent(),
            decreases n - i,
        {
            let ghost mid = self.state.tasks@;
            let _ok = self.continue_task(ids[i]);
            proof {
                lemma_resume_step(old(self).state.tasks@, mid, self.state.tasks@);
            }
            i = i + 1;
        }
        self.change_running(true);
        let mut eff = Effects::empty();
        eff.save = true;
        eff
    }

    /// Route one control message to its handler, as the tick's message phase
    /// does. Each variant carries the routed handler's promise, and whenever
    /// a persisted field (a task's status or result, or the running flag)
    /// changed, the effects owe a save.
    pub fn handle_message(&mut self, message: Message) -> (r: Effects)
        requires
            old(self).wf(),
        ensures
            final(self).wf(),
            final(self).children == old(self).children,
            final(self).state.settings == old(self).state.settings,
            final(self).shutdown == old(self).shutdown,
            final(self).pueue_directory == old(self).pueue_directory,
            final(self).callback == old(self).callback,
            final(self).pause_on_failure == old(self).pause_on_failure,
            done_preserved(old(self).state.tasks@, final(self).state.tasks@),
            (final(self).state.tasks@ != old(self).state.tasks@
                || final(self).state.running != old(self).state.running) ==> r.save,
            !r.state_wiped,
            r.clean_logs@.len() == 0,
            match message {
                Message::Pause { task_ids, wait } => {
                    &&& paused_or_same(old(self).state.tasks@, final(self).state.tasks@)
                    &&& final(self).reset == old(self).reset
                    &&& r.spawns@.len() == 0
                    &&& r.completed@.len() == 0
                    &&& r.stdin_write is None
                    &&& task_ids@.len() == 0 ==> !final(self).state.running && r.save
                    &&& task_ids@.len() > 0 ==> final(self).state.running
                        == old(self).state.running
                    &&& task_ids@.len() == 0 && wait ==> final(self).state.tasks@
                        == old(self).state.tasks@
                },
                Message::Start { task_ids } => {
                    &&& resumed_or_same(old(self).state.tasks@, final(self).state.tasks@)
                    &&& final(self).reset == old(self).reset
                    &&& r.completed@.len() == 0
                    &&& r.stdin_write is None
                    &&& task_ids@.len() == 0 ==> final(self).state.running && r.save
                        && r.spawns@.len() == 0
                    &&& task_ids@.len() > 0 ==> final(self).state.running
                        == old(self).state.running && r.spawns@
                        == spawn_requests(old(self).children@, task_ids@)
                },
                Message::Kill { task_ids, all } => {
                    &&& killed_or_same(old(self).state.tasks@, final(self).state.tasks@)
                    &&& all_done_ids(final(self).state.tasks@, r.completed@)
                    &&& final(self).reset == old(self).reset
                    &&& r.spawns@.len() == 0
                    &&& r.stdin_write is None
                    &&& task_ids@.len() == 0 && all ==> !final(self).state.running && r.save
                    &&& task_ids@.len() > 0 ==> final(self).state.running
                        == old(self).state.running
                    &&& task_ids@.len() == 0 && !all ==> *final(self) == *old(self) && !r.save
                },
                Message::Send { task_id, input } => {
                    &&& *final(self) == *old(self)
                    &&& r.stdin_write matches Some(p) ==> p.task_id == task_id
                        && p.input == input
                    &&& r.stdin_write is Some <==> has_child(old(self).children@, task_id)
                    &&& r.spawns@.len() == 0
                    &&& r.completed@.len() == 0
                    &&& !r.save
                },
                Message::Reset => {
                    &&& killed_or_same(old(self).state.tasks@, final(self).state.tasks@)
                    &&& all_done_ids(final(self).state.tasks@, r.completed@)
                    &&& final(self).reset
                    &&& !final(self).state.running
                    &&& r.save
                    &&& r.spawns@.len() == 0
                    &&& r.stdin_write is None
                },
            },
    {
        match message {
            Message::Pause { task_ids, wait } => self.pause(&task_ids, wait),
            Message::Start { task_ids } => self.start(&task_ids),
            Message::Kill { task_ids, all } => self.kill(&task_ids, all),
            Message::Send { task_id, input } => {
                let mut eff = Effects::empty();
                eff.stdin_write = self.send(task_id, input);
                eff
            },
            Message::Reset => self.reset(),
        }
    }
}

/// A handler whose task table kept its length, ids, record well-formedness
/// and slot occupancy, and whose other fields are unchanged, is still well
/// formed.
pub proof fn lemma_wf_same_shape(a: TaskHandler, b: TaskHandler)
    requires
        a.wf(),
        b.children == a.children,
        b.state.settings == a.state.settings,
        b.callback == a.callback,
        b.pause_on_failure == a.pause_on_failure,
        b.pueue_directory == a.pueue_directory,
        b.state.tasks@.len() == a.state.tasks@.len(),
        forall|i: int| #![trigger b.state.tasks@[i]] 0 <= i < a.state.tasks@.len()
            ==> b.state.tasks@[i].id == a.state.tasks@[i].id
            && crate::state::occupies_slot(b.state.tasks@[i])
                == crate::state::occupies_slot(a.state.tasks@[i])
            && task_wf(b.state.tasks@[i]),
    ensures
        b.wf(),
{
    assert forall|x: int, y: int| 0 <= x < y < b.state.tasks@.len()
        implies b.state.tasks@[x].id < b.state.tasks@[y].id by {
        assert(a.state.tasks@[x].id < a.state.tasks@[y].id);
    }
    assert forall|ci: int| 0 <= ci < b.children@.len()
        implies has_task(b.state.tasks@, #[trigger] b.children@[ci].id) by {
        let id = b.children@[ci].id;
        assert(has_task(a.state.tasks@, id));
        let j = choose|j: int| 0 <= j < a.state.tasks@.len() && a.state.tasks@[j].id == id;
        assert(b.state.tasks@[j].id == id);
    }
    assert forall|ti: int| 0 <= ti < b.state.tasks@.len()
            && crate::state::occupies_slot(#[trigger] b.state.tasks@[ti])
        implies has_child(b.children@, b.state.tasks@[ti].id) by {
        assert(crate::state::occupies_slot(a.state.tasks@[ti]));
        assert(has_child(a.children@, a.state.tasks@[ti].id));
    }
}

/// `change_status_spec` keeps ids, well-formedness, done records, and slot
/// occupancy shape.
pub proof fn lemma_change_status_frame(tasks: Seq<Task>, id: usize, status: TaskStatus)
    requires
        crate::state::tasks_sorted(tasks),
        crate::state::tasks_wf(tasks),
        status is Running || status is Paused,
    ensures
        ({
            let b = change_status_spec(tasks, id, status);
            &&& b.len() == tasks.len()
            &&& forall|i: int| 0 <= i < tasks.len() ==> #[trigger] b[i].id == tasks[i].id
                && crate::state::occupies_slot(b[i]) == crate::state::occupies_slot(tasks[i])
                && task_wf(b[i])
            &&& done_preserved(tasks, b)
        }),
{
    let b = change_status_spec(tasks, id, status);
    assert forall|i: int| 0 <= i < tasks.len() implies #[trigger] b[i].id == tasks[i].id
        && crate::state::occupies_slot(b[i]) == crate::state::occupies_slot(tasks[i])
        && task_wf(b[i]) by {
        assert(task_wf(tasks[i]));
    }
    assert forall|i: int| 0 <= i < tasks.len() && tasks[i].status is Done
        implies b[i] == #[trigger] tasks[i] by {
        if has_task(tasks, id) && (task_of(tasks, id).status is Running
            || task_of(tasks, id).status is Paused) {
            let j = task_index(tasks, id);
            assert(i != j);
            assert(b[i] == tasks[i]);
        }
    }
}

/// A status flip between `Running` and `Paused` keeps handle/status
/// consistency.
proof fn lemma_status_flip_consistent(a: TaskHandler, b: TaskHandler, id: usize)
    requires
        a.wf(),
        a.handle_status_consistent(),
        b.children == a.children,
        b.state.tasks@.len() == a.state.tasks@.len(),
        forall|i: int| #![trigger b.state.tasks@[i]] 0 <= i < a.state.tasks@.len()
            ==> b.state.tasks@[i].id == a.state.tasks@[i].id
            && crate::state::occupies_slot(b.state.tasks@[i])
                == crate::state::occupies_slot(a.state.tasks@[i]),
    ensures
        b.handle_status_consistent(),
{
    assert forall|i: int| 0 <= i < b.state.tasks@.len()
        implies (crate::state::occupies_slot(#[trigger] b.state.tasks@[i])
            <==> has_child(b.children@, b.state.tasks@[i].id)) by {
        assert(crate::state::occupies_slot(a.state.tasks@[i])
            <==> has_child(a.children@, a.state.tasks@[i].id));
    }
}

}
