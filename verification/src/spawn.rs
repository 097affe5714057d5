//! The spawn path: preparing a task for launch, building its shell command
//! line, and committing the daemon's spawn outcome back into the state.

use vstd::prelude::*;
use vstd::string::StringExecFns;

use crate::handler::{ChildHandle, TaskHandler, has_child};
use crate::phases::{Effects, SpawnCommand, SpawnDecision, done_preserved, frame_kept};
use crate::state::{has_task, lemma_unique_index, occupies_slot, task_index, task_of};
use crate::task::{Task, TaskResult, TaskStatus, task_wf};

verus! {

/// POSIX argv for a shell command: `sh -c <command>`.
pub fn build_argv_posix(command: &String) -> (r: Vec<String>)
    ensures
        r@.len() == 3,
        r@[0]@ == "sh"@,
        r@[1]@ == "-c"@,
        r@[2]@ == command@,
{
    let mut v: Vec<String> = Vec::new();
    v.push("sh".to_owned());
    v.push("-c".to_owned());
    v.push(command.clone());
    v
}

/// The console fixup prepended to every command on Windows; it must be kept
/// bit-exact.
pub open spec fn windows_command_prefix() -> Seq<char> {
    "[Console]::OutputEncoding = [Text.UTF8Encoding]::UTF8; "@
}

/// Windows argv for a shell command: `powershell -c` with the UTF-8 console
/// fixup chained in front of the command.
pub fn build_argv_windows(command: &String) -> (r: Vec<String>)
    ensures
        r@.len() == 3,
        r@[0]@ == "powershell"@,
        r@[1]@ == "-c"@,
        r@[2]@ == windows_command_prefix() + command@,
{
    let mut chained: String = "[Console]::OutputEncoding = [Text.UTF8Encoding]::UTF8; ".to_owned();
    chained.append(command.as_str());
    let mut v: Vec<String> = Vec::new();
    v.push("powershell".to_owned());
    v.push("-c".to_owned());
    v.push(chained);
    v
}

/// A task may enter the spawn path only from these statuses.
pub open spec fn spawnable(t: Task) -> bool {
    t.status is Queued || t.status is Stashed || t.status is Paused
}

impl TaskHandler {
    /// First half of the spawn path: refuse a missing or non-spawnable task;
    /// otherwise clear its delayed enqueue time (a forced start bypasses the
    /// delay) and hand back the command and working directory to launch.
    /// `save` reports whether a persisted field changed.
    pub fn prepare_spawn(&mut self, task_id: usize) -> (r: SpawnDecision)
        requires
            old(self).wf(),
        ensures
            final(self).wf(),
            frame_kept(*old(self), *final(self)),
            final(self).state.running == old(self).state.running,
            ({
                let ts = old(self).state.tasks@;
                if has_task(ts, task_id) && spawnable(task_of(ts, task_id)) {
                    let i = task_index(ts, task_id);
                    &&& final(self).state.tasks@ == ts.update(
                        i,
                        Task { enqueue_at: None, ..ts[i] },
                    )
                    &&& r.proceed matches Some(c) && c.command == ts[i].command
                        && c.path == ts[i].path
                    &&& r.save == (ts[i].enqueue_at is Some)
                } else {
                    &&& final(self).state.tasks@ == ts
                    &&& r.proceed is None
                    &&& !r.save
                }
            }),
            done_preserved(old(self).state.tasks@, final(self).state.tasks@),
            old(self).handle_status_consistent() ==> final(self).handle_status_consistent(),
    {
        let ghost ts = self.state.tasks@;
        let idx_opt = self.state.find_index(task_id);
        match idx_opt {
            None => SpawnDecision { proceed: None, save: false },
            Some(i) => {
                proof {
                    lemma_unique_index(ts, task_id, i as int);
                }
                let st = self.state.tasks[i].status;
                if st == TaskStatus::Queued || st == TaskStatus::Stashed
                    || st == TaskStatus::Paused {
                    let save = self.state.tasks[i].enqueue_at.is_some();
                    let command = self.state.tasks[i].command.clone();
                    let path = self.state.tasks[i].path.clone();
                    self.state.tasks[i].enqueue_at = None;
                    proof {
                        assert forall|i2: int| 0 <= i2 < final(self).state.tasks@.len()
                            implies #[trigger] task_wf(final(self).state.tasks@[i2])
                                && final(self).state.tasks@[i2].id == ts[i2].id
                                && occupies_slot(final(self).state.tasks@[i2])
                                    == occupies_slot(ts[i2]) by {
                            assert(task_wf(ts[i2]));
                        }
                        assert forall|a: int, b: int| 0 <= a < b < final(self).state.tasks@.len()
                            implies final(self).state.tasks@[a].id
                                < final(self).state.tasks@[b].id by {
                            assert(ts[a].id < ts[b].id);
                        }
                        assert forall|ci: int| 0 <= ci < final(self).children@.len()
                            implies has_task(
                                final(self).state.tasks@,
                                #[trigger] final(self).children@[ci].id,
                            ) by {
                            let id = final(self).children@[ci].id;
                            assert(has_task(ts, id));
                            let j = choose|j: int| 0 <= j < ts.len() && ts[j].id == id;
                            assert(final(self).state.tasks@[j].id == id);
                        }
                        assert(final(self).wf());
                    }
                    SpawnDecision { proceed: Some(SpawnCommand { command, path }), save }
                } else {
                    proof {
                        assert(final(self).state.tasks@ =~= ts);
                    }
                    SpawnDecision { proceed: None, save: false }
                }
            },
        }
    }

    /// Second half of the spawn path when the OS spawn succeeded: register
    /// the child, stamp the start time, and mark the task running. A save is
    /// always owed afterwards.
    pub fn commit_spawn_success(&mut self, task_id: usize, pid: i32, now: i64)
        requires
            old(self).wf(),
            has_task(old(self).state.tasks@, task_id),
            spawnable(task_of(old(self).state.tasks@, task_id)),
            !has_child(old(self).children@, task_id),
        ensures
            final(self).wf(),
            final(self).children@ == old(self).children@.push(
                ChildHandle { id: task_id, pid },
            ),
            final(self).state.tasks@ == old(self).state.tasks@.update(
                task_index(old(self).state.tasks@, task_id),
                Task {
                    status: TaskStatus::Running,
                    start: Some(now),
                    ..task_of(old(self).state.tasks@, task_id)
                },
            ),
            final(self).state.running == old(self).state.running,
            final(self).state.settings == old(self).state.settings,
            final(self).reset == old(self).reset,
            final(self).shutdown == old(self).shutdown,
            final(self).pueue_directory == old(self).pueue_directory,
            final(self).callback == old(self).callback,
            final(self).pause_on_failure == old(self).pause_on_failure,
            done_preserved(old(self).state.tasks@, final(self).state.tasks@),
            old(self).handle_status_consistent() ==> final(self).handle_status_consistent(),
    {
        let ghost ts = self.state.tasks@;
        let idx_opt = self.state.find_index(task_id);
        match idx_opt {
            None => {
                proof {
                    assert(false);
                }
            },
            Some(i) => {
                proof {
                    lemma_unique_index(ts, task_id, i as int);
                }
                self.state.tasks[i].status = TaskStatus::Running;
                self.state.tasks[i].start = Some(now);
                self.children.push(ChildHandle { id: task_id, pid });
                proof {
                    assert forall|i2: int| 0 <= i2 < final(self).state.tasks@.len()
                        implies #[trigger] task_wf(final(self).state.tasks@[i2])
                            && final(self).state.tasks@[i2].id == ts[i2].id by {
                        assert(task_wf(ts[i2]));
                    }
                    assert forall|a: int, b: int| 0 <= a < b < final(self).state.tasks@.len()
                        implies final(self).state.tasks@[a].id
                            < final(self).state.tasks@[b].id by {
                        assert(ts[a].id < ts[b].id);
                    }
                    assert forall|ci: int| 0 <= ci < final(self).children@.len()
                        implies has_task(
                            final(self).state.tasks@,
                            #[trigger] final(self).children@[ci].id,
                        ) by {
                        let id = final(self).children@[ci].id;
                        if ci < old(self).children@.len() {
                            assert(has_task(ts, id));
                            let j = choose|j: int| 0 <= j < ts.len() && ts[j].id == id;
                            assert(final(self).state.tasks@[j].id == id);
                        } else {
                            assert(id == task_id);
                            assert(final(self).state.tasks@[i as int].id == task_id);
                        }
                    }
                    assert forall|ti: int| 0 <= ti < final(self).state.tasks@.len()
                            && occupies_slot(#[trigger] final(self).state.tasks@[ti])
                        implies has_child(
                            final(self).children@,
                            final(self).state.tasks@[ti].id,
                        ) by {
                        if ti == i as int {
                            assert(final(self).children@[old(self).children@.len() as int].id
                                == task_id);
                        } else {
                            assert(occupies_slot(ts[ti]));
                            assert(has_child(old(self).children@, ts[ti].id));
                            let j = choose|j: int| 0 <= j < old(self).children@.len()
                                && old(self).children@[j].id == ts[ti].id;
                            assert(final(self).children@[j].id == ts[ti].id);
                        }
                    }
                    assert(final(self).wf());
                    if old(self).handle_status_consistent() {
                        assert forall|ti: int| 0 <= ti < final(self).state.tasks@.len()
                            implies (occupies_slot(#[trigger] final(self).state.tasks@[ti])
                                <==> has_child(
                                final(self).children@,
                                final(self).state.tasks@[ti].id,
                            )) by {
                            if ti != i as int {
                                assert(occupies_slot(ts[ti])
                                    <==> has_child(old(self).children@, ts[ti].id));
                                if !occupies_slot(final(self).state.tasks@[ti]) {
                                    assert(ts[ti].id != task_id);
                                    assert forall|j: int|
                                        0 <= j < final(self).children@.len()
                                        implies final(self).children@[j].id != ts[ti].id by {
                                        if j < old(self).children@.len() {
                                            assert(!has_child(old(self).children@, ts[ti].id));
                                        }
                                    }
                                }
                            }
                        }
                    }
                }
            },
        }
    }

    /// Second half of the spawn path when the OS spawn failed: record
    /// `FailedToSpawn` with the error text, honor pause-on-failure, and ask
    /// the daemon to delete the task's fresh log files and fire its callback.
    pub fn commit_spawn_failure(&mut self, task_id: usize, error: String) -> (r: Effects)
        requires
            old(self).wf(),
            has_task(old(self).state.tasks@, task_id),
            spawnable(task_of(old(self).state.tasks@, task_id)),
            !has_child(old(self).children@, task_id),
        ensures
            final(self).wf(),
            final(self).children == old(self).children,
            final(self).state.tasks@ == old(self).state.tasks@.update(
                task_index(old(self).state.tasks@, task_id),
                Task {
                    status: TaskStatus::Done,
                    result: Some(TaskResult::FailedToSpawn(error)),
                    ..task_of(old(self).state.tasks@, task_id)
                },
            ),
            final(self).state.running == (old(self).state.running
                && !old(self).pause_on_failure),
            final(self).state.settings == old(self).state.settings,
            final(self).reset == old(self).reset,
            final(self).shutdown == old(self).shutdown,
            final(self).pueue_directory == old(self).pueue_directory,
            final(self).callback == old(self).callback,
            final(self).pause_on_failure == old(self).pause_on_failure,
            r.completed@ == seq![task_id],
            r.clean_logs@ == seq![task_id],
            r.save,
            r.spawns@.len() == 0,
            r.stdin_write is None,
            !r.state_wiped,
            done_preserved(old(self).state.tasks@, final(self).state.tasks@),
            old(self).handle_status_consistent() ==> final(self).handle_status_consistent(),
    {
        let ghost ts = self.state.tasks@;
        let idx_opt = self.state.find_index(task_id);
        match idx_opt {
            None => {
                proof {
                    assert(false);
                }
                Effects::empty()
            },
            Some(i) => {
                proof {
                    lemma_unique_index(ts, task_id, i as int);
                }
                self.state.tasks[i].status = TaskStatus::Done;
                self.state.tasks[i].result = Some(TaskResult::FailedToSpawn(error));
                if self.pause_on_failure {
                    self.state.running = false;
                }
                let mut completed: Vec<usize> = Vec::new();
                completed.push(task_id);
                let mut clean_logs: Vec<usize> = Vec::new();
                clean_logs.push(task_id);
                proof {
                    assert forall|i2: int| 0 <= i2 < final(self).state.tasks@.len()
                        implies #[trigger] task_wf(final(self).state.tasks@[i2])
                            && final(self).state.tasks@[i2].id == ts[i2].id by {
                        assert(task_wf(ts[i2]));
                    }
                    assert forall|a: int, b: int| 0 <= a < b < final(self).state.tasks@.len()
                        implies final(self).state.tasks@[a].id
                            < final(self).state.tasks@[b].id by {
                        assert(ts[a].id < ts[b].id);
                    }
                    assert forall|ci: int| 0 <= ci < final(self).children@.len()
                        implies has_task(
                            final(self).state.tasks@,
                            #[trigger] final(self).children@[ci].id,
                        ) by {
                        let id = final(self).children@[ci].id;
                        assert(has_task(ts, id));
                        let j = choose|j: int| 0 <= j < ts.len() && ts[j].id == id;
                        assert(final(self).state.tasks@[j].id == id);
                    }
                    assert forall|ti: int| 0 <= ti < final(self).state.tasks@.len()
                            && occupies_slot(#[trigger] final(self).state.tasks@[ti])
                        implies has_child(
                            final(self).children@,
                            final(self).state.tasks@[ti].id,
                        ) by {
                        assert(occupies_slot(ts[ti]));
                        assert(has_child(old(self).children@, ts[ti].id));
                    }
                    assert(final(self).wf());
                    if old(self).handle_status_consistent() {
                        assert forall|ti: int| 0 <= ti < final(self).state.tasks@.len()
                            implies (occupies_slot(#[trigger] final(self).state.tasks@[ti])
                                <==> has_child(
                                final(self).children@,
                                final(self).state.tasks@[ti].id,
                            )) by {
                            if ti != i as int {
                                assert(occupies_slot(ts[ti])
                                    <==> has_child(old(self).children@, ts[ti].id));
                            } else {
                                assert(!has_child(old(self).children@, task_id));
                            }
                        }
                    }
                }
                Effects {
                    spawns: Vec::new(),
                    completed,
                    stdin_write: None,
                    clean_logs,
                    state_wiped: false,
                    save: true,
                }
            },
        }
    }
}

}
