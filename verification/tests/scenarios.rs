//! End-to-end scenarios: the handler driven through whole tick sequences,
//! with child terminations reported the way the daemon's reaper reports
//! them. Where a test needs a signal to really succeed it signals its own
//! process with SIGCONT, which is harmless to a running process.

use pueue_core::clock::now_millis;
use pueue_core::handler::{Shutdown, TaskHandler};
use pueue_core::signals::ProcessAction;
use pueue_core::reaper::{ExitOutcome, FinishedChild};
use pueue_core::state::{GroupEntry, Settings, State};
use pueue_core::task::{Task, TaskResult, TaskStatus};

fn settings(groups: Vec<(&str, usize)>, pause_on_failure: bool) -> Settings {
    Settings {
        groups: groups
            .into_iter()
            .map(|(n, m)| GroupEntry { name: n.to_string(), max_parallel: m })
            .collect(),
        default_parallel_tasks: 1,
        pause_on_failure,
        callback: None,
        pueue_directory: String::new(),
    }
}

fn task(id: usize, command: &str, group: Option<&str>, deps: Vec<usize>) -> Task {
    Task::new(
        id,
        command.to_string(),
        ".".to_string(),
        group.map(|g| g.to_string()),
        deps,
        None,
        false,
    )
}

/// A process id no live process can have, so delivery must fail.
const DEAD_PID: i32 = 0x7ffffffe;

/// Run the scheduler once and, if it picks a task, commit a spawn under the
/// given process id.
fn tick_spawn(handler: &mut TaskHandler, pid: i32) -> Option<usize> {
    let id = handler.get_next_task_id()?;
    let decision = handler.prepare_spawn(id);
    assert!(decision.proceed.is_some(), "scheduler picked an unspawnable task");
    handler.commit_spawn_success(id, pid, now_millis());
    Some(id)
}

/// Report one child exit to the reaper, as the daemon's poll would.
fn reap(handler: &mut TaskHandler, id: usize, code: Option<i32>) -> Vec<usize> {
    let report = vec![FinishedChild { id, outcome: ExitOutcome::Exited { code } }];
    handler.handle_finished_tasks(&report, now_millis()).completed
}

fn status_of(handler: &TaskHandler, id: usize) -> TaskStatus {
    handler.state.get_task(id).expect("missing task").status
}

fn result_of(handler: &TaskHandler, id: usize) -> Option<TaskResult> {
    handler.state.get_task(id).expect("missing task").result.clone()
}

#[test]
fn simple_success() {
    let state = State {
        tasks: vec![task(1, "true", None, vec![])],
        running: true,
        settings: settings(vec![], false),
    };
    let mut handler = TaskHandler::new(state);
    // Tick one: the scheduler launches the only queued task.
    assert_eq!(tick_spawn(&mut handler, DEAD_PID), Some(1));
    assert_eq!(status_of(&handler, 1), TaskStatus::Running);
    assert!(handler.state.get_task(1).unwrap().start.is_some());
    // Tick two: the child exited cleanly and the reaper commits it.
    assert_eq!(reap(&mut handler, 1, Some(0)), vec![1]);
    let t = handler.state.get_task(1).unwrap();
    assert_eq!(t.status, TaskStatus::Done);
    assert_eq!(t.result, Some(TaskResult::Success));
    assert!(t.start.is_some());
    assert!(t.end.is_some());
    assert!(!handler.has_child_for(1));
}

#[test]
fn nonzero_exit_pauses_daemon() {
    let state = State {
        tasks: vec![task(1, "exit 7", None, vec![])],
        running: true,
        settings: settings(vec![], true),
    };
    let mut handler = TaskHandler::new(state);
    assert_eq!(tick_spawn(&mut handler, DEAD_PID), Some(1));
    assert_eq!(reap(&mut handler, 1, Some(7)), vec![1]);
    assert_eq!(result_of(&handler, 1), Some(TaskResult::Failed(7)));
    assert!(!handler.state.running);
}

#[test]
fn group_slot_is_respected() {
    let state = State {
        tasks: vec![
            task(1, "sleep 1", Some("build"), vec![]),
            task(2, "true", Some("build"), vec![]),
        ],
        running: true,
        settings: settings(vec![("build", 1)], false),
    };
    let mut handler = TaskHandler::new(state);
    assert_eq!(tick_spawn(&mut handler, DEAD_PID), Some(1));
    // The single build slot is taken: the scheduler must not pick id 2.
    assert_eq!(handler.get_next_task_id(), None);
    assert_eq!(status_of(&handler, 2), TaskStatus::Queued);
    // Only after id 1 is reaped does the slot free up, the same tick.
    assert_eq!(reap(&mut handler, 1, Some(0)), vec![1]);
    assert_eq!(tick_spawn(&mut handler, DEAD_PID), Some(2));
    assert_eq!(reap(&mut handler, 2, Some(0)), vec![2]);
    assert_eq!(result_of(&handler, 1), Some(TaskResult::Success));
    assert_eq!(result_of(&handler, 2), Some(TaskResult::Success));
}

#[test]
fn dependency_failure_cascades() {
    let state = State {
        tasks: vec![
            task(1, "exit 1", None, vec![]),
            task(2, "true", None, vec![1]),
        ],
        running: true,
        settings: settings(vec![], false),
    };
    let mut handler = TaskHandler::new(state);
    assert_eq!(tick_spawn(&mut handler, DEAD_PID), Some(1));
    assert_eq!(reap(&mut handler, 1, Some(1)), vec![1]);
    assert_eq!(result_of(&handler, 1), Some(TaskResult::Failed(1)));
    let eff = handler.check_failed_dependencies();
    assert_eq!(eff.completed, vec![2]);
    assert!(eff.save);
    assert_eq!(result_of(&handler, 2), Some(TaskResult::DependencyFailed));
    // Id 2 never spawned: no start time, no child, and nothing left to pick.
    assert!(handler.state.get_task(2).unwrap().start.is_none());
    assert!(!handler.has_child_for(2));
    assert_eq!(handler.get_next_task_id(), None);
}

#[test]
fn delayed_enqueue_promotes_on_time() {
    let base = now_millis();
    let mut stashed = task(1, "true", None, vec![]);
    stashed.status = TaskStatus::Stashed;
    stashed.enqueue_at = Some(base + 200);
    let state = State {
        tasks: vec![stashed],
        running: true,
        settings: settings(vec![], false),
    };
    let mut handler = TaskHandler::new(state);
    assert!(!handler.enqueue_delayed(base + 100));
    assert_eq!(status_of(&handler, 1), TaskStatus::Stashed);
    assert!(handler.get_next_task_id().is_none());
    assert!(handler.enqueue_delayed(base + 200));
    assert_eq!(status_of(&handler, 1), TaskStatus::Queued);
    assert!(handler.state.get_task(1).unwrap().enqueue_at.is_none());
    // Applying the phase again right away changes nothing more.
    assert!(!handler.enqueue_delayed(base + 200));
    assert_eq!(status_of(&handler, 1), TaskStatus::Queued);
    assert_eq!(tick_spawn(&mut handler, DEAD_PID), Some(1));
    assert_eq!(reap(&mut handler, 1, Some(0)), vec![1]);
    assert_eq!(result_of(&handler, 1), Some(TaskResult::Success));
}

#[test]
fn pause_keeps_slot_and_resume_continues() {
    let own_pid: i32 = nix::unistd::getpid().as_raw();
    let state = State {
        tasks: vec![task(1, "sleep 10", None, vec![])],
        running: true,
        settings: settings(vec![], false),
    };
    let mut handler = TaskHandler::new(state);
    // Register this very process as the task's child, so that a continue
    // signal can really be delivered and really succeeds.
    assert_eq!(tick_spawn(&mut handler, own_pid), Some(1));
    assert_eq!(status_of(&handler, 1), TaskStatus::Running);
    // A paused task still holds its slot: mark it paused as a successful
    // stop signal would, and the scheduler stays empty-handed.
    handler.state.change_status(1, TaskStatus::Paused);
    assert_eq!(status_of(&handler, 1), TaskStatus::Paused);
    assert_eq!(handler.get_next_task_id(), None);
    assert!(handler.has_child_for(1));
    // Resuming delivers SIGCONT (harmless to a running process) and flips
    // the status back only because delivery succeeded.
    let eff = handler.start(&vec![1]);
    assert!(eff.save);
    assert!(eff.spawns.is_empty());
    assert_eq!(status_of(&handler, 1), TaskStatus::Running);
}

#[test]
fn failed_signal_delivery_changes_nothing() {
    let state = State {
        tasks: vec![task(1, "sleep 10", None, vec![])],
        running: true,
        settings: settings(vec![], false),
    };
    let mut handler = TaskHandler::new(state);
    assert_eq!(tick_spawn(&mut handler, DEAD_PID), Some(1));
    // No process has this id: delivery fails, and the status must not move.
    assert!(handler.perform_action(1, ProcessAction::Kill).is_err());
    assert!(!handler.pause_task(1));
    assert_eq!(status_of(&handler, 1), TaskStatus::Running);
    assert!(!handler.continue_task(1));
    assert_eq!(status_of(&handler, 1), TaskStatus::Running);
    let eff = handler.kill(&vec![1], false);
    assert!(!eff.save);
    assert_eq!(status_of(&handler, 1), TaskStatus::Running);
}

#[test]
fn reaper_does_not_overwrite_an_eager_kill() {
    let state = State {
        tasks: vec![task(1, "sleep 10", None, vec![])],
        running: true,
        settings: settings(vec![], false),
    };
    let mut handler = TaskHandler::new(state);
    assert_eq!(tick_spawn(&mut handler, DEAD_PID), Some(1));
    // An eager kill record, as a successful kill signal would leave it.
    handler.state.tasks[0].status = TaskStatus::Done;
    handler.state.tasks[0].result = Some(TaskResult::Killed);
    // The reaper later observes the exit: it only drops the handle.
    assert_eq!(reap(&mut handler, 1, Some(0)), Vec::<usize>::new());
    assert_eq!(result_of(&handler, 1), Some(TaskResult::Killed));
    assert!(!handler.has_child_for(1));
}

#[test]
fn perform_action_reports_delivery() {
    let own_pid: i32 = nix::unistd::getpid().as_raw();
    let state = State {
        tasks: vec![task(1, "sleep 10", None, vec![])],
        running: true,
        settings: settings(vec![], false),
    };
    let mut handler = TaskHandler::new(state);
    // No child registered yet: nothing to deliver to.
    assert_eq!(handler.perform_action(1, ProcessAction::Resume), Ok(false));
    assert_eq!(tick_spawn(&mut handler, own_pid), Some(1));
    // A continue signal to a live process is accepted by the OS.
    assert_eq!(handler.perform_action(1, ProcessAction::Resume), Ok(true));
}

#[test]
fn shutdown_records_reason_and_kills_everything() {
    let state = State {
        tasks: vec![task(1, "sleep 10", None, vec![])],
        running: true,
        settings: settings(vec![], false),
    };
    let mut handler = TaskHandler::new(state);
    assert_eq!(tick_spawn(&mut handler, DEAD_PID), Some(1));
    let eff = handler.initiate_shutdown(Shutdown::Graceful);
    assert!(eff.save);
    assert_eq!(handler.shutdown, Some(Shutdown::Graceful));
    assert!(!handler.state.running);
    // The kill signal could not be delivered to this process id, so the
    // record is untouched; the handle stays until the reaper drops it.
    assert_eq!(status_of(&handler, 1), TaskStatus::Running);
    assert!(handler.has_child_for(1));
}

#[test]
fn reset_wipes_once_children_are_gone() {
    let state = State {
        tasks: vec![task(1, "true", None, vec![])],
        running: true,
        settings: settings(vec![], false),
    };
    let mut handler = TaskHandler::new(state);
    assert_eq!(tick_spawn(&mut handler, DEAD_PID), Some(1));
    let eff = handler.reset();
    assert!(eff.save);
    assert!(handler.reset);
    assert!(!handler.state.running);
    // The child exits; the reaper drops the handle. The kill signal could
    // not be delivered here, so the exit code still commits the result.
    assert_eq!(reap(&mut handler, 1, None), vec![1]);
    assert_eq!(result_of(&handler, 1), Some(TaskResult::Killed));
    assert!(!handler.has_child_for(1));
    // The next tick with no children left performs the wipe and resumes.
    let eff = handler.handle_finished_tasks(&Vec::new(), now_millis());
    assert!(eff.state_wiped);
    assert!(eff.save);
    assert!(!handler.reset);
    assert!(handler.state.running);
    assert!(handler.state.tasks.is_empty());
}
