//! Unit tests for the scheduler, the tick phases, and the callback engine,
//! driven with synthetic reap reports instead of real processes.

use pueue_core::handler::TaskHandler;
use pueue_core::reaper::{ExitOutcome, FinishedChild};
use pueue_core::spawn::{build_argv_posix, build_argv_windows};
use pueue_core::state::{GroupEntry, Settings, State};
use pueue_core::task::{Task, TaskResult, TaskStatus, result_str};

fn settings(groups: Vec<(&str, usize)>, default_parallel: usize) -> Settings {
    Settings {
        groups: groups
            .into_iter()
            .map(|(n, m)| GroupEntry { name: n.to_string(), max_parallel: m })
            .collect(),
        default_parallel_tasks: default_parallel,
        pause_on_failure: false,
        callback: None,
        pueue_directory: String::new(),
    }
}

fn task(id: usize, group: Option<&str>, deps: Vec<usize>) -> Task {
    Task::new(
        id,
        "true".to_string(),
        ".".to_string(),
        group.map(|g| g.to_string()),
        deps,
        None,
        false,
    )
}

fn handler(tasks: Vec<Task>, settings: Settings) -> TaskHandler {
    TaskHandler::new(State { tasks, running: true, settings })
}

#[test]
fn scheduler_picks_lowest_eligible_id() {
    let h = handler(vec![task(3, None, vec![]), task(5, None, vec![])], settings(vec![], 2));
    assert_eq!(h.get_next_task_id(), Some(3));
}

#[test]
fn scheduler_skips_unknown_group() {
    let h = handler(
        vec![task(1, Some("nope"), vec![]), task(2, Some("build"), vec![])],
        settings(vec![("build", 1)], 1),
    );
    // The unknown group makes id 1 ineligible; id 2 is picked instead.
    assert_eq!(h.get_next_task_id(), Some(2));
}

#[test]
fn scheduler_counts_paused_tasks_against_the_slot() {
    let mut h = handler(
        vec![task(1, Some("build"), vec![]), task(2, Some("build"), vec![])],
        settings(vec![("build", 1)], 1),
    );
    h.commit_spawn_success(1, 4242, 5);
    assert_eq!(h.get_next_task_id(), None);
    // Pausing the task does not free its slot either.
    h.state.tasks[0].status = TaskStatus::Paused;
    assert_eq!(h.get_next_task_id(), None);
}

#[test]
fn scheduler_waits_for_successful_dependencies() {
    let mut h = handler(
        vec![task(1, None, vec![]), task(2, None, vec![1])],
        settings(vec![], 4),
    );
    // Dependency not yet finished: only id 1 is eligible.
    assert_eq!(h.get_next_task_id(), Some(1));
    h.state.tasks[0].status = TaskStatus::Done;
    h.state.tasks[0].result = Some(TaskResult::Success);
    assert_eq!(h.get_next_task_id(), Some(2));
}

#[test]
fn scheduler_treats_missing_dependency_as_unsatisfied() {
    let h = handler(vec![task(2, None, vec![99])], settings(vec![], 4));
    assert_eq!(h.get_next_task_id(), None);
}

#[test]
fn dependency_on_failed_task_is_not_runnable_and_cascades() {
    let mut h = handler(
        vec![task(1, None, vec![]), task(2, None, vec![1]), task(3, None, vec![99])],
        settings(vec![], 4),
    );
    h.state.tasks[0].status = TaskStatus::Done;
    h.state.tasks[0].result = Some(TaskResult::Killed);
    assert_ne!(h.get_next_task_id(), Some(2));
    let eff = h.check_failed_dependencies();
    assert_eq!(eff.completed, vec![2]);
    assert!(eff.save);
    let t2 = h.state.get_task(2).unwrap();
    assert_eq!(t2.status, TaskStatus::Done);
    assert_eq!(t2.result, Some(TaskResult::DependencyFailed));
    // A missing dependency id does not force a failure.
    assert_eq!(h.state.get_task(3).unwrap().status, TaskStatus::Queued);
}

#[test]
fn reaper_maps_outcomes_to_results() {
    let mut h = handler(
        vec![task(1, None, vec![]), task(2, None, vec![]), task(3, None, vec![])],
        settings(vec![], 4),
    );
    h.commit_spawn_success(1, 11, 100);
    h.commit_spawn_success(2, 12, 100);
    h.commit_spawn_success(3, 13, 100);
    let reports = vec![
        FinishedChild { id: 1, outcome: ExitOutcome::Exited { code: None } },
        FinishedChild { id: 2, outcome: ExitOutcome::WaitError },
        FinishedChild { id: 3, outcome: ExitOutcome::Exited { code: Some(0) } },
    ];
    let eff = h.handle_finished_tasks(&reports, 200);
    assert_eq!(eff.completed, vec![1, 2, 3]);
    assert!(eff.save);
    // A codeless exit and a wait error both count as killed.
    assert_eq!(h.state.get_task(1).unwrap().result, Some(TaskResult::Killed));
    assert_eq!(h.state.get_task(2).unwrap().result, Some(TaskResult::Killed));
    assert_eq!(h.state.get_task(3).unwrap().result, Some(TaskResult::Success));
    assert_eq!(h.state.get_task(3).unwrap().end, Some(200));
    assert!(!h.has_child_for(1) && !h.has_child_for(2) && !h.has_child_for(3));
}

#[test]
fn spawn_failure_records_error_and_honors_pause_on_failure() {
    let mut s = settings(vec![], 4);
    s.pause_on_failure = true;
    let mut h = handler(vec![task(1, None, vec![])], s);
    let decision = h.prepare_spawn(1);
    assert!(decision.proceed.is_some());
    let eff = h.commit_spawn_failure(1, "no such shell".to_string());
    assert_eq!(eff.completed, vec![1]);
    assert_eq!(eff.clean_logs, vec![1]);
    assert!(eff.save);
    let t = h.state.get_task(1).unwrap();
    assert_eq!(t.status, TaskStatus::Done);
    assert_eq!(t.result, Some(TaskResult::FailedToSpawn("no such shell".to_string())));
    assert!(!h.state.running);
}

#[test]
fn prepare_spawn_clears_delay_and_refuses_bad_states() {
    let mut stashed = task(1, None, vec![]);
    stashed.status = TaskStatus::Stashed;
    stashed.enqueue_at = Some(12345);
    let mut done = task(2, None, vec![]);
    done.status = TaskStatus::Done;
    done.result = Some(TaskResult::Success);
    let mut h = handler(vec![stashed, done], settings(vec![], 4));
    let d = h.prepare_spawn(1);
    assert!(d.proceed.is_some());
    assert!(d.save);
    assert!(h.state.get_task(1).unwrap().enqueue_at.is_none());
    // A terminal task is refused, and so is a missing one.
    assert!(h.prepare_spawn(2).proceed.is_none());
    assert!(h.prepare_spawn(99).proceed.is_none());
}

#[test]
fn signal_paths_without_children_are_noops() {
    let mut h = handler(vec![task(1, None, vec![])], settings(vec![], 4));
    assert_eq!(h.perform_action(1, pueue_core::signals::ProcessAction::Kill), Ok(false));
    assert!(!h.pause_task(1));
    assert!(!h.continue_task(1));
    let eff = h.kill(&vec![1], false);
    assert!(!eff.save);
    assert!(eff.completed.is_empty());
    assert!(h.send(1, "input".to_string()).is_none());
    assert_eq!(h.state.get_task(1).unwrap().status, TaskStatus::Queued);
}

#[test]
fn targeted_start_requests_spawns_for_unstarted_tasks() {
    let mut h = handler(vec![task(1, None, vec![]), task(2, None, vec![])], settings(vec![], 4));
    let eff = h.start(&vec![1, 2]);
    // Neither task has a child: both become force-start spawn requests.
    assert_eq!(eff.spawns, vec![1, 2]);
}

#[test]
fn callback_renders_template_variables() {
    let mut s = settings(vec![], 4);
    s.callback = Some("notify {{id}} {{command}} {{result}}".to_string());
    let mut done = task(3, None, vec![]);
    done.command = "make all".to_string();
    done.status = TaskStatus::Done;
    done.result = Some(TaskResult::Success);
    let h = handler(vec![], s);
    let rendered = h.spawn_callback(&done);
    assert_eq!(rendered, Some("notify 3 make all Success".to_string()));
}

#[test]
fn callback_renders_exit_code_and_fails_strictly() {
    let mut s = settings(vec![], 4);
    s.callback = Some("on-fail {{result}}".to_string());
    let mut done = task(7, None, vec![]);
    done.status = TaskStatus::Done;
    done.result = Some(TaskResult::Failed(-9));
    let h = handler(vec![], s);
    assert_eq!(h.spawn_callback(&done), Some("on-fail Failed(-9)".to_string()));

    let mut s2 = settings(vec![], 4);
    s2.callback = Some("broken {{unknown_variable}}".to_string());
    let h2 = handler(vec![], s2);
    // Strict mode: an unknown variable makes rendering fail; no command runs.
    assert_eq!(h2.spawn_callback(&done), None);
}

#[test]
fn no_callback_without_template_or_result() {
    let h = handler(vec![], settings(vec![], 4));
    let mut done = task(1, None, vec![]);
    done.status = TaskStatus::Done;
    done.result = Some(TaskResult::Success);
    assert_eq!(h.spawn_callback(&done), None);
    let mut s = settings(vec![], 4);
    s.callback = Some("x {{id}}".to_string());
    let h2 = handler(vec![], s);
    let pending = task(1, None, vec![]);
    assert_eq!(h2.spawn_callback(&pending), None);
}

#[test]
fn daemon_wide_pause_and_start_flip_running() {
    let mut h = handler(vec![task(1, None, vec![])], settings(vec![], 4));
    let eff = h.pause(&Vec::new(), true);
    assert!(eff.save);
    assert!(!h.state.running);
    // With `wait`, in-flight tasks are left alone.
    assert_eq!(h.state.get_task(1).unwrap().status, TaskStatus::Queued);
    let eff = h.start(&Vec::new());
    assert!(eff.save);
    assert!(h.state.running);
}

#[test]
fn kill_without_targets_and_without_all_does_nothing() {
    let mut h = handler(vec![task(1, None, vec![])], settings(vec![], 4));
    let eff = h.kill(&Vec::new(), false);
    assert!(!eff.save);
    assert!(eff.completed.is_empty());
    assert!(h.state.running);
}

#[test]
fn result_strings_are_canonical() {
    let as_string = |r: &TaskResult| result_str(r).into_iter().collect::<String>();
    assert_eq!(as_string(&TaskResult::Success), "Success");
    assert_eq!(as_string(&TaskResult::Failed(7)), "Failed(7)");
    assert_eq!(as_string(&TaskResult::Failed(-128)), "Failed(-128)");
    assert_eq!(as_string(&TaskResult::Failed(i32::MIN)), "Failed(-2147483648)");
    assert_eq!(as_string(&TaskResult::Failed(i32::MAX)), "Failed(2147483647)");
    assert_eq!(as_string(&TaskResult::Failed(255)), "Failed(255)");
    assert_eq!(as_string(&TaskResult::Killed), "Killed");
    assert_eq!(as_string(&TaskResult::DependencyFailed), "DependencyFailed");
    assert_eq!(
        as_string(&TaskResult::FailedToSpawn("oops".to_string())),
        "FailedToSpawn(oops)"
    );
}

#[test]
fn argv_builders_match_the_shells() {
    let argv = build_argv_posix(&"echo hi".to_string());
    assert_eq!(argv, vec!["sh".to_string(), "-c".to_string(), "echo hi".to_string()]);
    let argv = build_argv_windows(&"echo hi".to_string());
    assert_eq!(
        argv,
        vec![
            "powershell".to_string(),
            "-c".to_string(),
            "[Console]::OutputEncoding = [Text.UTF8Encoding]::UTF8; echo hi".to_string()
        ]
    );
}

#[test]
fn handle_message_routes_reset() {
    let mut h = handler(vec![task(1, None, vec![])], settings(vec![], 4));
    let eff = h.handle_message(pueue_core::messages::Message::Reset);
    assert!(eff.save);
    assert!(h.reset);
    assert!(!h.state.running);
}

#[test]
fn handle_message_routes_daemon_pause() {
    let mut h = handler(vec![task(1, None, vec![])], settings(vec![], 4));
    let eff = h.handle_message(pueue_core::messages::Message::Pause {
        task_ids: Vec::new(),
        wait: true,
    });
    assert!(eff.save);
    assert!(!h.state.running);
    assert_eq!(h.state.get_task(1).unwrap().status, TaskStatus::Queued);
}

#[test]
fn handle_message_routes_send() {
    let mut h = handler(vec![task(1, None, vec![])], settings(vec![], 4));
    h.commit_spawn_success(1, 42, 0);
    let eff = h.handle_message(pueue_core::messages::Message::Send {
        task_id: 1,
        input: "stdin line".to_string(),
    });
    let payload = eff.stdin_write.expect("payload expected for a live child");
    assert_eq!(payload.task_id, 1);
    assert_eq!(payload.input, "stdin line");
}
