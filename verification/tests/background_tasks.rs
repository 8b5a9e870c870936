use jcode::background::manager::BackgroundTaskManager;
use jcode::background::model::{
    count_reconciled, preview, BackgroundTaskCompleted, BackgroundTaskStatus, Stamp,
    TaskSituation, TaskStatusFile, ThisProcess, WatchedTask,
};
use jcode::clock::Timestamp;
use jcode::watch::model::{
    ArtifactExpectation, ReconcileObservation, RuntimeState, Surroundings, WatchStatus,
    WatchUpdate,
};
use jcode::watch::registry::OrchestrationWatchdog;

fn at(secs: i64) -> Timestamp {
    Timestamp { secs, nanos: 0 }
}

fn nowhere() -> Surroundings {
    Surroundings {
        repository: None,
        present_artifacts: Vec::new(),
        process_running: false,
    }
}

fn with_file(path: &str) -> Surroundings {
    Surroundings {
        present_artifacts: vec![path.to_string()],
        ..nowhere()
    }
}

fn this() -> ThisProcess {
    ThisProcess {
        pid: 100,
        instance: "this-instance".to_string(),
    }
}

fn stamp(secs: i64) -> Stamp {
    Stamp {
        now: at(secs),
        lease_id: format!("lease-{secs}"),
        event_id: format!("event-{secs}"),
    }
}

fn status(task_id: &str) -> TaskStatusFile {
    TaskStatusFile {
        task_id: task_id.to_string(),
        tool_name: "bash".to_string(),
        display_name: Some("a task".to_string()),
        session_id: "session-1".to_string(),
        status: BackgroundTaskStatus::Running,
        exit_code: None,
        error: None,
        completed_at: None,
        pid: None,
        owner_pid: Some(55),
        owner_instance: Some("another-instance".to_string()),
        detached: false,
        notify: true,
        wake: false,
    }
}

fn situation(status: Option<TaskStatusFile>) -> TaskSituation {
    TaskSituation {
        status,
        live: false,
        owner_running: false,
        pid_running: false,
        around: nowhere(),
        output: "output".to_string(),
        output_file: "/out/task.log".to_string(),
    }
}

fn manager_with(tasks: &[&str]) -> BackgroundTaskManager {
    let mut manager =
        BackgroundTaskManager::with_watchdog(OrchestrationWatchdog::with_root("/state"));
    for task in tasks {
        manager
            .register_watch(task, "session-1", None, "/repo", nowhere())
            .unwrap();
    }
    manager
}

/// The manager with its watches registered at the beginning of time.
fn aged(tasks: &[&str]) -> BackgroundTaskManager {
    let manager = manager_with(tasks);
    let mut watchdog = OrchestrationWatchdog::with_root("/state");
    for mut record in manager.watchdog().list() {
        record.created_at = at(0);
        record.updated_at = at(0);
        record.next_check_at = Some(at(0));
        watchdog.restore(record);
    }
    BackgroundTaskManager::with_watchdog(watchdog)
}

fn event(task_id: &str, status: BackgroundTaskStatus) -> BackgroundTaskCompleted {
    BackgroundTaskCompleted {
        task_id: task_id.to_string(),
        tool_name: "bash".to_string(),
        display_name: None,
        session_id: "session-1".to_string(),
        status,
        exit_code: Some(1),
        output_preview: "tail".to_string(),
        output_file: "/out".to_string(),
        notify: true,
        wake: true,
    }
}

fn watched(manager: &BackgroundTaskManager, task: &str, situation: TaskSituation) -> WatchedTask {
    WatchedTask {
        record: manager.watchdog().get(task).unwrap(),
        situation,
    }
}

#[test]
fn a_background_task_gets_a_watch_of_a_week() {
    let manager = manager_with(&["t1"]);
    let record = manager.watchdog().get("t1").unwrap();
    assert_eq!(record.dedupe_key, "background:session-1:t1");
    assert_eq!(record.stale_after_secs, 604_800);
    assert_eq!(record.retry.max_attempts, 1);
    assert_eq!(record.working_dir, "/repo");
}

#[test]
fn a_watch_can_be_configured() {
    let mut manager = manager_with(&["t1"]);
    let record = manager
        .configure_watch(
            "t1",
            WatchUpdate {
                expected_sha: Some("abc".to_string()),
                ..WatchUpdate::default()
            },
            nowhere(),
        )
        .unwrap();
    assert_eq!(record.expected_sha.as_deref(), Some("abc"));
    assert!(manager
        .configure_watch("none", WatchUpdate::default(), nowhere())
        .is_err());
}

#[test]
fn the_end_of_a_task_is_published_once() {
    let mut manager = aged(&["t1"]);
    let first = manager
        .publish_completion_once_at(
            event("t1", BackgroundTaskStatus::Failed),
            &nowhere(),
            at(10),
            "e1".to_string(),
        )
        .unwrap();
    assert_eq!(first.status, BackgroundTaskStatus::Failed);
    assert_eq!(first.output_preview, "tail");
    assert!(manager
        .publish_completion_once_at(
            event("t1", BackgroundTaskStatus::Failed),
            &nowhere(),
            at(20),
            "e2".to_string(),
        )
        .is_none());
    // The claim has expired without an acknowledgement.
    assert!(manager
        .publish_completion_once_at(
            event("t1", BackgroundTaskStatus::Failed),
            &nowhere(),
            at(310),
            "e3".to_string(),
        )
        .is_some());
}

#[test]
fn evidence_is_told_and_counts_for_more() {
    let mut manager = aged(&["t1"]);
    manager
        .configure_watch(
            "t1",
            WatchUpdate {
                expected_artifacts: Some(vec![ArtifactExpectation::required("r.json")]),
                ..WatchUpdate::default()
            },
            nowhere(),
        )
        .unwrap();
    let told = manager
        .publish_completion_once(event("t1", BackgroundTaskStatus::Failed), &with_file("r.json"))
        .unwrap();
    assert_eq!(told.status, BackgroundTaskStatus::Completed);
    assert_eq!(
        told.output_preview,
        "tail\n\nWatchdog evidence:\nrequired artifact exists: r.json"
    );
}

#[test]
fn a_task_without_a_watch_is_published_as_it_is() {
    let mut manager = manager_with(&[]);
    let told = manager
        .publish_completion_once(event("t9", BackgroundTaskStatus::Superseded), &nowhere())
        .unwrap();
    assert_eq!(told.status, BackgroundTaskStatus::Superseded);
}

#[test]
fn a_running_task_is_not_published() {
    let mut manager = aged(&["t1"]);
    assert!(manager
        .publish_completion_once_at(
            event("t1", BackgroundTaskStatus::Running),
            &nowhere(),
            at(10),
            "e".to_string(),
        )
        .is_none());
}

#[test]
fn orphans_are_told_from_other_tasks() {
    let orphan = |status: &TaskStatusFile, owner_running: bool| {
        BackgroundTaskManager::status_is_reconcilable_orphan(status, &this(), owner_running)
    };
    assert!(orphan(&status("t"), false));
    assert!(!orphan(&status("t"), true));
    // The process was replaced and kept its number.
    let reused = TaskStatusFile {
        owner_pid: Some(100),
        ..status("t")
    };
    assert!(orphan(&reused, true));
    let changes: [fn(&mut TaskStatusFile); 5] = [
        |status| status.detached = true,
        |status| status.pid = Some(9),
        |status| status.owner_pid = None,
        |status| status.owner_instance = Some("this-instance".to_string()),
        |status| status.status = BackgroundTaskStatus::Failed,
    ];
    for change in changes {
        let mut other = status("t");
        change(&mut other);
        assert!(!orphan(&other, false));
    }
}

#[test]
fn an_orphan_is_given_up_once() {
    let mut manager = aged(&["t1"]);
    let situations = vec![
        situation(Some(status("t1"))),
        situation(None),
        TaskSituation {
            live: true,
            ..situation(Some(status("t2")))
        },
    ];
    let stamps = vec![stamp(100), stamp(101), stamp(102)];
    let outcomes = manager.reconcile_orphaned_tasks_at(&situations, &this(), &stamps);
    assert_eq!(count_reconciled(&outcomes), 1);
    let ended = outcomes[0].status.as_ref().unwrap();
    assert_eq!(ended.status, BackgroundTaskStatus::Failed);
    assert_eq!(ended.exit_code, None);
    assert_eq!(
        ended.error.as_deref(),
        Some("Task orphaned: the owning server process exited (reloaded or crashed) before the task finished")
    );
    assert_eq!(
        ended.completed_at.as_deref(),
        Some("1970-01-01T00:01:40+00:00")
    );
    assert_eq!(outcomes[0].completions.len(), 1);
    assert_eq!(outcomes[0].completions[0].output_preview, "output");
    assert!(outcomes[1].status.is_none());
    assert!(outcomes[2].status.is_none());
    assert_eq!(
        manager.watchdog().get("t1").unwrap().status,
        WatchStatus::Failed
    );

    let again = vec![situation(Some(ended.clone()))];
    let outcomes = manager.reconcile_orphaned_tasks(&again, &this());
    assert_eq!(count_reconciled(&outcomes), 0);
    assert!(outcomes[0].completions.is_empty());
}

#[test]
fn an_orphan_with_evidence_is_completed() {
    let mut manager = aged(&["t1"]);
    manager
        .configure_watch(
            "t1",
            WatchUpdate {
                expected_artifacts: Some(vec![ArtifactExpectation::required("r")]),
                ..WatchUpdate::default()
            },
            nowhere(),
        )
        .unwrap();
    let seen = TaskSituation {
        around: with_file("r"),
        ..situation(Some(status("t1")))
    };
    let (ended, outcome) =
        manager.finalize_orphaned_status_if_needed(status("t1"), &seen, &this(), &stamp(100));
    assert_eq!(ended.status, BackgroundTaskStatus::Completed);
    assert_eq!(ended.exit_code, Some(0));
    assert_eq!(ended.error, None);
    assert!(outcome.counted);
    assert_eq!(
        outcome.completions[0].output_preview,
        "output\n\nWatchdog evidence:\nrequired artifact exists: r"
    );
}

#[test]
fn a_swarm_that_still_runs_keeps_its_status_file() {
    let mut manager = aged(&["t1"]);
    let swarm = TaskStatusFile {
        tool_name: "swarm".to_string(),
        ..status("t1")
    };
    let tasks = vec![watched(&manager, "t1", situation(Some(swarm.clone())))];
    let outcomes = manager.reconcile_swarm_plan_status_at(
        &tasks,
        "session-1",
        RuntimeState::Running,
        "swarm=abc active=1",
        &vec![stamp(50)],
    );
    assert_eq!(count_reconciled(&outcomes), 1);
    assert!(outcomes[0].status.is_none());
    let record = manager.watchdog().get("t1").unwrap();
    assert_eq!(
        record.last_swarm_status.as_deref(),
        Some("swarm=abc active=1")
    );
    assert!(record.active_check.is_none());

    let seen = situation(Some(swarm.clone()));
    let (kept, outcome) =
        manager.finalize_orphaned_status_if_needed(swarm, &seen, &this(), &stamp(60));
    assert_eq!(kept.status, BackgroundTaskStatus::Running);
    assert!(!outcome.counted);
    // Its status file stays as it is, so that it does not count.
    let outcomes = manager.reconcile_orphaned_tasks(&vec![seen], &this());
    assert_eq!(count_reconciled(&outcomes), 0);
    assert!(outcomes[0].status.is_none());
    assert!(outcomes[0].completions.is_empty());
}

#[test]
fn a_finished_swarm_plan_ends_its_task() {
    let swarm = || TaskStatusFile {
        tool_name: "swarm".to_string(),
        ..status("t1")
    };
    let mut manager = aged(&["t1", "t2"]);
    let tasks = vec![
        watched(&manager, "t1", situation(Some(swarm()))),
        watched(&manager, "t2", situation(Some(status("t2")))),
    ];
    let outcomes = manager.reconcile_swarm_plan_status_at(
        &tasks,
        "session-1",
        RuntimeState::Failed,
        "swarm=abc failed=1",
        &vec![stamp(50), stamp(51)],
    );
    assert_eq!(count_reconciled(&outcomes), 1);
    let ended = outcomes[0].status.as_ref().unwrap();
    assert_eq!(ended.status, BackgroundTaskStatus::Failed);
    assert_eq!(
        ended.error.as_deref(),
        Some("Swarm plan reconciled as swarm=abc failed=1")
    );
    assert_eq!(
        outcomes[0].completions[0].output_preview,
        "output\n\nSwarm watchdog: swarm=abc failed=1"
    );
    assert!(outcomes[1].status.is_none());

    let mut manager = aged(&["t1"]);
    let mut silent = situation(Some(swarm()));
    silent.output = String::new();
    let tasks = vec![watched(&manager, "t1", silent)];
    let outcomes = manager.reconcile_swarm_plan_status(
        &tasks,
        "session-1",
        RuntimeState::Completed,
        "swarm=abc",
    );
    assert_eq!(
        outcomes[0].status.as_ref().unwrap().exit_code,
        Some(0)
    );
    assert_eq!(
        outcomes[0].completions[0].output_preview,
        "Swarm watchdog: swarm=abc\n\nWatchdog evidence:\nruntime reported completion"
    );

    let mut manager = aged(&["t1"]);
    let tasks = vec![
        watched(&manager, "t1", situation(Some(swarm()))),
        watched(&manager, "t1", situation(Some(swarm()))),
        watched(&manager, "t1", TaskSituation { live: true, ..situation(Some(swarm())) }),
        watched(&manager, "t1", situation(None)),
    ];
    let outcomes = manager.reconcile_swarm_plan_status_at(
        &tasks,
        "another-session",
        RuntimeState::Completed,
        "swarm=abc",
        &vec![stamp(1), stamp(2), stamp(3), stamp(4)],
    );
    assert_eq!(count_reconciled(&outcomes), 0);
}

#[test]
fn a_running_task_is_checked() {
    let mut manager = aged(&["t1"]);
    let detached = TaskStatusFile {
        detached: true,
        pid: Some(77),
        ..status("t1")
    };
    let seen = TaskSituation {
        pid_running: true,
        ..situation(Some(detached))
    };
    let tasks = vec![watched(&manager, "t1", seen)];
    let outcomes =
        manager.reconcile_watchdog_tasks_at(&tasks, &this(), &vec![stamp(100)], at(101));
    assert_eq!(count_reconciled(&outcomes), 1);
    let record = manager.watchdog().get("t1").unwrap();
    assert_eq!(record.runtime_state, RuntimeState::Running);
    assert_eq!(record.next_check_at, Some(at(130)));
    assert!(record.active_check.is_none());
    // The next check is not due yet.
    let outcomes =
        manager.reconcile_watchdog_tasks_at(&tasks, &this(), &vec![stamp(110)], at(111));
    assert_eq!(count_reconciled(&outcomes), 0);
}

#[test]
fn the_end_in_a_status_file_is_published() {
    let mut manager = aged(&["t1"]);
    let done = TaskStatusFile {
        status: BackgroundTaskStatus::Completed,
        exit_code: Some(0),
        ..status("t1")
    };
    let tasks = vec![watched(&manager, "t1", situation(Some(done)))];
    let outcomes =
        manager.reconcile_watchdog_tasks_at(&tasks, &this(), &vec![stamp(100)], at(101));
    assert_eq!(count_reconciled(&outcomes), 1);
    assert_eq!(outcomes[0].completions.len(), 1);
    assert_eq!(outcomes[0].completions[0].exit_code, Some(0));
    assert!(outcomes[0].status.is_none());
    assert_eq!(
        manager.watchdog().get("t1").unwrap().status,
        WatchStatus::Completed
    );
}

#[test]
fn an_orphan_in_the_sweep_is_told_once() {
    let mut manager = aged(&["t1"]);
    let tasks = vec![watched(&manager, "t1", situation(Some(status("t1"))))];
    let outcomes =
        manager.reconcile_watchdog_tasks_at(&tasks, &this(), &vec![stamp(100)], at(101));
    assert_eq!(outcomes[0].completions.len(), 1);
    assert_eq!(
        outcomes[0].status.as_ref().unwrap().status,
        BackgroundTaskStatus::Failed
    );
    assert!(outcomes[0].counted);
}

#[test]
fn a_watch_without_a_status_file_is_recovered() {
    let mut manager = aged(&["t1"]);
    let tasks = vec![watched(&manager, "t1", situation(None))];
    let early =
        manager.reconcile_watchdog_tasks_at(&tasks, &this(), &vec![stamp(100)], at(101));
    assert!(early[0].completions.is_empty());
    assert!(!early[0].counted);

    let week = 604_800;
    let tasks = vec![watched(&manager, "t1", situation(None))];
    let late =
        manager.reconcile_watchdog_tasks_at(&tasks, &this(), &vec![stamp(week)], at(week));
    let told = &late[0].completions[0];
    assert_eq!(told.tool_name, "orchestration_watchdog");
    assert_eq!(
        told.display_name.as_deref(),
        Some("recovered orchestration watch")
    );
    assert_eq!(told.status, BackgroundTaskStatus::Failed);
    assert_eq!(
        told.output_preview,
        "Watchdog reached a terminal state after the original status file was lost."
    );
    assert!(told.notify && told.wake);

    // The claim expires and the terminal watch is told again.
    let tasks = vec![watched(&manager, "t1", situation(None))];
    let again = manager.reconcile_watchdog_tasks_at(
        &tasks,
        &this(),
        &vec![stamp(week + 300)],
        at(week + 300),
    );
    assert_eq!(
        again[0].completions[0].output_preview,
        "Recovered terminal orchestration watch pending delivery."
    );
}

#[test]
fn old_terminal_watches_are_swept_away() {
    let mut manager = aged(&["t1", "t2"]);
    let done = TaskStatusFile {
        status: BackgroundTaskStatus::Completed,
        ..status("t1")
    };
    let tasks = vec![watched(&manager, "t1", situation(Some(done)))];
    manager.reconcile_watchdog_tasks_at(&tasks, &this(), &vec![stamp(100)], at(101));
    assert!(manager.watchdog().get("t1").is_some());
    manager.reconcile_watchdog_tasks_at(
        &Vec::new(),
        &this(),
        &Vec::new(),
        at(604_800 + 101),
    );
    assert!(manager.watchdog().get("t1").is_none());
    assert!(manager.watchdog().get("t2").is_some());
    let outcomes = manager.reconcile_watchdog_tasks(&Vec::new(), &this());
    assert!(outcomes.is_empty());
}

#[test]
fn long_output_is_cut_at_a_character() {
    assert_eq!(preview("short"), "short");
    assert_eq!(preview(&"x".repeat(500)), "x".repeat(500));
    assert_eq!(preview(&"x".repeat(501)), "x".repeat(500) + "...");
    let wide = "x".repeat(499) + "é";
    assert_eq!(preview(&wide), "x".repeat(499) + "...");
}

#[test]
fn an_observation_is_taken_now() {
    let seen = ReconcileObservation::runtime(RuntimeState::Unknown);
    assert_eq!(seen.runtime_state, RuntimeState::Unknown);
    assert!(!seen.observed_at.is_before(&at(1_600_000_000)));
}

#[test]
fn repeated_sweeps_publish_an_end_once() {
    let mut manager = aged(&["t1", "t2"]);
    let done = || TaskStatusFile {
        status: BackgroundTaskStatus::Completed,
        exit_code: Some(0),
        ..status("t1")
    };
    // The list is the one that was made before the first sweep.
    let tasks = || {
        let listed = aged(&["t1", "t2"]);
        vec![
            watched(&listed, "t1", situation(Some(done()))),
            watched(&listed, "t2", situation(Some(status("t2")))),
        ]
    };
    let mut told = Vec::new();
    for secs in [100, 110, 250, 399] {
        let stamps = vec![stamp(secs), stamp(secs)];
        let outcomes =
            manager.reconcile_watchdog_tasks_at(&tasks(), &this(), &stamps, at(secs));
        for outcome in outcomes {
            told.extend(outcome.completions.into_iter().map(|event| event.task_id));
        }
    }
    assert_eq!(told, ["t1", "t2"]);
}

#[test]
fn repeated_sweeps_claim_a_due_check_once() {
    let mut manager = aged(&["t1"]);
    let detached = || TaskStatusFile {
        detached: true,
        pid: Some(77),
        ..status("t1")
    };
    let mut checks = 0;
    for secs in [100, 101, 115, 129] {
        let seen = TaskSituation {
            pid_running: true,
            ..situation(Some(detached()))
        };
        let tasks = vec![watched(&manager, "t1", seen)];
        let outcomes =
            manager.reconcile_watchdog_tasks_at(&tasks, &this(), &vec![stamp(secs)], at(secs));
        checks += count_reconciled(&outcomes);
    }
    assert_eq!(checks, 1);
    let seen = TaskSituation {
        pid_running: true,
        ..situation(Some(detached()))
    };
    let tasks = vec![watched(&manager, "t1", seen)];
    let outcomes =
        manager.reconcile_watchdog_tasks_at(&tasks, &this(), &vec![stamp(130)], at(130));
    assert_eq!(count_reconciled(&outcomes), 1);
}
