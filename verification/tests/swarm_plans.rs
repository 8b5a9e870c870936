use jcode::clock::Timestamp;
use jcode::swarm::driver::{
    already_running, delivery_note, display_name, driver_watch_update, retry_delay_secs,
    run_plan_options, started, started_title, RunPlanDriver, RunPlanRequest, RunPlanStep,
};
use jcode::swarm::plan::{
    in_flight_workers, observe_plan, read_interval, swarm_watch_runtime, swarm_watch_status,
    watchdog_interval_secs, PlanGraphStatus, SwarmMember,
};
use jcode::watch::model::RuntimeState;

fn ids(count: usize) -> Vec<String> {
    (0..count).map(|index| format!("n{index}")).collect()
}

fn plan(items: usize, completed: usize, failed: usize, active: usize, ready: usize) -> PlanGraphStatus {
    PlanGraphStatus {
        version: 7,
        item_count: items,
        mode: "dag".to_string(),
        completed_ids: ids(completed),
        failed_ids: ids(failed),
        active_ids: ids(active),
        next_ready_ids: ids(ready),
    }
}

fn member(session: &str, status: &str) -> SwarmMember {
    SwarmMember {
        session_id: session.to_string(),
        swarm_id: Some("swarm".to_string()),
        status: status.to_string(),
        is_headless: true,
        report_back_to_session_id: None,
    }
}

fn request() -> RunPlanRequest {
    RunPlanRequest {
        notify: None,
        wake: None,
        model: None,
        model_fallbacks: None,
        max_retries: None,
        retry_backoff_secs: None,
        expected_sha: None,
        expected_artifacts: None,
        timeout_minutes: None,
    }
}

#[test]
fn a_plan_ends_when_nothing_in_it_can_run() {
    assert_eq!(swarm_watch_runtime(&plan(0, 0, 0, 0, 0), 0), RuntimeState::Unknown);
    assert_eq!(swarm_watch_runtime(&plan(3, 1, 0, 1, 0), 0), RuntimeState::Running);
    assert_eq!(swarm_watch_runtime(&plan(3, 1, 0, 0, 1), 0), RuntimeState::Running);
    assert_eq!(swarm_watch_runtime(&plan(3, 1, 0, 0, 0), 1), RuntimeState::Running);
    assert_eq!(swarm_watch_runtime(&plan(3, 1, 0, 0, 0), 0), RuntimeState::Completed);
    assert_eq!(swarm_watch_runtime(&plan(3, 1, 1, 0, 0), 0), RuntimeState::Failed);
    assert_eq!(swarm_watch_runtime(&plan(3, 2, 1, 5, 5), 5), RuntimeState::Failed);
    assert_eq!(swarm_watch_runtime(&plan(3, 3, 0, 5, 5), 5), RuntimeState::Completed);
}

#[test]
fn the_state_of_a_plan_is_one_line() {
    assert_eq!(
        swarm_watch_status("abc", &plan(9, 1, 2, 3, 4), 5),
        "swarm=abc version=7 completed=1 failed=2 active=3 ready=4 in_flight=5"
    );
}

#[test]
fn workers_in_flight_are_counted() {
    let mut visible = member("w5", "running");
    visible.is_headless = false;
    let mut reporting = member("w6", "running_stale");
    reporting.is_headless = false;
    reporting.report_back_to_session_id = Some("owner".to_string());
    let mut elsewhere = member("w7", "running");
    elsewhere.swarm_id = None;
    let members = vec![
        member("w1", "queued"),
        member("w2", "running"),
        member("w3", "done"),
        member("owner", "running"),
        visible,
        reporting,
        elsewhere,
    ];
    assert_eq!(in_flight_workers(&members, "swarm", "owner"), 3);
    assert_eq!(in_flight_workers(&members, "other", "owner"), 0);
    let summary = plan(3, 1, 0, 0, 0);
    let seen = observe_plan("swarm", &Some("owner".to_string()), &summary, &members).unwrap();
    assert_eq!(seen.owner_session_id, "owner");
    assert_eq!(seen.runtime, RuntimeState::Running);
    assert!(seen.status.ends_with("in_flight=3"));
    assert!(observe_plan("swarm", &None, &summary, &members).is_none());
}

#[test]
fn the_interval_is_a_positive_number() {
    let interval = |text: &str| watchdog_interval_secs(&Some(text.to_string()));
    assert_eq!(watchdog_interval_secs(&None), 30);
    assert_eq!(interval("5"), 5);
    assert_eq!(interval("+5"), 5);
    assert_eq!(interval("0"), 30);
    assert_eq!(interval(" 5"), 30);
    assert_eq!(interval("-5"), 30);
    assert_eq!(interval("18446744073709551615"), u64::MAX);
    assert_eq!(interval("18446744073709551616"), 30);
    assert_eq!(interval(""), 30);
    assert_eq!(interval("+"), 30);
}

#[test]
fn settings_have_their_defaults() {
    let options = run_plan_options(&request());
    assert!(options.notify && options.wake);
    assert_eq!(options.max_retries, 0);
    assert_eq!(options.retry_backoff_secs, 30);
    assert_eq!(options.timeout_minutes, 60);
    let options = run_plan_options(&RunPlanRequest {
        notify: Some(false),
        model_fallbacks: Some(vec!["a".to_string(), "b".to_string()]),
        retry_backoff_secs: Some(0),
        timeout_minutes: Some(0),
        ..request()
    });
    assert!(!options.notify);
    assert_eq!(options.max_retries, 2);
    assert_eq!(options.retry_backoff_secs, 1);
    assert_eq!(options.timeout_minutes, 1);
}

#[test]
fn delays_double_up_to_half_an_hour() {
    assert_eq!(retry_delay_secs(30, 0), 30);
    assert_eq!(retry_delay_secs(30, 1), 60);
    assert_eq!(retry_delay_secs(30, 5), 960);
    assert_eq!(retry_delay_secs(30, 6), 1_800);
    assert_eq!(retry_delay_secs(u64::MAX, 99), 1_800);
    assert_eq!(retry_delay_secs(1, 10), 1_024);
}

#[test]
fn a_driver_tries_its_models_and_gives_up() {
    let options = run_plan_options(&RunPlanRequest {
        model: Some("first".to_string()),
        model_fallbacks: Some(vec!["second".to_string()]),
        max_retries: Some(2),
        retry_backoff_secs: Some(3),
        ..request()
    });
    let mut driver = RunPlanDriver::start(&options);
    assert_eq!(driver.model.as_deref(), Some("first"));
    match driver.failed(&options, "boom") {
        RunPlanStep::Retry { note, delay_secs } => {
            assert_eq!(delay_secs, 3);
            assert_eq!(
                note,
                "run_plan driver failed: boom. Retrying attempt 1/2 in 3s with model second."
            );
        }
        RunPlanStep::GiveUp { .. } => unreachable!(),
    }
    assert_eq!(driver.model.as_deref(), Some("second"));
    match driver.failed(&options, "boom") {
        RunPlanStep::Retry { note, delay_secs } => {
            assert_eq!(delay_secs, 6);
            assert_eq!(
                note,
                "run_plan driver failed: boom. Retrying attempt 2/2 in 6s."
            );
        }
        RunPlanStep::GiveUp { .. } => unreachable!(),
    }
    assert_eq!(driver.model.as_deref(), Some("second"));
    match driver.failed(&options, "boom") {
        RunPlanStep::GiveUp { note } => assert_eq!(note, "run_plan failed: boom"),
        RunPlanStep::Retry { .. } => unreachable!(),
    }
    assert_eq!(driver.retries, 2);
}

#[test]
fn the_watch_on_a_run_expects_what_was_asked_for() {
    let now = Timestamp { secs: 1_000, nanos: 0 };
    let options = run_plan_options(&RunPlanRequest {
        model_fallbacks: Some(vec!["b".to_string()]),
        expected_artifacts: Some(vec!["out.md".to_string()]),
        expected_sha: Some("abc".to_string()),
        timeout_minutes: Some(2),
        ..request()
    });
    let update = driver_watch_update(&options, &Some("/repo".to_string()), now).unwrap();
    assert_eq!(update.working_dir.as_deref(), Some("/repo"));
    assert_eq!(update.expected_sha.as_deref(), Some("abc"));
    let artifacts = update.expected_artifacts.unwrap();
    assert_eq!(artifacts[0].path, "out.md");
    assert!(artifacts[0].required);
    assert_eq!(update.deadline, Some(Timestamp { secs: 1_120, nanos: 0 }));
    assert_eq!(update.stale_after, Some(86_400));
    let retry = update.retry.unwrap();
    assert_eq!(retry.max_attempts, 2);
    assert_eq!(retry.initial_backoff_secs, 30);
    assert_eq!(retry.max_backoff_secs, 1_800);
    assert_eq!(retry.model_fallbacks, ["<inherited>", "b"]);
    assert!(update.worker_session_id.is_none());
    let never = run_plan_options(&RunPlanRequest {
        timeout_minutes: Some(i64::MAX as u64),
        ..request()
    });
    assert!(driver_watch_update(&never, &None, now).is_none());
}

#[test]
fn the_caller_is_told_of_a_run() {
    assert_eq!(display_name(3, "dag"), "run_plan (3 nodes, dag mode)");
    assert_eq!(
        already_running(&Some("t1".to_string())),
        "A swarm run_plan driver is already running for this session (task t1). \
         Check it with `bg action=\"status\" task_id=\"t1\"` or `swarm plan_status` instead of starting another."
    );
    assert_eq!(
        already_running(&None),
        "A swarm run_plan driver is already starting for this session. \
         Check it with `swarm plan_status` instead of starting another."
    );
    assert_eq!(
        delivery_note(true, false),
        "You'll be woken with the result when the plan reaches a terminal state."
    );
    assert_eq!(
        delivery_note(false, true),
        "A notification will appear when the plan reaches a terminal state."
    );
    let note = delivery_note(false, false);
    assert_eq!(note, "Notifications disabled. Use the `bg` tool to check status.");
    assert_eq!(
        started("t1", 3, "dag", "/out", &note),
        "🐝 Swarm plan running in background.\n\n\
         Task ID: t1\n\
         Plan: 3 node(s), dag mode\n\
         Output file: /out\n\n\
         Notifications disabled. Use the `bg` tool to check status.\n\
         Check progress: use the `bg` tool with action=\"status\" and task_id=\"t1\", or `swarm plan_status`.\n\
         Note: a server reload stops this driver (workers keep running); rerun `swarm run_plan` to resume driving the same plan."
    );
    assert_eq!(started_title("t1"), "Swarm run_plan in background: t1");
}

#[test]
fn an_empty_plan_is_told_of() {
    assert_eq!(
        jcode::swarm::driver::nothing_to_run(0).as_deref(),
        Some("No swarm plan items to run.")
    );
    assert_eq!(jcode::swarm::driver::nothing_to_run(1), None);
}

#[test]
fn an_interval_is_read_only_from_a_number_above_zero() {
    assert_eq!(read_interval("7"), Some(7));
    for text in ["0", "", "x", "-1", " 7"] {
        assert_eq!(read_interval(text), None);
    }
}

#[test]
fn a_run_takes_one_attempt_more_than_it_fails() {
    let options = run_plan_options(&RunPlanRequest {
        max_retries: Some(3),
        ..request()
    });
    for failures in 0..6 {
        let mut driver = RunPlanDriver::start(&options);
        let mut attempts = 0;
        let succeeded = loop {
            attempts += 1;
            if attempts > failures {
                break true;
            }
            if let RunPlanStep::GiveUp { .. } = driver.failed(&options, "boom") {
                break false;
            }
        };
        assert_eq!(succeeded, failures <= 3);
        assert_eq!(attempts, if failures <= 3 { failures + 1 } else { 4 });
    }
}
