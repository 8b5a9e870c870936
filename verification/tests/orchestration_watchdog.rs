use std::io::{Read, Write};
use std::path::Path;

use jcode::clock::Timestamp;
use jcode::watch::model::{
    ArtifactExpectation, DeliveryState, ReconcileObservation, RepositorySnapshot, RetryPolicy,
    RuntimeState, Surroundings, WatchError, WatchRecord, WatchSpec, WatchStatus, WatchUpdate,
};
use jcode::watch::registry::OrchestrationWatchdog;
use jcode::watch::transition::{backoff_secs, inspect_repository};

const HEAD: &str = "1111111111111111111111111111111111111111";
const NEXT_HEAD: &str = "2222222222222222222222222222222222222222";

/// A file of this name and content in a directory.
fn write_file(dir: &Path, name: &str, content: &str) -> tempfile::NamedTempFile {
    let mut file = tempfile::Builder::new()
        .prefix(name)
        .rand_bytes(0)
        .tempfile_in(dir)
        .unwrap();
    file.write_all(content.as_bytes()).unwrap();
    file
}

fn read_file(file: &tempfile::NamedTempFile) -> String {
    let mut content = String::new();
    file.reopen().unwrap().read_to_string(&mut content).unwrap();
    content
}

/// A directory that holds a file like a repository's working tree does.
fn init_repo() -> (tempfile::TempDir, tempfile::NamedTempFile) {
    let dir = tempfile::tempdir().unwrap();
    let readme = write_file(dir.path(), "README.md", "initial\n");
    (dir, readme)
}

/// The names among these of which the directory holds a file.
fn existing<'a>(dir: &Path, names: &[&'a str]) -> Vec<&'a str> {
    names
        .iter()
        .copied()
        .filter(|name| dir.join(name).exists())
        .collect()
}

fn clean(head: &str) -> Surroundings {
    around(head, "", &[])
}

fn around(head: &str, status: &str, present: &[&str]) -> Surroundings {
    Surroundings {
        repository: inspect_repository(true, &format!("{head}\n"), status),
        present_artifacts: present.iter().map(|path| path.to_string()).collect(),
        process_running: false,
    }
}

fn spec(job_id: &str, repo: &Path) -> WatchSpec {
    WatchSpec {
        job_id: job_id.to_string(),
        dedupe_key: format!("session-1:{job_id}"),
        owner_session_id: "session-1".to_string(),
        worker_session_id: Some("worker-1".to_string()),
        process_id: None,
        working_dir: repo.to_str().unwrap().to_string(),
        baseline_sha: None,
        expected_sha: None,
        expected_artifacts: Vec::new(),
        deadline: Timestamp::now().plus(600),
        stale_after: 3600,
        retry: RetryPolicy::default(),
    }
}

/// The registry as another process finds it.
fn reload(watchdog: &OrchestrationWatchdog) -> OrchestrationWatchdog {
    let mut reloaded = OrchestrationWatchdog::with_root(&watchdog.root());
    for record in watchdog.list() {
        reloaded.restore(record);
    }
    reloaded
}

fn at(secs: i64) -> Timestamp {
    Timestamp { secs, nanos: 0 }
}

fn observed(state: RuntimeState, secs: i64) -> ReconcileObservation {
    ReconcileObservation {
        runtime_state: state,
        process_running: None,
        swarm_status: None,
        retries_exhausted: false,
        observed_at: at(secs),
    }
}

fn registered(job_id: &str, secs: i64) -> OrchestrationWatchdog {
    let mut watchdog = OrchestrationWatchdog::with_root("/state");
    watchdog
        .register_at(spec(job_id, Path::new("/repo")), clean(HEAD), at(secs))
        .unwrap();
    watchdog
}

#[test]
fn normal_completion_is_terminal_and_deliverable() {
    let (repo, _readme) = init_repo();
    let mut watchdog = OrchestrationWatchdog::with_root("/state");
    watchdog
        .register(spec("normal", repo.path()), clean(HEAD))
        .unwrap();

    let record = watchdog
        .reconcile(
            "normal",
            &ReconcileObservation::runtime(RuntimeState::Completed),
            &clean(HEAD),
        )
        .unwrap();
    assert_eq!(record.status, WatchStatus::Completed);
    assert!(watchdog
        .claim_terminal_delivery("normal", "dispatcher-a")
        .unwrap()
        .is_some());
}

#[test]
fn timeout_can_later_reconcile_to_completion() {
    let (repo, _readme) = init_repo();
    let mut watchdog = OrchestrationWatchdog::with_root("/state");
    let mut watch = spec("late", repo.path());
    watch.deadline = Timestamp::now().plus(-1);
    watchdog.register(watch, clean(HEAD)).unwrap();

    let timed_out = watchdog
        .reconcile(
            "late",
            &ReconcileObservation::runtime(RuntimeState::Running),
            &clean(HEAD),
        )
        .unwrap();
    assert_eq!(timed_out.status, WatchStatus::Watching);
    assert!(timed_out.deadline_exceeded_at.is_some());

    let completed = watchdog
        .reconcile(
            "late",
            &ReconcileObservation::runtime(RuntimeState::Completed),
            &clean(HEAD),
        )
        .unwrap();
    assert_eq!(completed.status, WatchStatus::Completed);
}

#[test]
fn registry_recovers_after_server_reload() {
    let (repo, _readme) = init_repo();
    let mut first = OrchestrationWatchdog::with_root("/state");
    first
        .register(spec("reload", repo.path()), clean(HEAD))
        .unwrap();
    let mut second = reload(&first);
    second
        .reconcile(
            "reload",
            &ReconcileObservation {
                runtime_state: RuntimeState::Running,
                process_running: None,
                swarm_status: Some("swarm=abc active=1".to_string()),
                retries_exhausted: false,
                observed_at: Timestamp::now(),
            },
            &clean(HEAD),
        )
        .unwrap();

    let reloaded = reload(&second);
    let record = reloaded.get("reload").unwrap();
    assert_eq!(record.owner_session_id, "session-1");
    assert_eq!(
        record.last_swarm_status.as_deref(),
        Some("swarm=abc active=1")
    );
}

#[test]
fn lost_swarm_ownership_falls_back_to_artifact_evidence() {
    let (repo, _readme) = init_repo();
    let mut watchdog = OrchestrationWatchdog::with_root("/state");
    let mut watch = spec("lost-owner", repo.path());
    watch.expected_artifacts = vec![ArtifactExpectation::required("result.json")];
    assert!(existing(repo.path(), &["result.json"]).is_empty());
    watchdog.register(watch, clean(HEAD)).unwrap();
    let _result = write_file(repo.path(), "result.json", "{}\n");

    let record = watchdog
        .reconcile(
            "lost-owner",
            &ReconcileObservation::runtime(RuntimeState::OwnershipLost),
            &around(
                HEAD,
                "?? result.json\n",
                &existing(repo.path(), &["result.json"]),
            ),
        )
        .unwrap();
    assert_eq!(record.status, WatchStatus::Completed);
    assert!(record
        .completion_evidence
        .iter()
        .any(|item| item.contains("result.json")));
    assert_eq!(
        record.completion_evidence,
        ["required artifact exists: result.json"]
    );
}

#[test]
fn duplicate_scheduled_checks_are_coalesced() {
    let (repo, _readme) = init_repo();
    let mut watchdog = OrchestrationWatchdog::with_root("/state");
    watchdog
        .register(spec("dedupe", repo.path()), clean(HEAD))
        .unwrap();

    let first = watchdog
        .claim_due_check("dedupe", "scheduler-a")
        .unwrap()
        .unwrap();
    assert!(watchdog
        .claim_due_check("dedupe", "scheduler-b")
        .unwrap()
        .is_none());
    watchdog.finish_check("dedupe", &first.lease_id).unwrap();
}

#[test]
fn worker_failure_uses_backoff_and_model_fallback_before_terminal_failure() {
    let (repo, _readme) = init_repo();
    let mut watchdog = OrchestrationWatchdog::with_root("/state");
    let mut watch = spec("retry", repo.path());
    watch.retry = RetryPolicy {
        max_attempts: 2,
        initial_backoff_secs: 1,
        max_backoff_secs: 10,
        model_fallbacks: vec!["model-a".into(), "model-b".into()],
    };
    watchdog.register(watch, clean(HEAD)).unwrap();

    let retry = watchdog
        .reconcile(
            "retry",
            &ReconcileObservation::runtime(RuntimeState::Failed),
            &clean(HEAD),
        )
        .unwrap();
    assert_eq!(retry.status, WatchStatus::RetryScheduled);
    assert_eq!(retry.next_model.as_deref(), Some("model-b"));
    assert!(retry.next_check_at.is_some());

    watchdog.mark_retry_started("retry", Some(123)).unwrap();
    let failed = watchdog
        .reconcile(
            "retry",
            &ReconcileObservation::runtime(RuntimeState::Failed),
            &clean(HEAD),
        )
        .unwrap();
    assert_eq!(failed.status, WatchStatus::Failed);
}

#[test]
fn stale_job_becomes_terminal_without_destructive_recovery() {
    let (repo, _readme) = init_repo();
    let mut watchdog = OrchestrationWatchdog::with_root("/state");
    let mut watch = spec("stale", repo.path());
    watch.stale_after = 0;
    watchdog.register(watch, clean(HEAD)).unwrap();

    let record = watchdog
        .reconcile(
            "stale",
            &ReconcileObservation::runtime(RuntimeState::Unknown),
            &clean(HEAD),
        )
        .unwrap();
    assert_eq!(record.status, WatchStatus::Stale);
    assert!(repo.path().join("README.md").exists());
}

#[test]
fn repo_commit_is_completion_evidence_without_agent_status() {
    let (repo, _readme) = init_repo();
    let mut watchdog = OrchestrationWatchdog::with_root("/state");
    watchdog
        .register(spec("commit", repo.path()), clean(HEAD))
        .unwrap();
    let _done = write_file(repo.path(), "done.txt", "done\n");

    let record = watchdog
        .reconcile(
            "commit",
            &ReconcileObservation::runtime(RuntimeState::Unknown),
            &clean(NEXT_HEAD),
        )
        .unwrap();
    assert_eq!(record.status, WatchStatus::Completed);
    assert!(record
        .completion_evidence
        .iter()
        .any(|item| item.contains("HEAD advanced")));
    assert_eq!(
        record.completion_evidence,
        [format!("repository HEAD advanced from {HEAD} to {NEXT_HEAD}")]
    );
}

#[test]
fn terminal_notification_is_claimed_exactly_once() {
    let (repo, _readme) = init_repo();
    let mut watchdog = OrchestrationWatchdog::with_root("/state");
    watchdog
        .register(spec("once", repo.path()), clean(HEAD))
        .unwrap();
    watchdog
        .reconcile(
            "once",
            &ReconcileObservation::runtime(RuntimeState::Completed),
            &clean(HEAD),
        )
        .unwrap();

    let delivery = watchdog
        .claim_terminal_delivery("once", "dispatcher-a")
        .unwrap()
        .unwrap();
    assert!(!delivery.event_id.is_empty());
    assert!(watchdog.acknowledge_claimed_delivery("once"));
    assert!(watchdog
        .claim_terminal_delivery("once", "dispatcher-b")
        .unwrap()
        .is_none());

    let mut reloaded = reload(&watchdog);
    assert!(reloaded
        .claim_terminal_delivery("once", "dispatcher-c")
        .unwrap()
        .is_none());
}

#[test]
fn dirty_worktree_is_observed_but_never_reset() {
    let repo = tempfile::tempdir().unwrap();
    let mut watchdog = OrchestrationWatchdog::with_root("/state");
    watchdog
        .register(spec("dirty", repo.path()), clean(HEAD))
        .unwrap();
    let readme = write_file(repo.path(), "README.md", "user work\n");

    let record = watchdog
        .reconcile(
            "dirty",
            &ReconcileObservation::runtime(RuntimeState::Running),
            &around(HEAD, " M README.md\n", &[]),
        )
        .unwrap();
    assert!(record.repository.as_ref().unwrap().dirty);
    assert_eq!(read_file(&readme), "user work\n");
    let repository = record.repository.unwrap();
    assert_eq!(repository.status_summary, "M README.md");
    assert_eq!(repository.head_sha.as_deref(), Some(HEAD));
    assert_eq!(record.status, WatchStatus::Watching);
}

#[test]
fn terminal_watch_cleanup_removes_only_registry_state() {
    let (repo, _readme) = init_repo();
    let mut watchdog = OrchestrationWatchdog::with_root("/state");
    watchdog
        .register(spec("cleanup", repo.path()), clean(HEAD))
        .unwrap();
    watchdog
        .reconcile(
            "cleanup",
            &ReconcileObservation::runtime(RuntimeState::Completed),
            &clean(HEAD),
        )
        .unwrap();

    assert_eq!(
        watchdog.cleanup_terminal_before(Timestamp::now().plus(1).unwrap()),
        1
    );
    assert!(watchdog.get("cleanup").is_none());
    assert!(repo.path().join("README.md").exists());
}

// ---------------------------------------------------------------------------
// Registration
// ---------------------------------------------------------------------------

fn refusal(change: fn(&mut WatchSpec)) -> String {
    let mut watchdog = OrchestrationWatchdog::with_root("/state");
    let mut watch = spec("job", Path::new("/repo"));
    change(&mut watch);
    let error = watchdog.register_at(watch, clean(HEAD), at(0)).unwrap_err();
    assert!(watchdog.list().is_empty());
    error.message()
}

#[test]
fn unusable_watches_are_refused() {
    assert_eq!(
        refusal(|watch| watch.job_id = " \t".to_string()),
        "watch job_id must not be blank"
    );
    assert_eq!(
        refusal(|watch| watch.dedupe_key = String::new()),
        "watch dedupe_key must not be blank"
    );
    assert_eq!(
        refusal(|watch| watch.owner_session_id = "\u{a0}".to_string()),
        "watch owner_session_id must not be blank"
    );
    assert_eq!(
        refusal(|watch| watch.working_dir = "repo".to_string()),
        "watch working_dir must be absolute"
    );
    assert_eq!(
        refusal(|watch| {
            watch.expected_artifacts = vec![
                ArtifactExpectation::optional("out/report.md"),
                ArtifactExpectation::required("out/../../secret"),
            ]
        }),
        "expected artifact must stay inside the watched working directory: out/../../secret"
    );
    assert_eq!(
        refusal(|watch| {
            watch.expected_artifacts = vec![ArtifactExpectation::required("/etc/hosts")]
        }),
        "expected artifact must stay inside the watched working directory: /etc/hosts"
    );
}

#[test]
fn a_new_watch_takes_its_baseline_from_the_repository() {
    let watchdog = registered("job", 1_000);
    let record = watchdog.get("job").unwrap();
    assert_eq!(record.baseline_sha.as_deref(), Some(HEAD));
    assert_eq!(record.status, WatchStatus::Watching);
    assert_eq!(record.runtime_state, RuntimeState::Running);
    assert_eq!(record.attempt, 1);
    assert_eq!(record.next_check_at, Some(at(1_000)));
    assert_eq!(record.created_at, at(1_000));
    assert_eq!(record.stale_after_secs, 3_600);
    assert_eq!(record.audit.len(), 1);
    assert_eq!(record.audit[0].kind, "registered");
    assert_eq!(record.audit[0].detail, "durable watch registered");
}

#[test]
fn a_negative_patience_counts_as_none() {
    let mut watchdog = OrchestrationWatchdog::with_root("/state");
    let mut watch = spec("job", Path::new("/repo"));
    watch.stale_after = -5;
    let record = watchdog.register_at(watch, clean(HEAD), at(0)).unwrap();
    assert_eq!(record.stale_after_secs, 0);
}

#[test]
fn an_active_dedupe_key_is_registered_once() {
    let mut watchdog = registered("job", 1_000);
    let mut second = spec("another-job", Path::new("/elsewhere"));
    second.dedupe_key = "session-1:job".to_string();
    let answer = watchdog
        .register_at(second, clean(NEXT_HEAD), at(2_000))
        .unwrap();
    assert_eq!(answer.job_id, "job");
    assert_eq!(answer.working_dir, "/repo");
    assert_eq!(watchdog.list().len(), 1);

    watchdog
        .reconcile_with(
            "job",
            &observed(RuntimeState::Completed, 2_100),
            &clean(HEAD),
            "event".to_string(),
        )
        .unwrap();
    let mut third = spec("third-job", Path::new("/repo"));
    third.dedupe_key = "session-1:job".to_string();
    let answer = watchdog
        .register_at(third, clean(HEAD), at(2_200))
        .unwrap();
    assert_eq!(answer.job_id, "third-job");
    assert_eq!(watchdog.list().len(), 2);
}

#[test]
fn records_are_listed_from_the_earliest_on() {
    let mut watchdog = OrchestrationWatchdog::with_root("/state");
    for (job, secs) in [("late", 30), ("early", 10), ("middle", 20)] {
        watchdog
            .register_at(spec(job, Path::new("/repo")), clean(HEAD), at(secs))
            .unwrap();
    }
    let jobs: Vec<String> = watchdog
        .list()
        .into_iter()
        .map(|record| record.job_id)
        .collect();
    assert_eq!(jobs, ["early", "middle", "late"]);
}

#[test]
fn a_record_is_kept_under_the_digest_of_its_job() {
    let watchdog = OrchestrationWatchdog::new("/var/lib/jcode");
    assert_eq!(watchdog.root(), "/var/lib/jcode/orchestration-watchdog");
    assert_eq!(
        watchdog.path_for("abc"),
        "/var/lib/jcode/orchestration-watchdog/\
         ba7816bf8f01cfea414140de5dae2223b00361a396177a9cb410ff61f20015ad.json"
    );
}

// ---------------------------------------------------------------------------
// Updates
// ---------------------------------------------------------------------------

#[test]
fn an_update_changes_what_is_given() {
    let mut watchdog = registered("job", 1_000);
    let record = watchdog
        .update_at(
            "job",
            WatchUpdate {
                working_dir: Some("/moved".to_string()),
                expected_artifacts: Some(vec![ArtifactExpectation::required("out.txt")]),
                stale_after: Some(60),
                process_id: Some(7),
                retry: Some(RetryPolicy {
                    max_attempts: 4,
                    initial_backoff_secs: 2,
                    max_backoff_secs: 9,
                    model_fallbacks: Vec::new(),
                }),
                ..WatchUpdate::default()
            },
            around(NEXT_HEAD, "", &["out.txt"]),
            at(1_100),
        )
        .unwrap();
    assert_eq!(record.working_dir, "/moved");
    assert_eq!(record.baseline_sha.as_deref(), Some(NEXT_HEAD));
    assert!(record.artifacts[0].exists);
    assert_eq!(record.stale_after_secs, 60);
    assert_eq!(record.process_id, Some(7));
    assert_eq!(record.worker_session_id.as_deref(), Some("worker-1"));
    assert_eq!(record.retry.max_attempts, 4);
    assert_eq!(record.updated_at, at(1_100));
    assert_eq!(record.audit.last().unwrap().kind, "configured");
}

#[test]
fn a_refused_update_changes_nothing() {
    let mut watchdog = registered("job", 1_000);
    let error = watchdog
        .update_at(
            "job",
            WatchUpdate {
                working_dir: Some("relative".to_string()),
                ..WatchUpdate::default()
            },
            clean(HEAD),
            at(1_100),
        )
        .unwrap_err();
    assert!(matches!(error, WatchError::RelativeWorkingDir));
    let error = watchdog
        .update_at(
            "job",
            WatchUpdate {
                expected_artifacts: Some(vec![ArtifactExpectation::required("..")]),
                ..WatchUpdate::default()
            },
            clean(HEAD),
            at(1_100),
        )
        .unwrap_err();
    assert!(matches!(error, WatchError::ArtifactOutside { .. }));
    let error = watchdog
        .update_at("nobody", WatchUpdate::default(), clean(HEAD), at(1_100))
        .unwrap_err();
    assert_eq!(error.message(), "unknown orchestration watch nobody");
    assert_eq!(watchdog.get("job").unwrap().updated_at, at(1_000));
}

// ---------------------------------------------------------------------------
// Observation
// ---------------------------------------------------------------------------

#[test]
fn terminal_watches_are_final() {
    let mut watchdog = registered("job", 1_000);
    let ended = watchdog
        .reconcile_with(
            "job",
            &observed(RuntimeState::Completed, 1_010),
            &clean(HEAD),
            "event-1".to_string(),
        )
        .unwrap();
    assert_eq!(ended.completion_evidence, ["runtime reported completion"]);
    let again = watchdog
        .reconcile_with(
            "job",
            &observed(RuntimeState::Failed, 1_020),
            &clean(NEXT_HEAD),
            "event-2".to_string(),
        )
        .unwrap();
    assert_eq!(again.status, WatchStatus::Completed);
    assert_eq!(again.updated_at, at(1_010));
    assert_eq!(again.terminal_delivery.unwrap().event_id, "event-1");
    let updated = watchdog
        .update_at(
            "job",
            WatchUpdate {
                working_dir: Some("relative".to_string()),
                ..WatchUpdate::default()
            },
            clean(HEAD),
            at(1_030),
        )
        .unwrap();
    assert_eq!(updated.working_dir, "/repo");
    assert!(matches!(
        watchdog.mark_retry_started_at("job", None, at(1_040)),
        Err(WatchError::NoScheduledRetry { .. })
    ));
}

#[test]
fn every_kind_of_evidence_is_told() {
    let mut watchdog = OrchestrationWatchdog::with_root("/state");
    let mut watch = spec("job", Path::new("/repo"));
    watch.expected_sha = Some(NEXT_HEAD.to_string());
    watch.expected_artifacts = vec![
        ArtifactExpectation::required("a"),
        ArtifactExpectation::optional("b"),
        ArtifactExpectation::required("c"),
    ];
    watchdog.register_at(watch, clean(HEAD), at(0)).unwrap();

    let waiting = watchdog
        .reconcile_with(
            "job",
            &observed(RuntimeState::Unknown, 10),
            &around(HEAD, "", &["a"]),
            "event".to_string(),
        )
        .unwrap();
    assert_eq!(waiting.status, WatchStatus::Watching);

    let done = watchdog
        .reconcile_with(
            "job",
            &observed(RuntimeState::Completed, 20),
            &around(NEXT_HEAD, "", &["a", "c"]),
            "event".to_string(),
        )
        .unwrap();
    assert_eq!(
        done.completion_evidence,
        [
            "runtime reported completion".to_string(),
            format!("repository HEAD matches expected SHA {NEXT_HEAD}"),
            "required artifact exists: a".to_string(),
            "required artifact exists: c".to_string(),
        ]
    );
}

#[test]
fn a_failed_worker_waits_and_then_gives_up() {
    let mut watchdog = OrchestrationWatchdog::with_root("/state");
    let mut watch = spec("job", Path::new("/repo"));
    watch.retry = RetryPolicy {
        max_attempts: 3,
        initial_backoff_secs: 4,
        max_backoff_secs: 100,
        model_fallbacks: vec!["a".to_string(), "b".to_string()],
    };
    watchdog.register_at(watch, clean(HEAD), at(0)).unwrap();

    let first = watchdog
        .reconcile_with(
            "job",
            &observed(RuntimeState::Failed, 10),
            &clean(HEAD),
            "event".to_string(),
        )
        .unwrap();
    assert_eq!(first.status, WatchStatus::RetryScheduled);
    assert_eq!(first.next_check_at, Some(at(14)));
    assert_eq!(
        first.audit.last().unwrap().detail,
        "retry attempt 2 scheduled after 4s using model b"
    );
    let started = watchdog
        .mark_retry_started_at("job", Some(9), at(15))
        .unwrap();
    assert_eq!(started.attempt, 2);
    assert_eq!(started.process_id, Some(9));
    assert_eq!(
        started.audit.last().unwrap().detail,
        "retry attempt 2 started"
    );
    let second = watchdog
        .reconcile_with(
            "job",
            &observed(RuntimeState::Failed, 20),
            &clean(HEAD),
            "event".to_string(),
        )
        .unwrap();
    assert_eq!(second.next_check_at, Some(at(28)));
    assert_eq!(second.next_model.as_deref(), Some("b"));
    watchdog
        .mark_retry_started_at("job", None, at(29))
        .unwrap();
    let last = watchdog
        .reconcile_with(
            "job",
            &observed(RuntimeState::Failed, 40),
            &clean(HEAD),
            "event".to_string(),
        )
        .unwrap();
    assert_eq!(last.status, WatchStatus::Failed);
    assert_eq!(last.terminal_at, Some(at(40)));
    assert_eq!(
        last.audit.last().unwrap().detail,
        "worker failed and retry budget is exhausted"
    );
}

#[test]
fn exhausted_runtime_retries_end_the_watch_at_once() {
    let mut watchdog = OrchestrationWatchdog::with_root("/state");
    let mut watch = spec("job", Path::new("/repo"));
    watch.retry.max_attempts = 5;
    watchdog.register_at(watch, clean(HEAD), at(0)).unwrap();
    let mut seen = observed(RuntimeState::Failed, 10);
    seen.retries_exhausted = true;
    let record = watchdog
        .reconcile_with("job", &seen, &clean(HEAD), "event".to_string())
        .unwrap();
    assert_eq!(record.status, WatchStatus::Failed);
}

#[test]
fn a_running_process_keeps_a_watch_from_going_stale() {
    let mut watchdog = OrchestrationWatchdog::with_root("/state");
    let mut watch = spec("job", Path::new("/repo"));
    watch.stale_after = 10;
    watch.process_id = Some(42);
    watchdog.register_at(watch, clean(HEAD), at(0)).unwrap();

    let mut running = clean(HEAD);
    running.process_running = true;
    let kept = watchdog
        .reconcile_with(
            "job",
            &observed(RuntimeState::OwnershipLost, 50),
            &running,
            "event".to_string(),
        )
        .unwrap();
    assert_eq!(kept.status, WatchStatus::Watching);
    assert_eq!(kept.next_check_at, Some(at(80)));
    assert_eq!(kept.audit.last().unwrap().kind, "ownership_lost");

    let stale = watchdog
        .reconcile_with(
            "job",
            &observed(RuntimeState::OwnershipLost, 60),
            &clean(HEAD),
            "event".to_string(),
        )
        .unwrap();
    assert_eq!(stale.status, WatchStatus::Stale);
    assert_eq!(
        stale.audit.last().unwrap().detail,
        "watch became stale; no destructive recovery attempted"
    );
}

#[test]
fn the_history_keeps_its_latest_entries() {
    let mut watchdog = registered("job", 0);
    for turn in 0..300 {
        let mut seen = observed(RuntimeState::Running, 10 + turn);
        seen.swarm_status = Some(format!("turn {turn}"));
        watchdog
            .reconcile_with("job", &seen, &clean(HEAD), "event".to_string())
            .unwrap();
    }
    let record = watchdog.get("job").unwrap();
    assert_eq!(record.audit.len(), 256);
    assert_eq!(record.audit[0].detail, "swarm status: turn 44");
    assert_eq!(record.audit[255].detail, "swarm status: turn 299");
    assert_eq!(record.last_swarm_status.as_deref(), Some("turn 299"));

    let again = ReconcileObservation {
        swarm_status: Some("turn 299".to_string()),
        ..observed(RuntimeState::Running, 1_000)
    };
    let record = watchdog
        .reconcile_with("job", &again, &clean(HEAD), "event".to_string())
        .unwrap();
    assert_eq!(record.audit[255].at, at(309));
}

#[test]
fn an_instant_outside_the_calendar_is_refused() {
    let mut watchdog = OrchestrationWatchdog::with_root("/state");
    let mut watch = spec("job", Path::new("/repo"));
    watch.stale_after = i64::MAX;
    watchdog.register_at(watch, clean(HEAD), at(0)).unwrap();
    let error = watchdog
        .reconcile_with(
            "job",
            &observed(RuntimeState::Running, 10),
            &clean(HEAD),
            "event".to_string(),
        )
        .unwrap_err();
    assert!(matches!(error, WatchError::TimeOutOfRange));
    assert_eq!(
        error.message(),
        "watch needs an instant outside the calendar"
    );
    assert_eq!(watchdog.get("job").unwrap().updated_at, at(0));
}

#[test]
fn a_recorded_path_outside_is_refused_when_it_is_looked_for() {
    let mut watchdog = registered("job", 0);
    let mut record: WatchRecord = watchdog.get("job").unwrap();
    record.expected_artifacts = vec![ArtifactExpectation::required("../x")];
    watchdog.restore(record);
    let error = watchdog
        .reconcile_with(
            "job",
            &observed(RuntimeState::Running, 10),
            &clean(HEAD),
            "event".to_string(),
        )
        .unwrap_err();
    assert!(matches!(error, WatchError::ArtifactOutside { .. }));
}

#[test]
fn a_missing_repository_is_no_evidence() {
    let mut watchdog = registered("job", 0);
    let nowhere = Surroundings {
        repository: inspect_repository(false, "fatal: not a git repository", ""),
        present_artifacts: Vec::new(),
        process_running: false,
    };
    let record = watchdog
        .reconcile_with(
            "job",
            &observed(RuntimeState::Unknown, 10),
            &nowhere,
            "event".to_string(),
        )
        .unwrap();
    assert!(record.repository.is_none());
    assert_eq!(record.status, WatchStatus::Watching);
    let without_head = RepositorySnapshot {
        head_sha: None,
        dirty: false,
        status_summary: String::new(),
    };
    let record = watchdog
        .reconcile_with(
            "job",
            &observed(RuntimeState::Unknown, 20),
            &Surroundings {
                repository: Some(without_head),
                present_artifacts: Vec::new(),
                process_running: false,
            },
            "event".to_string(),
        )
        .unwrap();
    assert_eq!(record.status, WatchStatus::Watching);
}

#[test]
fn the_wait_doubles_up_to_its_limit() {
    let policy = RetryPolicy {
        max_attempts: 9,
        initial_backoff_secs: 30,
        max_backoff_secs: 900,
        model_fallbacks: Vec::new(),
    };
    assert_eq!(backoff_secs(&policy, 0), 30);
    assert_eq!(backoff_secs(&policy, 1), 30);
    assert_eq!(backoff_secs(&policy, 2), 60);
    assert_eq!(backoff_secs(&policy, 5), 480);
    assert_eq!(backoff_secs(&policy, 6), 900);
    assert_eq!(backoff_secs(&policy, u32::MAX), 900);
    let steep = RetryPolicy {
        initial_backoff_secs: u64::MAX,
        max_backoff_secs: 1,
        ..policy
    };
    assert_eq!(backoff_secs(&steep, 40), u64::MAX);
}

// ---------------------------------------------------------------------------
// Leases and deliveries
// ---------------------------------------------------------------------------

#[test]
fn a_check_is_leased_until_it_expires_or_is_given_back() {
    let mut watchdog = registered("job", 1_000);
    assert!(watchdog
        .claim_due_check_at("job", "early", at(999), "l0".to_string())
        .unwrap()
        .is_none());
    let lease = watchdog
        .claim_due_check_at("job", "a", at(1_000), "l1".to_string())
        .unwrap()
        .unwrap();
    assert_eq!(lease.expires_at, at(1_300));
    assert!(watchdog
        .claim_due_check_at("job", "b", at(1_299), "l2".to_string())
        .unwrap()
        .is_none());
    watchdog
        .finish_check_at("job", "not-the-lease", at(1_299))
        .unwrap();
    assert!(watchdog.get("job").unwrap().active_check.is_some());
    assert!(watchdog
        .claim_due_check_at("job", "b", at(1_300), "l2".to_string())
        .unwrap()
        .is_some());
    watchdog.finish_check_at("job", "l2", at(1_301)).unwrap();
    let third = watchdog
        .claim_due_check_at("job", "c", at(1_302), "l3".to_string())
        .unwrap()
        .unwrap();
    assert_eq!(third.lease_id, "l3");
    assert_eq!(
        watchdog.get("job").unwrap().audit.last().unwrap().detail,
        "check claimed by c"
    );
    assert!(matches!(
        watchdog.claim_due_check_at("nobody", "c", at(0), "l".to_string()),
        Err(WatchError::UnknownWatch { .. })
    ));
}

#[test]
fn a_delivery_is_claimed_again_once_its_claim_has_expired() {
    let mut watchdog = registered("job", 0);
    assert!(watchdog
        .claim_terminal_delivery_at("job", "a", at(5))
        .unwrap()
        .is_none());
    watchdog
        .reconcile_with(
            "job",
            &observed(RuntimeState::Completed, 10),
            &clean(HEAD),
            "event-1".to_string(),
        )
        .unwrap();
    let claim = watchdog
        .claim_terminal_delivery_at("job", "a", at(20))
        .unwrap()
        .unwrap();
    assert_eq!(claim.event_id, "event-1");
    assert_eq!(claim.owner_session_id, "session-1");
    assert_eq!(claim.status, WatchStatus::Completed);
    assert_eq!(claim.completion_evidence, ["runtime reported completion"]);
    assert!(watchdog
        .claim_terminal_delivery_at("job", "b", at(319))
        .unwrap()
        .is_none());
    let again = watchdog
        .claim_terminal_delivery_at("job", "b", at(320))
        .unwrap()
        .unwrap();
    assert_eq!(again.event_id, "event-1");
    assert!(matches!(
        watchdog.mark_terminal_delivered_at("job", "event-2", at(321)),
        Err(WatchError::DeliveryMismatch { .. })
    ));
    watchdog
        .mark_terminal_delivered_at("job", "event-1", at(322))
        .unwrap();
    watchdog
        .mark_terminal_delivered_at("job", "event-1", at(323))
        .unwrap();
    let record = watchdog.get("job").unwrap();
    assert!(matches!(
        record.terminal_delivery.unwrap().state,
        DeliveryState::Delivered { delivered_at } if delivered_at == at(322)
    ));
    assert!(!watchdog.acknowledge_claimed_delivery_at("job", at(324)));
    assert!(watchdog
        .claim_terminal_delivery_at("job", "c", at(9_999))
        .unwrap()
        .is_none());
}

#[test]
fn a_delivery_needs_an_event_and_a_claim() {
    let mut watchdog = registered("job", 0);
    assert_eq!(
        watchdog
            .mark_terminal_delivered_at("job", "event", at(1))
            .unwrap_err()
            .message(),
        "terminal watch job has no delivery event"
    );
    assert!(!watchdog.acknowledge_claimed_delivery_at("job", at(1)));
    assert!(!watchdog.acknowledge_claimed_delivery_at("nobody", at(1)));
    watchdog
        .reconcile_with(
            "job",
            &observed(RuntimeState::Completed, 10),
            &clean(HEAD),
            "event".to_string(),
        )
        .unwrap();
    assert!(!watchdog.acknowledge_claimed_delivery_at("job", at(11)));
    let mut record = watchdog.get("job").unwrap();
    record.terminal_delivery = None;
    watchdog.restore(record);
    assert!(matches!(
        watchdog.claim_terminal_delivery_at("job", "a", at(12)),
        Err(WatchError::NoDeliveryEvent { .. })
    ));
    assert_eq!(
        WatchError::DeliveryMismatch { job_id: "job".to_string() }.message(),
        "delivery event mismatch for watch job"
    );
    assert_eq!(
        WatchError::NoScheduledRetry { job_id: "job".to_string() }.message(),
        "watch job has no scheduled retry"
    );
}

#[test]
fn cleanup_keeps_active_and_recent_watches() {
    let mut watchdog = OrchestrationWatchdog::with_root("/state");
    for job in ["active", "old", "recent"] {
        watchdog
            .register_at(spec(job, Path::new("/repo")), clean(HEAD), at(0))
            .unwrap();
    }
    for (job, secs) in [("old", 10), ("recent", 20)] {
        watchdog
            .reconcile_with(
                job,
                &observed(RuntimeState::Completed, secs),
                &clean(HEAD),
                "event".to_string(),
            )
            .unwrap();
    }
    assert_eq!(watchdog.cleanup_terminal_before(at(20)), 1);
    assert!(watchdog.get("old").is_none());
    assert!(watchdog.get("recent").is_some());
    assert!(watchdog.get("active").is_some());
    assert_eq!(watchdog.cleanup_terminal_before(at(20)), 0);
}

#[test]
fn handed_out_identifiers_are_fresh() {
    let mut first = registered("a", 0);
    let mut second = registered("a", 0);
    let one = first.claim_due_check("a", "x").unwrap().unwrap();
    let two = second.claim_due_check("a", "x").unwrap().unwrap();
    assert_eq!(one.lease_id.len(), 36);
    assert_eq!(one.lease_id.as_bytes()[14], b'4');
    assert_ne!(one.lease_id, two.lease_id);
}
