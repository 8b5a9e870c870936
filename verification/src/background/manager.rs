//! The manager of background tasks: how their watches are kept, and what their
//! owners are told.

use vstd::prelude::*;

use crate::background::model::{
    completed_view, completed_views, counted, outcome_views, preview, preview_spec, stamp_views,
    BackgroundTaskCompleted, BackgroundTaskStatus, CompletedView, OutcomeView, SituationView, Stamp,
    StampView, StatusFileView, TaskOutcome, TaskSituation, TaskStatusFile, ThisProcess, WatchedTask,
};
use crate::clock::Timestamp;
use crate::digest::{fresh_uuid, is_uuid};
use crate::text::{copy_opt, join, join_spec, opt_view, same_text, views};
use crate::watch::model::{
    default_retry, ObservationView, ReconcileObservation, RecordView, RetryPolicy, RuntimeState,
    Surroundings, SurroundingsView, WatchError, WatchRecord, WatchSpec, WatchSpecView, WatchStatus,
    WatchUpdate,
};
use crate::watch::registry::{
    after_check_claim, after_check_finish, after_delivery_claim, after_reconcile, after_register,
    after_update, answers_register, record_answer, OrchestrationWatchdog, Registry,
};
use crate::watch::store::unexpired;

verus! {

/// After how many seconds a background task without a sign of life is stale,
/// and a terminal watch is dropped: seven days.
pub const WEEK_SECS: i64 = 604800;

// ---------------------------------------------------------------------------
// Watches
// ---------------------------------------------------------------------------

/// The watch on a background task.
pub open spec fn task_watch(
    task_id: Seq<char>,
    session_id: Seq<char>,
    process_id: Option<u32>,
    working_dir: Seq<char>,
) -> WatchSpecView {
    WatchSpecView {
        job_id: task_id,
        dedupe_key: "background:"@ + session_id + ":"@ + task_id,
        owner_session_id: session_id,
        worker_session_id: None,
        process_id,
        working_dir,
        baseline_sha: None,
        expected_sha: None,
        expected_artifacts: Seq::empty(),
        deadline: None,
        stale_after: WEEK_SECS,
        retry: default_retry(),
    }
}

fn make_watch(task_id: &str, session_id: &str, process_id: Option<u32>, working_dir: &str) -> (res:
    WatchSpec)
    ensures
        res@ == task_watch(task_id@, session_id@, process_id, working_dir@),
{
    let res = WatchSpec {
        job_id: task_id.to_string(),
        dedupe_key: "background:".to_string().concat(session_id).concat(":").concat(task_id),
        owner_session_id: session_id.to_string(),
        worker_session_id: None,
        process_id,
        working_dir: working_dir.to_string(),
        baseline_sha: None,
        expected_sha: None,
        expected_artifacts: Vec::new(),
        deadline: None,
        stale_after: WEEK_SECS,
        retry: RetryPolicy::default(),
    };
    assert(res@ =~= task_watch(task_id@, session_id@, process_id, working_dir@));
    res
}

// ---------------------------------------------------------------------------
// Publishing
// ---------------------------------------------------------------------------

/// What the end of a task says of its runtime.
pub open spec fn runtime_of(status: BackgroundTaskStatus) -> RuntimeState {
    match status {
        BackgroundTaskStatus::Completed => RuntimeState::Completed,
        BackgroundTaskStatus::Superseded => RuntimeState::Completed,
        BackgroundTaskStatus::Failed => RuntimeState::Failed,
        BackgroundTaskStatus::Running => RuntimeState::Running,
    }
}

/// A word on the swarm, for a task that drives one.
pub open spec fn swarm_word(tool_name: Seq<char>, word: Seq<char>) -> Option<Seq<char>> {
    if tool_name == "swarm"@ {
        Some(word)
    } else {
        None
    }
}

fn word_for_swarm(tool_name: &str, word: &str) -> (res: Option<String>)
    ensures
        opt_view(res) == swarm_word(tool_name@, word@),
{
    if same_text(tool_name, "swarm") {
        Some(word.to_string())
    } else {
        None
    }
}

/// The text with another one below it.
pub open spec fn with_paragraph(text: Seq<char>, more: Seq<char>) -> Seq<char> {
    if text.len() > 0 {
        text + "\n\n"@ + more
    } else {
        more
    }
}

fn add_paragraph(text: String, more: &str) -> (res: String)
    ensures
        res@ == with_paragraph(text@, more@),
{
    if text.as_str().is_empty() {
        more.to_string()
    } else {
        text.concat("\n\n").concat(more)
    }
}

pub open spec fn evidence_text(evidence: Seq<Seq<char>>) -> Seq<char> {
    "Watchdog evidence:\n"@ + join_spec(evidence, "\n"@)
}

fn text_of_evidence(evidence: &Vec<String>) -> (res: String)
    ensures
        res@ == evidence_text(views(evidence@)),
{
    "Watchdog evidence:\n".to_string().concat(join(evidence, "\n").as_str())
}

/// The completion as its watch shows it: evidence of completion counts for more
/// than the task's own status, and is told.
pub open spec fn with_evidence(event: CompletedView, record: RecordView) -> CompletedView {
    if record.status is Completed {
        CompletedView {
            status: BackgroundTaskStatus::Completed,
            output_preview: if record.completion_evidence.len() > 0 {
                with_paragraph(event.output_preview, evidence_text(record.completion_evidence))
            } else {
                event.output_preview
            },
            ..event
        }
    } else {
        event
    }
}

/// The registry after a task's end was noted in its watch, and the completion
/// to publish: none where the watch is not over or its notification was already
/// handed out. A task without a usable watch is published as it is.
pub open spec fn after_publish(
    reg: Registry,
    event: CompletedView,
    around: SurroundingsView,
    now: Timestamp,
    event_id: Seq<char>,
) -> (Registry, Option<CompletedView>) {
    let obs = ObservationView {
        runtime_state: runtime_of(event.status),
        process_running: None,
        swarm_status: swarm_word(event.tool_name, "terminal"@),
        retries_exhausted: true,
        observed_at: now,
    };
    let (seen, answer) = after_reconcile(reg, event.task_id, obs, around, event_id);
    match answer {
        Err(_) => (seen, Some(event)),
        Ok(record) => {
            let (after, claim) = after_delivery_claim(
                seen,
                event.task_id,
                "background-task-manager"@,
                now,
            );
            match claim {
                Ok(None) => (after, None),
                _ => (after, Some(with_evidence(event, record))),
            }
        },
    }
}

/// The completion of a task whose status file tells its end.
pub open spec fn completion_of(
    status: StatusFileView,
    output_preview: Seq<char>,
    output_file: Seq<char>,
) -> CompletedView {
    CompletedView {
        task_id: status.task_id,
        tool_name: status.tool_name,
        display_name: status.display_name,
        session_id: status.session_id,
        status: status.status,
        exit_code: status.exit_code,
        output_preview,
        output_file,
        notify: status.notify,
        wake: status.wake,
    }
}

fn make_completion(status: &TaskStatusFile, output_preview: String, output_file: &str) -> (res:
    BackgroundTaskCompleted)
    ensures
        res@ == completion_of(status@, output_preview@, output_file@),
{
    BackgroundTaskCompleted {
        task_id: status.task_id.clone(),
        tool_name: status.tool_name.clone(),
        display_name: copy_opt(&status.display_name),
        session_id: status.session_id.clone(),
        status: status.status,
        exit_code: status.exit_code,
        output_preview,
        output_file: output_file.to_string(),
        notify: status.notify,
        wake: status.wake,
    }
}

/// The completion of a terminal watch whose status file is gone.
pub open spec fn recovered_completion(
    record: RecordView,
    without_evidence: Seq<char>,
    output_file: Seq<char>,
) -> CompletedView {
    CompletedView {
        task_id: record.job_id,
        tool_name: "orchestration_watchdog"@,
        display_name: Some("recovered orchestration watch"@),
        session_id: record.owner_session_id,
        status: if record.status is Completed {
            BackgroundTaskStatus::Completed
        } else {
            BackgroundTaskStatus::Failed
        },
        exit_code: None,
        output_preview: if record.completion_evidence.len() == 0 {
            without_evidence
        } else {
            evidence_text(record.completion_evidence)
        },
        output_file,
        notify: true,
        wake: true,
    }
}

fn make_recovered(record: &WatchRecord, without_evidence: &str, output_file: &str) -> (res:
    BackgroundTaskCompleted)
    ensures
        res@ == recovered_completion(record@, without_evidence@, output_file@),
{
    BackgroundTaskCompleted {
        task_id: record.job_id.clone(),
        tool_name: "orchestration_watchdog".to_string(),
        display_name: Some("recovered orchestration watch".to_string()),
        session_id: record.owner_session_id.clone(),
        status: if record.status == WatchStatus::Completed {
            BackgroundTaskStatus::Completed
        } else {
            BackgroundTaskStatus::Failed
        },
        exit_code: None,
        output_preview: if record.completion_evidence.len() == 0 {
            without_evidence.to_string()
        } else {
            text_of_evidence(&record.completion_evidence)
        },
        output_file: output_file.to_string(),
        notify: true,
        wake: true,
    }
}

// ---------------------------------------------------------------------------
// Orphans
// ---------------------------------------------------------------------------

/// Whether a status file says `running` of a task whose owner is gone: it is
/// not detached, has no process of its own, and names an owner that is neither
/// this instance nor another running process.
pub open spec fn is_orphan(
    status: StatusFileView,
    this_pid: u32,
    this_instance: Seq<char>,
    owner_running: bool,
) -> bool {
    &&& status.status is Running
    &&& !status.detached
    &&& status.pid is None
    &&& status.owner_pid is Some
    &&& status.owner_instance != Some(this_instance)
    &&& status.owner_pid->0 == this_pid || !owner_running
}

/// Whether the watch of this job was last seen running, with news of its swarm.
pub open spec fn swarm_still_runs(reg: Registry, job: Seq<char>) -> bool {
    match reg.get(job) {
        Some(r) => r.runtime_state is Running && r.last_swarm_status is Some,
        None => false,
    }
}

/// Whether an orphan's status file is to be rewritten: this process does not
/// run the task, and no swarm goes on for it.
pub open spec fn is_finalized(
    reg: Registry,
    status: StatusFileView,
    this_pid: u32,
    this_instance: Seq<char>,
    owner_running: bool,
    live: bool,
) -> bool {
    &&& is_orphan(status, this_pid, this_instance, owner_running)
    &&& !live
    &&& !(status.tool_name == "swarm"@ && swarm_still_runs(reg, status.task_id))
}

/// The status file of a task that has ended.
pub open spec fn ended_status(
    status: StatusFileView,
    completed: bool,
    error: Seq<char>,
    now: Timestamp,
) -> StatusFileView {
    StatusFileView {
        status: if completed {
            BackgroundTaskStatus::Completed
        } else {
            BackgroundTaskStatus::Failed
        },
        exit_code: if completed {
            Some(0)
        } else {
            None
        },
        error: if completed {
            None
        } else {
            Some(error)
        },
        completed_at: now.rfc3339_spec(),
        ..status
    }
}

fn end_status(status: TaskStatusFile, completed: bool, error: &str, now: Timestamp) -> (res:
    TaskStatusFile)
    ensures
        res@ == ended_status(status@, completed, error@, now),
{
    let mut status = status;
    if completed {
        status.status = BackgroundTaskStatus::Completed;
        status.exit_code = Some(0);
        status.error = None;
    } else {
        status.status = BackgroundTaskStatus::Failed;
        status.exit_code = None;
        status.error = Some(error.to_string());
    }
    status.completed_at = now.to_rfc3339();
    status
}

pub open spec fn orphan_error() -> Seq<char> {
    "Task orphaned: the owning server process exited (reloaded or crashed) before the task finished"@
}

/// The registry and the status file after an orphan was given up. Evidence in
/// its repository or its files shows that it was finished all the same.
pub open spec fn after_finalize(
    reg: Registry,
    status: StatusFileView,
    around: SurroundingsView,
    now: Timestamp,
    event_id: Seq<char>,
) -> (Registry, StatusFileView) {
    let obs = ObservationView {
        runtime_state: RuntimeState::OwnershipLost,
        process_running: Some(false),
        swarm_status: swarm_word(status.tool_name, "ownership_lost"@),
        retries_exhausted: false,
        observed_at: now,
    };
    let (after, answer) = after_reconcile(reg, status.task_id, obs, around, event_id);
    let recovered = match answer {
        Ok(record) => record.status is Completed,
        Err(_) => false,
    };
    (after, ended_status(status, recovered, orphan_error(), now))
}

/// The completion, where there is one, as a list.
pub open spec fn listed(event: Option<CompletedView>) -> Seq<CompletedView> {
    match event {
        Some(event) => seq![event],
        None => Seq::empty(),
    }
}

/// The registry after an orphan was looked at, with its status file and what is
/// to be done. Nothing changes where the task is no orphan to give up.
pub open spec fn after_orphan(
    reg: Registry,
    status: StatusFileView,
    sit: SituationView,
    this_pid: u32,
    this_instance: Seq<char>,
    stamp: StampView,
) -> (Registry, StatusFileView, OutcomeView) {
    if !is_finalized(reg, status, this_pid, this_instance, sit.owner_running, sit.live) {
        (reg, status, no_outcome())
    } else {
        let (seen, ended) = after_finalize(reg, status, sit.around, stamp.now, stamp.event_id);
        let (after, event) = after_publish(
            seen,
            completion_of(ended, preview_spec(sit.output), sit.output_file),
            sit.around,
            stamp.now,
            stamp.event_id,
        );
        (
            after,
            ended,
            OutcomeView { status: Some(ended), completions: listed(event), counted: true },
        )
    }
}

/// Nothing to be done.
pub open spec fn no_outcome() -> OutcomeView {
    OutcomeView { status: None, completions: Seq::empty(), counted: false }
}

/// The sweep over one status file: an orphan whose status file is rewritten
/// counts.
pub open spec fn orphan_step(
    reg: Registry,
    sit: SituationView,
    this_pid: u32,
    this_instance: Seq<char>,
    stamp: StampView,
) -> (Registry, OutcomeView) {
    match sit.status {
        None => (reg, no_outcome()),
        Some(status) => {
            let (after, _, outcome) = after_orphan(
                reg,
                status,
                sit,
                this_pid,
                this_instance,
                stamp,
            );
            (after, outcome)
        },
    }
}

/// The sweep over all status files.
pub open spec fn after_orphans(
    reg: Registry,
    sits: Seq<SituationView>,
    this_pid: u32,
    this_instance: Seq<char>,
    stamps: Seq<StampView>,
) -> (Registry, Seq<OutcomeView>)
    decreases sits.len(),
{
    if sits.len() == 0 {
        (reg, Seq::empty())
    } else {
        let (before, outcomes) = after_orphans(
            reg,
            sits.drop_last(),
            this_pid,
            this_instance,
            stamps,
        );
        let (after, outcome) = orphan_step(
            before,
            sits.last(),
            this_pid,
            this_instance,
            stamps[sits.len() - 1],
        );
        (after, outcomes.push(outcome))
    }
}

// ---------------------------------------------------------------------------
// Swarm plans
// ---------------------------------------------------------------------------

/// Whether a swarm plan's state bears on this watch: it is active and belongs
/// to the plan's owner, this process does not drive it, and its status file
/// says that the swarm runs.
pub open spec fn swarm_bears_on(
    record: RecordView,
    sit: SituationView,
    owner_session_id: Seq<char>,
) -> bool {
    &&& record.owner_session_id == owner_session_id
    &&& !record.status.terminal()
    &&& !sit.live
    &&& sit.status matches Some(status) && status.tool_name == "swarm"@ && status.status is Running
}

/// Whether the task's own process runs, where it has one.
pub open spec fn own_process(status: StatusFileView, pid_running: bool) -> Option<bool> {
    match status.pid {
        Some(_) => Some(pid_running),
        None => None,
    }
}

/// One watch after the state of its owner's swarm plan is known. The check is
/// leased, so that two schedulers never make it at once.
pub open spec fn swarm_step(
    reg: Registry,
    record: RecordView,
    sit: SituationView,
    owner_session_id: Seq<char>,
    runtime: RuntimeState,
    swarm_status: Seq<char>,
    stamp: StampView,
) -> (Registry, OutcomeView) {
    if !swarm_bears_on(record, sit, owner_session_id) {
        (reg, no_outcome())
    } else {
        let status = sit.status->0;
        let job = record.job_id;
        let (held, lease) = after_check_claim(
            reg,
            job,
            "swarm-plan-watchdog"@,
            stamp.now,
            stamp.lease_id,
        );
        match lease {
            Ok(Some(lease)) => {
                let obs = ObservationView {
                    runtime_state: runtime,
                    process_running: own_process(status, sit.pid_running),
                    swarm_status: Some(swarm_status),
                    retries_exhausted: runtime is Failed,
                    observed_at: stamp.now,
                };
                let (seen, answer) = after_reconcile(held, job, obs, sit.around, stamp.event_id);
                let freed = after_check_finish(seen, job, lease.lease_id, stamp.now).0;
                match answer {
                    Err(_) => (freed, no_outcome()),
                    Ok(after) => if !after.status.terminal() {
                        (freed, OutcomeView { counted: true, ..no_outcome() })
                    } else {
                        let ended = ended_status(
                            status,
                            after.status is Completed,
                            "Swarm plan reconciled as "@ + swarm_status,
                            stamp.now,
                        );
                        let text = with_paragraph(
                            preview_spec(sit.output),
                            "Swarm watchdog: "@ + swarm_status,
                        );
                        let (done, event) = after_publish(
                            freed,
                            completion_of(ended, text, sit.output_file),
                            sit.around,
                            stamp.now,
                            stamp.event_id,
                        );
                        (
                            done,
                            OutcomeView {
                                status: Some(ended),
                                completions: listed(event),
                                counted: true,
                            },
                        )
                    },
                }
            },
            _ => (held, no_outcome()),
        }
    }
}

pub open spec fn watched_views(tasks: Seq<WatchedTask>) -> Seq<(RecordView, SituationView)> {
    tasks.map_values(|t: WatchedTask| (t.record@, t.situation@))
}

/// All watches after the state of their owner's swarm plan is known.
pub open spec fn after_swarm(
    reg: Registry,
    tasks: Seq<(RecordView, SituationView)>,
    owner_session_id: Seq<char>,
    runtime: RuntimeState,
    swarm_status: Seq<char>,
    stamps: Seq<StampView>,
) -> (Registry, Seq<OutcomeView>)
    decreases tasks.len(),
{
    if tasks.len() == 0 {
        (reg, Seq::empty())
    } else {
        let (before, outcomes) = after_swarm(
            reg,
            tasks.drop_last(),
            owner_session_id,
            runtime,
            swarm_status,
            stamps,
        );
        let (after, outcome) = swarm_step(
            before,
            tasks.last().0,
            tasks.last().1,
            owner_session_id,
            runtime,
            swarm_status,
            stamps[tasks.len() - 1],
        );
        (after, outcomes.push(outcome))
    }
}

// ---------------------------------------------------------------------------
// Watched tasks
// ---------------------------------------------------------------------------

/// One watch whose status file is gone: an active one is checked, and a
/// terminal one is told to its owner.
pub open spec fn lost_file_step(
    reg: Registry,
    record: RecordView,
    sit: SituationView,
    stamp: StampView,
) -> (Registry, OutcomeView) {
    let job = record.job_id;
    if record.status.terminal() {
        let (after, event) = after_publish(
            reg,
            recovered_completion(
                record,
                "Recovered terminal orchestration watch pending delivery."@,
                sit.output_file,
            ),
            sit.around,
            stamp.now,
            stamp.event_id,
        );
        (after, OutcomeView { completions: listed(event), ..no_outcome() })
    } else {
        let (held, lease) = after_check_claim(
            reg,
            job,
            "background-watchdog"@,
            stamp.now,
            stamp.lease_id,
        );
        match lease {
            Ok(Some(lease)) => {
                let obs = ObservationView {
                    runtime_state: RuntimeState::Unknown,
                    process_running: None,
                    swarm_status: None,
                    retries_exhausted: false,
                    observed_at: stamp.now,
                };
                let (seen, answer) = after_reconcile(held, job, obs, sit.around, stamp.event_id);
                let freed = after_check_finish(seen, job, lease.lease_id, stamp.now).0;
                match answer {
                    Err(_) => (freed, no_outcome()),
                    Ok(now_seen) => if !now_seen.status.terminal() {
                        (freed, no_outcome())
                    } else {
                        let (after, event) = after_publish(
                            freed,
                            recovered_completion(
                                now_seen,
                                "Watchdog reached a terminal state after the original status file was lost."@,
                                sit.output_file,
                            ),
                            sit.around,
                            stamp.now,
                            stamp.event_id,
                        );
                        (after, OutcomeView { completions: listed(event), ..no_outcome() })
                    },
                }
            },
            _ => (held, no_outcome()),
        }
    }
}

/// What is seen of a running task: a detached one by its process, another one
/// by its owner.
pub open spec fn runtime_seen(
    status: StatusFileView,
    sit: SituationView,
    this_pid: u32,
    this_instance: Seq<char>,
) -> RuntimeState {
    if status.detached && status.pid is Some && sit.pid_running {
        RuntimeState::Running
    } else if is_orphan(status, this_pid, this_instance, sit.owner_running) {
        RuntimeState::OwnershipLost
    } else {
        RuntimeState::Running
    }
}

/// The check of a task that still runs. It counts where the check could be
/// leased.
pub open spec fn running_step(
    reg: Registry,
    job: Seq<char>,
    status: StatusFileView,
    sit: SituationView,
    this_pid: u32,
    this_instance: Seq<char>,
    stamp: StampView,
) -> (Registry, bool) {
    let (held, lease) = after_check_claim(
        reg,
        job,
        "background-watchdog"@,
        stamp.now,
        stamp.lease_id,
    );
    match lease {
        Ok(Some(lease)) => {
            let obs = ObservationView {
                runtime_state: runtime_seen(status, sit, this_pid, this_instance),
                process_running: own_process(status, sit.pid_running),
                swarm_status: swarm_word(status.tool_name, "running"@),
                retries_exhausted: false,
                observed_at: stamp.now,
            };
            let seen = after_reconcile(held, job, obs, sit.around, stamp.event_id).0;
            (after_check_finish(seen, job, lease.lease_id, stamp.now).0, true)
        },
        _ => (held, false),
    }
}

/// One watch against its task's status file. An orphan is given up first; a
/// task that still runs is checked, and the end of another one is published.
pub open spec fn watch_step(
    reg: Registry,
    record: RecordView,
    sit: SituationView,
    this_pid: u32,
    this_instance: Seq<char>,
    stamp: StampView,
) -> (Registry, OutcomeView) {
    match sit.status {
        None => lost_file_step(reg, record, sit, stamp),
        Some(found) => {
            let (seen, status, first) = after_orphan(
                reg,
                found,
                sit,
                this_pid,
                this_instance,
                stamp,
            );
            if status.status is Running {
                let (after, counted) = running_step(
                    seen,
                    record.job_id,
                    status,
                    sit,
                    this_pid,
                    this_instance,
                    stamp,
                );
                (after, OutcomeView { counted, ..first })
            } else {
                let (after, event) = after_publish(
                    seen,
                    completion_of(status, preview_spec(sit.output), sit.output_file),
                    sit.around,
                    stamp.now,
                    stamp.event_id,
                );
                (
                    after,
                    OutcomeView {
                        status: first.status,
                        completions: first.completions + listed(event),
                        counted: !record.status.terminal(),
                    },
                )
            }
        },
    }
}

/// All watches against their tasks' status files.
pub open spec fn after_watches(
    reg: Registry,
    tasks: Seq<(RecordView, SituationView)>,
    this_pid: u32,
    this_instance: Seq<char>,
    stamps: Seq<StampView>,
) -> (Registry, Seq<OutcomeView>)
    decreases tasks.len(),
{
    if tasks.len() == 0 {
        (reg, Seq::empty())
    } else {
        let (before, outcomes) = after_watches(
            reg,
            tasks.drop_last(),
            this_pid,
            this_instance,
            stamps,
        );
        let (after, outcome) = watch_step(
            before,
            tasks.last().0,
            tasks.last().1,
            this_pid,
            this_instance,
            stamps[tasks.len() - 1],
        );
        (after, outcomes.push(outcome))
    }
}

/// The registry without the terminal watches that nothing touched for a week.
pub open spec fn swept(reg: Registry, now: Timestamp) -> Registry {
    match now.plus_spec(-WEEK_SECS) {
        Some(cutoff) => unexpired(reg, cutoff),
        None => reg,
    }
}

/// The manager of background tasks, with the registry of their watches.
pub struct BackgroundTaskManager {
    watchdog: OrchestrationWatchdog,
}

impl View for BackgroundTaskManager {
    type V = Registry;

    closed spec fn view(&self) -> Registry {
        self.watchdog@
    }
}

impl BackgroundTaskManager {
    pub closed spec fn wf(&self) -> bool {
        self.watchdog.wf()
    }

    /// The directory that the watches are kept in.
    pub closed spec fn dir(&self) -> Seq<char> {
        self.watchdog.dir()
    }

    pub fn with_watchdog(watchdog: OrchestrationWatchdog) -> (res: Self)
        requires
            watchdog.wf(),
        ensures
            res.wf(),
            res@ == watchdog@,
            res.dir() == watchdog.dir(),
    {
        BackgroundTaskManager { watchdog }
    }

    pub fn watchdog(&self) -> (res: &OrchestrationWatchdog)
        requires
            self.wf(),
        ensures
            res.wf(),
            res@ == self@,
            res.dir() == self.dir(),
    {
        &self.watchdog
    }

    /// Registers the watch on a background task.
    pub fn register_watch(
        &mut self,
        task_id: &str,
        session_id: &str,
        process_id: Option<u32>,
        working_dir: &str,
        around: Surroundings,
    ) -> (res: Result<WatchRecord, WatchError>)
        requires
            old(self).wf(),
        ensures
            final(self).wf(),
            final(self).dir() == old(self).dir(),
            exists|now: Timestamp|
                now.valid() && final(self)@ == #[trigger] after_register(
                    old(self)@,
                    task_watch(task_id@, session_id@, process_id, working_dir@),
                    around@,
                    now,
                ) && answers_register(
                    old(self)@,
                    task_watch(task_id@, session_id@, process_id, working_dir@),
                    around@,
                    now,
                    record_answer(res),
                ),
    {
        let spec = make_watch(task_id, session_id, process_id, working_dir);
        let now = Timestamp::now();
        let ghost before = self@;
        let ghost wanted = spec@;
        let res = self.watchdog.register_at(spec, around, now);
        assert(self@ == after_register(before, wanted, around@, now));
        res
    }

    /// Changes what is expected of a background task.
    pub fn configure_watch(&mut self, task_id: &str, update: WatchUpdate, around: Surroundings) -> (
    res: Result<WatchRecord, WatchError>)
        requires
            old(self).wf(),
        ensures
            final(self).wf(),
            final(self).dir() == old(self).dir(),
            exists|now: Timestamp|
                now.valid() && (final(self)@, record_answer(res)) == #[trigger] after_update(
                    old(self)@,
                    task_id@,
                    update@,
                    around@,
                    now,
                ),
    {
        let now = Timestamp::now();
        let ghost before = self@;
        let res = self.watchdog.update_at(task_id, update, around, now);
        assert((self@, record_answer(res)) == after_update(
            before,
            task_id@,
            update@,
            around@,
            now,
        ));
        res
    }

    /// Notes the end of a task in its watch, and answers the completion that is
    /// to be published.
    pub fn publish_completion_once_at(
        &mut self,
        event: BackgroundTaskCompleted,
        around: &Surroundings,
        now: Timestamp,
        event_id: String,
    ) -> (res: Option<BackgroundTaskCompleted>)
        requires
            old(self).wf(),
        ensures
            final(self).wf(),
            final(self).dir() == old(self).dir(),
            (final(self)@, completed_view(res)) == after_publish(
                old(self)@,
                event@,
                around@,
                now,
                event_id@,
            ),
    {
        let mut event = event;
        let runtime_state = match event.status {
            BackgroundTaskStatus::Completed => RuntimeState::Completed,
            BackgroundTaskStatus::Superseded => RuntimeState::Completed,
            BackgroundTaskStatus::Failed => RuntimeState::Failed,
            BackgroundTaskStatus::Running => RuntimeState::Running,
        };
        let observation = ReconcileObservation {
            runtime_state,
            process_running: None,
            swarm_status: word_for_swarm(event.tool_name.as_str(), "terminal"),
            retries_exhausted: true,
            observed_at: now,
        };
        let record = match self.watchdog.reconcile_with(
            event.task_id.as_str(),
            &observation,
            around,
            event_id,
        ) {
            Ok(record) => record,
            Err(_) => {
                return Some(event);
            },
        };
        if record.status == WatchStatus::Completed {
            event.status = BackgroundTaskStatus::Completed;
            if record.completion_evidence.len() > 0 {
                event.output_preview = add_paragraph(
                    event.output_preview,
                    text_of_evidence(&record.completion_evidence).as_str(),
                );
            }
        }
        match self.watchdog.claim_terminal_delivery_at(
            event.task_id.as_str(),
            "background-task-manager",
            now,
        ) {
            Ok(Some(_)) => Some(event),
            Ok(None) => None,
            Err(_) => Some(event),
        }
    }

    /// Notes the end of a task in its watch now, and answers the completion
    /// that is to be published.
    pub fn publish_completion_once(
        &mut self,
        event: BackgroundTaskCompleted,
        around: &Surroundings,
    ) -> (res: Option<BackgroundTaskCompleted>)
        requires
            old(self).wf(),
        ensures
            final(self).wf(),
            final(self).dir() == old(self).dir(),
            exists|now: Timestamp, event_id: Seq<char>|
                now.valid() && is_uuid(event_id) && (final(self)@, completed_view(res))
                    == #[trigger] after_publish(old(self)@, event@, around@, now, event_id),
    {
        let now = Timestamp::now();
        let event_id = fresh_uuid();
        self.publish_completion_once_at(event, around, now, event_id)
    }

    /// Whether a status file says `running` of a task whose owner is gone.
    pub fn status_is_reconcilable_orphan(
        status: &TaskStatusFile,
        this: &ThisProcess,
        owner_running: bool,
    ) -> (res: bool)
        ensures
            res == is_orphan(status@, this.pid, this.instance@, owner_running),
    {
        if status.status != BackgroundTaskStatus::Running || status.detached
            || status.pid.is_some() {
            return false;
        }
        let owner_pid = match status.owner_pid {
            Some(owner_pid) => owner_pid,
            None => {
                return false;
            },
        };
        let mine = match &status.owner_instance {
            Some(instance) => same_text(instance.as_str(), this.instance.as_str()),
            None => false,
        };
        !mine && (owner_pid == this.pid || !owner_running)
    }

    /// Gives up an orphan: its status file tells that it failed, or that it was
    /// finished where evidence shows so. Answers the status, what is to be
    /// written and published, and whether anything was done.
    pub fn finalize_orphaned_status_if_needed(
        &mut self,
        status: TaskStatusFile,
        situation: &TaskSituation,
        this: &ThisProcess,
        stamp: &Stamp,
    ) -> (res: (TaskStatusFile, TaskOutcome))
        requires
            old(self).wf(),
        ensures
            final(self).wf(),
            final(self).dir() == old(self).dir(),
            (final(self)@, res.0@, res.1@) == after_orphan(
                old(self)@,
                status@,
                situation@,
                this.pid,
                this.instance@,
                stamp@,
            ),
    {
        let nothing = empty_outcome();
        if !Self::status_is_reconcilable_orphan(&status, this, situation.owner_running)
            || situation.live {
            return (status, nothing);
        }
        let swarm = same_text(status.tool_name.as_str(), "swarm");
        let goes_on = match self.watchdog.get(status.task_id.as_str()) {
            Some(record) => record.runtime_state == RuntimeState::Running
                && record.last_swarm_status.is_some(),
            None => false,
        };
        if swarm && goes_on {
            return (status, nothing);
        }
        let observation = ReconcileObservation {
            runtime_state: RuntimeState::OwnershipLost,
            process_running: Some(false),
            swarm_status: word_for_swarm(status.tool_name.as_str(), "ownership_lost"),
            retries_exhausted: false,
            observed_at: stamp.now,
        };
        let recovered = match self.watchdog.reconcile_with(
            status.task_id.as_str(),
            &observation,
            &situation.around,
            stamp.event_id.clone(),
        ) {
            Ok(record) => record.status == WatchStatus::Completed,
            Err(_) => false,
        };
        let ended = end_status(
            status,
            recovered,
            "Task orphaned: the owning server process exited (reloaded or crashed) before the task finished",
            stamp.now,
        );
        let event = make_completion(
            &ended,
            preview(situation.output.as_str()),
            situation.output_file.as_str(),
        );
        let published = self.publish_completion_once_at(
            event,
            &situation.around,
            stamp.now,
            stamp.event_id.clone(),
        );
        let outcome = TaskOutcome {
            status: Some(ended.clone()),
            completions: as_list(published),
            counted: true,
        };
        (ended, outcome)
    }

    fn sweep_orphan(&mut self, situation: &TaskSituation, this: &ThisProcess, stamp: &Stamp) -> (
    res: TaskOutcome)
        requires
            old(self).wf(),
        ensures
            final(self).wf(),
            final(self).dir() == old(self).dir(),
            (final(self)@, res@) == orphan_step(
                old(self)@,
                situation@,
                this.pid,
                this.instance@,
                stamp@,
            ),
    {
        match &situation.status {
            None => empty_outcome(),
            Some(status) => {
                let (_, outcome) = self.finalize_orphaned_status_if_needed(
                    status.clone(),
                    situation,
                    this,
                    stamp,
                );
                outcome
            },
        }
    }
}

/// Nothing to be done.
fn empty_outcome() -> (res: TaskOutcome)
    ensures
        res@ == no_outcome(),
{
    let res = TaskOutcome { status: None, completions: Vec::new(), counted: false };
    assert(completed_views(res.completions@) =~= Seq::empty());
    res
}

/// The completion, where there is one, as a list.
fn as_list(event: Option<BackgroundTaskCompleted>) -> (res: Vec<BackgroundTaskCompleted>)
    ensures
        completed_views(res@) == listed(completed_view(event)),
{
    let mut res: Vec<BackgroundTaskCompleted> = Vec::new();
    let ghost one = completed_view(event);
    if let Some(event) = event {
        res.push(event);
    }
    assert(completed_views(res@) =~= listed(one));
    res
}

// ---------------------------------------------------------------------------
// Sweeps
// ---------------------------------------------------------------------------

/// Whether every stamp holds a time of the calendar and fresh identifiers.
pub open spec fn all_fresh(stamps: Seq<StampView>) -> bool {
    forall|i: int|
        0 <= i < stamps.len() ==> (#[trigger] stamps[i]).now.valid() && is_uuid(
            stamps[i].lease_id,
        ) && is_uuid(stamps[i].event_id)
}

fn fresh_stamps(count: usize) -> (res: Vec<Stamp>)
    ensures
        res@.len() == count,
        all_fresh(stamp_views(res@)),
{
    let mut res: Vec<Stamp> = Vec::new();
    let mut i: usize = 0;
    while i < count
        invariant
            i <= count,
            res@.len() == i,
            all_fresh(stamp_views(res@)),
        decreases count - i,
    {
        let ghost before = stamp_views(res@);
        let stamp = Stamp {
            now: Timestamp::now(),
            lease_id: fresh_uuid(),
            event_id: fresh_uuid(),
        };
        let ghost one = stamp@;
        res.push(stamp);
        assert(stamp_views(res@) =~= before.push(one));
        i += 1;
    }
    res
}

pub open spec fn situation_views(v: Seq<TaskSituation>) -> Seq<SituationView> {
    v.map_values(|s: TaskSituation| s@)
}

impl BackgroundTaskManager {
    /// Looks through all status files for orphans. Answers what is to be done
    /// for each; those whose status file is rewritten count.
    pub fn reconcile_orphaned_tasks_at(
        &mut self,
        situations: &Vec<TaskSituation>,
        this: &ThisProcess,
        stamps: &Vec<Stamp>,
    ) -> (res: Vec<TaskOutcome>)
        requires
            old(self).wf(),
            stamps@.len() == situations@.len(),
        ensures
            final(self).wf(),
            final(self).dir() == old(self).dir(),
            (final(self)@, outcome_views(res@)) == after_orphans(
                old(self)@,
                situation_views(situations@),
                this.pid,
                this.instance@,
                stamp_views(stamps@),
            ),
    {
        let ghost all = situation_views(situations@);
        let ghost times = stamp_views(stamps@);
        let ghost start = self@;
        let ghost place = self.dir();
        let mut res: Vec<TaskOutcome> = Vec::new();
        let mut i: usize = 0;
        assert(outcome_views(res@) =~= Seq::empty());
        while i < situations.len()
            invariant
                self.wf(),
                self.dir() == place,
                i <= situations@.len(),
                stamps@.len() == situations@.len(),
                all == situation_views(situations@),
                times == stamp_views(stamps@),
                (self@, outcome_views(res@)) == after_orphans(
                    start,
                    all.take(i as int),
                    this.pid,
                    this.instance@,
                    times,
                ),
            decreases situations@.len() - i,
        {
            let ghost done = outcome_views(res@);
            assert(all.take(i + 1).drop_last() =~= all.take(i as int));
            assert(all.take(i + 1).last() == situations@[i as int]@);
            let outcome = self.sweep_orphan(&situations[i], this, &stamps[i]);
            let ghost one = outcome@;
            res.push(outcome);
            assert(outcome_views(res@) =~= done.push(one));
            i += 1;
        }
        assert(all.take(i as int) =~= all);
        res
    }

    /// Looks through all status files for orphans, now.
    pub fn reconcile_orphaned_tasks(
        &mut self,
        situations: &Vec<TaskSituation>,
        this: &ThisProcess,
    ) -> (res: Vec<TaskOutcome>)
        requires
            old(self).wf(),
        ensures
            final(self).wf(),
            final(self).dir() == old(self).dir(),
            exists|stamps: Seq<StampView>|
                stamps.len() == situations@.len() && all_fresh(stamps) && (
                final(self)@,
                outcome_views(res@),
            ) == #[trigger] after_orphans(
                    old(self)@,
                    situation_views(situations@),
                    this.pid,
                    this.instance@,
                    stamps,
                ),
    {
        let stamps = fresh_stamps(situations.len());
        self.reconcile_orphaned_tasks_at(situations, this, &stamps)
    }

    fn reconcile_swarm_watch(
        &mut self,
        task: &WatchedTask,
        owner_session_id: &str,
        runtime_state: RuntimeState,
        swarm_status: &str,
        stamp: &Stamp,
    ) -> (res: TaskOutcome)
        requires
            old(self).wf(),
        ensures
            final(self).wf(),
            final(self).dir() == old(self).dir(),
            (final(self)@, res@) == swarm_step(
                old(self)@,
                task.record@,
                task.situation@,
                owner_session_id@,
                runtime_state,
                swarm_status@,
                stamp@,
            ),
    {
        let record = &task.record;
        let situation = &task.situation;
        if !same_text(record.owner_session_id.as_str(), owner_session_id)
            || record.status.is_terminal() || situation.live {
            return empty_outcome();
        }
        let status = match &situation.status {
            Some(status) => status,
            None => {
                return empty_outcome();
            },
        };
        if !same_text(status.tool_name.as_str(), "swarm") || status.status
            != BackgroundTaskStatus::Running {
            return empty_outcome();
        }
        let job = record.job_id.as_str();
        let lease = match self.watchdog.claim_due_check_at(
            job,
            "swarm-plan-watchdog",
            stamp.now,
            stamp.lease_id.clone(),
        ) {
            Ok(Some(lease)) => lease,
            _ => {
                return empty_outcome();
            },
        };
        let observation = ReconcileObservation {
            runtime_state,
            process_running: match status.pid {
                Some(_) => Some(situation.pid_running),
                None => None,
            },
            swarm_status: Some(swarm_status.to_string()),
            retries_exhausted: runtime_state == RuntimeState::Failed,
            observed_at: stamp.now,
        };
        let answer = self.watchdog.reconcile_with(
            job,
            &observation,
            &situation.around,
            stamp.event_id.clone(),
        );
        let _ = self.watchdog.finish_check_at(job, lease.lease_id.as_str(), stamp.now);
        let after = match answer {
            Ok(after) => after,
            Err(_) => {
                return empty_outcome();
            },
        };
        if !after.status.is_terminal() {
            let outcome = empty_outcome();
            return TaskOutcome { counted: true, ..outcome };
        }
        let error = "Swarm plan reconciled as ".to_string().concat(swarm_status);
        let ended = end_status(
            status.clone(),
            after.status == WatchStatus::Completed,
            error.as_str(),
            stamp.now,
        );
        let note = "Swarm watchdog: ".to_string().concat(swarm_status);
        let text = add_paragraph(preview(situation.output.as_str()), note.as_str());
        let event = make_completion(&ended, text, situation.output_file.as_str());
        let published = self.publish_completion_once_at(
            event,
            &situation.around,
            stamp.now,
            stamp.event_id.clone(),
        );
        TaskOutcome { status: Some(ended), completions: as_list(published), counted: true }
    }

    /// Brings the watches of a swarm plan's owner in line with the plan.
    /// Answers what is to be done for each; the checked ones count.
    pub fn reconcile_swarm_plan_status_at(
        &mut self,
        tasks: &Vec<WatchedTask>,
        owner_session_id: &str,
        runtime_state: RuntimeState,
        swarm_status: &str,
        stamps: &Vec<Stamp>,
    ) -> (res: Vec<TaskOutcome>)
        requires
            old(self).wf(),
            stamps@.len() == tasks@.len(),
        ensures
            final(self).wf(),
            final(self).dir() == old(self).dir(),
            (final(self)@, outcome_views(res@)) == after_swarm(
                old(self)@,
                watched_views(tasks@),
                owner_session_id@,
                runtime_state,
                swarm_status@,
                stamp_views(stamps@),
            ),
    {
        let ghost all = watched_views(tasks@);
        let ghost times = stamp_views(stamps@);
        let ghost start = self@;
        let ghost place = self.dir();
        let mut res: Vec<TaskOutcome> = Vec::new();
        let mut i: usize = 0;
        assert(outcome_views(res@) =~= Seq::empty());
        while i < tasks.len()
            invariant
                self.wf(),
                self.dir() == place,
                i <= tasks@.len(),
                stamps@.len() == tasks@.len(),
                all == watched_views(tasks@),
                times == stamp_views(stamps@),
                (self@, outcome_views(res@)) == after_swarm(
                    start,
                    all.take(i as int),
                    owner_session_id@,
                    runtime_state,
                    swarm_status@,
                    times,
                ),
            decreases tasks@.len() - i,
        {
            let ghost done = outcome_views(res@);
            assert(all.take(i + 1).drop_last() =~= all.take(i as int));
            assert(all.take(i + 1).last() == (
                tasks@[i as int].record@,
                tasks@[i as int].situation@,
            ));
            let outcome = self.reconcile_swarm_watch(
                &tasks[i],
                owner_session_id,
                runtime_state,
                swarm_status,
                &stamps[i],
            );
            let ghost one = outcome@;
            res.push(outcome);
            assert(outcome_views(res@) =~= done.push(one));
            i += 1;
        }
        assert(all.take(i as int) =~= all);
        res
    }

    /// Brings the watches of a swarm plan's owner in line with the plan, now.
    pub fn reconcile_swarm_plan_status(
        &mut self,
        tasks: &Vec<WatchedTask>,
        owner_session_id: &str,
        runtime_state: RuntimeState,
        swarm_status: &str,
    ) -> (res: Vec<TaskOutcome>)
        requires
            old(self).wf(),
        ensures
            final(self).wf(),
            final(self).dir() == old(self).dir(),
            exists|stamps: Seq<StampView>|
                stamps.len() == tasks@.len() && all_fresh(stamps) && (
                final(self)@,
                outcome_views(res@),
            ) == #[trigger] after_swarm(
                    old(self)@,
                    watched_views(tasks@),
                    owner_session_id@,
                    runtime_state,
                    swarm_status@,
                    stamps,
                ),
    {
        let stamps = fresh_stamps(tasks.len());
        self.reconcile_swarm_plan_status_at(
            tasks,
            owner_session_id,
            runtime_state,
            swarm_status,
            &stamps,
        )
    }

    fn reconcile_lost_file(
        &mut self,
        record: &WatchRecord,
        situation: &TaskSituation,
        stamp: &Stamp,
    ) -> (res: TaskOutcome)
        requires
            old(self).wf(),
        ensures
            final(self).wf(),
            final(self).dir() == old(self).dir(),
            (final(self)@, res@) == lost_file_step(
                old(self)@,
                record@,
                situation@,
                stamp@,
            ),
    {
        let job = record.job_id.as_str();
        if record.status.is_terminal() {
            let event = make_recovered(
                record,
                "Recovered terminal orchestration watch pending delivery.",
                situation.output_file.as_str(),
            );
            let published = self.publish_completion_once_at(
                event,
                &situation.around,
                stamp.now,
                stamp.event_id.clone(),
            );
            return TaskOutcome { status: None, completions: as_list(published), counted: false };
        }
        let lease = match self.watchdog.claim_due_check_at(
            job,
            "background-watchdog",
            stamp.now,
            stamp.lease_id.clone(),
        ) {
            Ok(Some(lease)) => lease,
            _ => {
                return empty_outcome();
            },
        };
        let observation = ReconcileObservation {
            runtime_state: RuntimeState::Unknown,
            process_running: None,
            swarm_status: None,
            retries_exhausted: false,
            observed_at: stamp.now,
        };
        let answer = self.watchdog.reconcile_with(
            job,
            &observation,
            &situation.around,
            stamp.event_id.clone(),
        );
        let _ = self.watchdog.finish_check_at(job, lease.lease_id.as_str(), stamp.now);
        let seen = match answer {
            Ok(seen) => seen,
            Err(_) => {
                return empty_outcome();
            },
        };
        if !seen.status.is_terminal() {
            return empty_outcome();
        }
        let event = make_recovered(
            &seen,
            "Watchdog reached a terminal state after the original status file was lost.",
            situation.output_file.as_str(),
        );
        let published = self.publish_completion_once_at(
            event,
            &situation.around,
            stamp.now,
            stamp.event_id.clone(),
        );
        TaskOutcome { status: None, completions: as_list(published), counted: false }
    }

    fn check_running(
        &mut self,
        job: &str,
        status: &TaskStatusFile,
        situation: &TaskSituation,
        this: &ThisProcess,
        stamp: &Stamp,
    ) -> (res: bool)
        requires
            old(self).wf(),
        ensures
            final(self).wf(),
            final(self).dir() == old(self).dir(),
            (final(self)@, res) == running_step(
                old(self)@,
                job@,
                status@,
                situation@,
                this.pid,
                this.instance@,
                stamp@,
            ),
    {
        let lease = match self.watchdog.claim_due_check_at(
            job,
            "background-watchdog",
            stamp.now,
            stamp.lease_id.clone(),
        ) {
            Ok(Some(lease)) => lease,
            _ => {
                return false;
            },
        };
        let runtime_state = if status.detached && status.pid.is_some() && situation.pid_running {
            RuntimeState::Running
        } else if Self::status_is_reconcilable_orphan(status, this, situation.owner_running) {
            RuntimeState::OwnershipLost
        } else {
            RuntimeState::Running
        };
        let observation = ReconcileObservation {
            runtime_state,
            process_running: match status.pid {
                Some(_) => Some(situation.pid_running),
                None => None,
            },
            swarm_status: word_for_swarm(status.tool_name.as_str(), "running"),
            retries_exhausted: false,
            observed_at: stamp.now,
        };
        let _ = self.watchdog.reconcile_with(
            job,
            &observation,
            &situation.around,
            stamp.event_id.clone(),
        );
        let _ = self.watchdog.finish_check_at(job, lease.lease_id.as_str(), stamp.now);
        true
    }

    fn reconcile_watched(&mut self, task: &WatchedTask, this: &ThisProcess, stamp: &Stamp) -> (res:
        TaskOutcome)
        requires
            old(self).wf(),
        ensures
            final(self).wf(),
            final(self).dir() == old(self).dir(),
            (final(self)@, res@) == watch_step(
                old(self)@,
                task.record@,
                task.situation@,
                this.pid,
                this.instance@,
                stamp@,
            ),
    {
        let record = &task.record;
        let situation = &task.situation;
        let found = match &situation.status {
            Some(found) => found,
            None => {
                return self.reconcile_lost_file(record, situation, stamp);
            },
        };
        let (status, first) = self.finalize_orphaned_status_if_needed(
            found.clone(),
            situation,
            this,
            stamp,
        );
        if status.status == BackgroundTaskStatus::Running {
            let counted = self.check_running(
                record.job_id.as_str(),
                &status,
                situation,
                this,
                stamp,
            );
            return TaskOutcome { counted, ..first };
        }
        let event = make_completion(
            &status,
            preview(situation.output.as_str()),
            situation.output_file.as_str(),
        );
        let published = self.publish_completion_once_at(
            event,
            &situation.around,
            stamp.now,
            stamp.event_id.clone(),
        );
        let mut more = as_list(published);
        let mut completions = first.completions;
        let ghost parts = (completions@, more@);
        completions.append(&mut more);
        assert(completed_views(completions@) =~= completed_views(parts.0) + completed_views(
            parts.1,
        ));
        TaskOutcome { status: first.status, completions, counted: !record.status.is_terminal() }
    }

    /// Brings every watch in line with its task's status file, and drops the
    /// terminal watches that nothing touched for a week. Answers what is to be
    /// done for each task.
    pub fn reconcile_watchdog_tasks_at(
        &mut self,
        tasks: &Vec<WatchedTask>,
        this: &ThisProcess,
        stamps: &Vec<Stamp>,
        swept_at: Timestamp,
    ) -> (res: Vec<TaskOutcome>)
        requires
            old(self).wf(),
            stamps@.len() == tasks@.len(),
        ensures
            final(self).wf(),
            final(self).dir() == old(self).dir(),
            ({
                let (reg, outcomes) = after_watches(
                    old(self)@,
                    watched_views(tasks@),
                    this.pid,
                    this.instance@,
                    stamp_views(stamps@),
                );
                &&& final(self)@ == swept(reg, swept_at)
                &&& outcome_views(res@) == outcomes
            }),
    {
        let ghost all = watched_views(tasks@);
        let ghost times = stamp_views(stamps@);
        let ghost start = self@;
        let ghost place = self.dir();
        let mut res: Vec<TaskOutcome> = Vec::new();
        let mut i: usize = 0;
        assert(outcome_views(res@) =~= Seq::empty());
        while i < tasks.len()
            invariant
                self.wf(),
                self.dir() == place,
                i <= tasks@.len(),
                stamps@.len() == tasks@.len(),
                all == watched_views(tasks@),
                times == stamp_views(stamps@),
                (self@, outcome_views(res@)) == after_watches(
                    start,
                    all.take(i as int),
                    this.pid,
                    this.instance@,
                    times,
                ),
            decreases tasks@.len() - i,
        {
            let ghost done = outcome_views(res@);
            assert(all.take(i + 1).drop_last() =~= all.take(i as int));
            assert(all.take(i + 1).last() == (
                tasks@[i as int].record@,
                tasks@[i as int].situation@,
            ));
            let outcome = self.reconcile_watched(&tasks[i], this, &stamps[i]);
            let ghost one = outcome@;
            res.push(outcome);
            assert(outcome_views(res@) =~= done.push(one));
            i += 1;
        }
        assert(all.take(i as int) =~= all);
        if let Some(cutoff) = swept_at.plus(-WEEK_SECS) {
            let _ = self.watchdog.cleanup_terminal_before(cutoff);
        }
        res
    }

    /// Brings every watch in line with its task's status file, now.
    pub fn reconcile_watchdog_tasks(&mut self, tasks: &Vec<WatchedTask>, this: &ThisProcess) -> (
    res: Vec<TaskOutcome>)
        requires
            old(self).wf(),
        ensures
            final(self).wf(),
            final(self).dir() == old(self).dir(),
            exists|stamps: Seq<StampView>, swept_at: Timestamp|
                stamps.len() == tasks@.len() && all_fresh(stamps) && swept_at.valid()
                    && final(self)@ == #[trigger] swept(
                    after_watches(
                        old(self)@,
                        watched_views(tasks@),
                        this.pid,
                        this.instance@,
                        stamps,
                    ).0,
                    swept_at,
                ) && outcome_views(res@) == after_watches(
                    old(self)@,
                    watched_views(tasks@),
                    this.pid,
                    this.instance@,
                    stamps,
                ).1,
    {
        let stamps = fresh_stamps(tasks.len());
        let swept_at = Timestamp::now();
        self.reconcile_watchdog_tasks_at(tasks, this, &stamps, swept_at)
    }
}

} // verus!
