//! What a sweep tells of a task, said of the fields of its status file and its
//! watch.

use vstd::prelude::*;

use crate::background::manager::{
    after_orphans, after_publish, after_swarm, after_watches, orphan_step, own_process, runtime_of,
    runtime_seen, swarm_step, swarm_word, swept, task_watch, watch_step,
};
use crate::background::model::{
    counted, preview_spec, BackgroundTaskStatus, CompletedView, OutcomeView, SituationView,
    StampView, StatusFileView,
};
use crate::clock::Timestamp;
use crate::text::{byte_len_spec, has_prefix, join_spec, truncated};
use crate::text_laws::law_truncated;
use crate::watch::laws::sound;
use crate::watch::model::{
    DeliveryStateView, ObservationView, RecordView, RuntimeState, SurroundingsView, WatchStatus,
};
use crate::watch::outcomes::{
    artifacts_are_there, goes_on, head_has_moved, head_is_expected, law_observations_are_kept,
    lemma_done, lemma_first_outside, stays_home,
};
use crate::watch::registry::{after_check_claim, after_reconcile, Registry};

verus! {

// ---------------------------------------------------------------------------
// Whom a completion tells of
// ---------------------------------------------------------------------------

/// Whether a completion tells of the task that this status file is of: its
/// identifier, its tool, its names, its session, and whether that session is to
/// be notified and woken. It points to the task's output.
pub open spec fn tells_of(
    event: CompletedView,
    status: StatusFileView,
    sit: SituationView,
) -> bool {
    &&& event.task_id == status.task_id
    &&& event.tool_name == status.tool_name
    &&& event.display_name == status.display_name
    &&& event.session_id == status.session_id
    &&& event.notify == status.notify
    &&& event.wake == status.wake
    &&& event.output_file == sit.output_file
}

/// Whether every completion of an outcome tells of the task of a status file.
pub open spec fn all_tell_of(
    outcome: OutcomeView,
    status: StatusFileView,
    sit: SituationView,
) -> bool {
    forall|k: int|
        0 <= k < outcome.completions.len() ==> tells_of(
            #[trigger] outcome.completions[k],
            status,
            sit,
        )
}

/// What a sweep publishes of a task with a status file tells of that task: of
/// its own session, and as that file says. This holds of every kind of sweep.
pub proof fn law_completions_tell_of_their_task(
    reg: Registry,
    record: RecordView,
    sit: SituationView,
    this_pid: u32,
    this_instance: Seq<char>,
    owner_session_id: Seq<char>,
    runtime: RuntimeState,
    swarm_status: Seq<char>,
    stamp: StampView,
)
    requires
        sit.status is Some,
    ensures
        all_tell_of(
            orphan_step(reg, sit, this_pid, this_instance, stamp).1,
            sit.status->0,
            sit,
        ),
        all_tell_of(
            swarm_step(reg, record, sit, owner_session_id, runtime, swarm_status, stamp).1,
            sit.status->0,
            sit,
        ),
        all_tell_of(
            watch_step(reg, record, sit, this_pid, this_instance, stamp).1,
            sit.status->0,
            sit,
        ),
{
    lemma_orphan_tells(reg, sit, this_pid, this_instance, stamp);
    lemma_swarm_tells(reg, record, sit, owner_session_id, runtime, swarm_status, stamp);
    lemma_watch_tells(reg, record, sit, this_pid, this_instance, stamp);
}

proof fn lemma_orphan_tells(
    reg: Registry,
    sit: SituationView,
    this_pid: u32,
    this_instance: Seq<char>,
    stamp: StampView,
)
    requires
        sit.status is Some,
    ensures
        all_tell_of(orphan_step(reg, sit, this_pid, this_instance, stamp).1, sit.status->0, sit),
{
}

proof fn lemma_swarm_tells(
    reg: Registry,
    record: RecordView,
    sit: SituationView,
    owner_session_id: Seq<char>,
    runtime: RuntimeState,
    swarm_status: Seq<char>,
    stamp: StampView,
)
    requires
        sit.status is Some,
    ensures
        all_tell_of(
            swarm_step(reg, record, sit, owner_session_id, runtime, swarm_status, stamp).1,
            sit.status->0,
            sit,
        ),
{
}

proof fn lemma_watch_tells(
    reg: Registry,
    record: RecordView,
    sit: SituationView,
    this_pid: u32,
    this_instance: Seq<char>,
    stamp: StampView,
)
    requires
        sit.status is Some,
    ensures
        all_tell_of(
            watch_step(reg, record, sit, this_pid, this_instance, stamp).1,
            sit.status->0,
            sit,
        ),
{
    lemma_orphan_tells(reg, sit, this_pid, this_instance, stamp);
    let first = orphan_step(reg, sit, this_pid, this_instance, stamp).1;
    let all = watch_step(reg, record, sit, this_pid, this_instance, stamp).1;
    assert forall|k: int| 0 <= k < all.completions.len() implies tells_of(
        #[trigger] all.completions[k],
        sit.status->0,
        sit,
    ) by {
        if k < first.completions.len() {
            assert(all.completions[k] == first.completions[k]);
        }
    }
}

/// Over a whole sweep, what is published of a task is published in its own
/// place and tells of that task.
pub proof fn law_orphan_sweeps_tell_of_their_tasks(
    reg: Registry,
    sits: Seq<SituationView>,
    this_pid: u32,
    this_instance: Seq<char>,
    stamps: Seq<StampView>,
)
    ensures
        ({
            let outcomes = after_orphans(reg, sits, this_pid, this_instance, stamps).1;
            &&& outcomes.len() == sits.len()
            &&& forall|i: int|
                0 <= i < sits.len() && sits[i].status is Some ==> all_tell_of(
                    #[trigger] outcomes[i],
                    sits[i].status->0,
                    sits[i],
                )
            &&& forall|i: int|
                0 <= i < sits.len() && sits[i].status is None ==> (
                #[trigger] outcomes[i]).completions.len() == 0
        }),
    decreases sits.len(),
{
    if sits.len() > 0 {
        let front = sits.drop_last();
        law_orphan_sweeps_tell_of_their_tasks(reg, front, this_pid, this_instance, stamps);
        let before = after_orphans(reg, front, this_pid, this_instance, stamps);
        let outcomes = after_orphans(reg, sits, this_pid, this_instance, stamps).1;
        if sits.last().status is Some {
            lemma_orphan_tells(
                before.0,
                sits.last(),
                this_pid,
                this_instance,
                stamps[sits.len() - 1],
            );
        }
        assert forall|i: int| 0 <= i < sits.len() && sits[i].status is Some implies all_tell_of(
            #[trigger] outcomes[i],
            sits[i].status->0,
            sits[i],
        ) by {
            if i < front.len() {
                assert(outcomes[i] == before.1[i]);
                assert(sits[i] == front[i]);
            }
        }
        assert forall|i: int| 0 <= i < sits.len() && sits[i].status is None implies (
        #[trigger] outcomes[i]).completions.len() == 0 by {
            if i < front.len() {
                assert(outcomes[i] == before.1[i]);
                assert(sits[i] == front[i]);
            }
        }
    }
}

/// Over a whole reconciliation of a swarm's plan, what is published of a task
/// is published in its own place and tells of that task.
pub proof fn law_swarm_sweeps_tell_of_their_tasks(
    reg: Registry,
    tasks: Seq<(RecordView, SituationView)>,
    owner_session_id: Seq<char>,
    runtime: RuntimeState,
    swarm_status: Seq<char>,
    stamps: Seq<StampView>,
)
    ensures
        ({
            let outcomes = after_swarm(
                reg,
                tasks,
                owner_session_id,
                runtime,
                swarm_status,
                stamps,
            ).1;
            &&& outcomes.len() == tasks.len()
            &&& forall|i: int|
                0 <= i < tasks.len() && tasks[i].1.status is Some ==> all_tell_of(
                    #[trigger] outcomes[i],
                    tasks[i].1.status->0,
                    tasks[i].1,
                )
            &&& forall|i: int|
                0 <= i < tasks.len() && tasks[i].1.status is None ==> (
                #[trigger] outcomes[i]).completions.len() == 0
        }),
    decreases tasks.len(),
{
    if tasks.len() > 0 {
        let front = tasks.drop_last();
        law_swarm_sweeps_tell_of_their_tasks(
            reg,
            front,
            owner_session_id,
            runtime,
            swarm_status,
            stamps,
        );
        let before = after_swarm(reg, front, owner_session_id, runtime, swarm_status, stamps);
        let outcomes = after_swarm(reg, tasks, owner_session_id, runtime, swarm_status, stamps).1;
        if tasks.last().1.status is Some {
            lemma_swarm_tells(
                before.0,
                tasks.last().0,
                tasks.last().1,
                owner_session_id,
                runtime,
                swarm_status,
                stamps[tasks.len() - 1],
            );
        }
        assert forall|i: int| 0 <= i < tasks.len() && tasks[i].1.status is Some implies all_tell_of(
            #[trigger] outcomes[i],
            tasks[i].1.status->0,
            tasks[i].1,
        ) by {
            if i < front.len() {
                assert(outcomes[i] == before.1[i]);
                assert(tasks[i] == front[i]);
            }
        }
        assert forall|i: int| 0 <= i < tasks.len() && tasks[i].1.status is None implies (
        #[trigger] outcomes[i]).completions.len() == 0 by {
            if i < front.len() {
                assert(outcomes[i] == before.1[i]);
                assert(tasks[i] == front[i]);
            }
        }
    }
}

/// Over a whole sweep of the watches, what is published of a task is published
/// in its own place and tells of that task.
pub proof fn law_watch_sweeps_tell_of_their_tasks(
    reg: Registry,
    tasks: Seq<(RecordView, SituationView)>,
    this_pid: u32,
    this_instance: Seq<char>,
    stamps: Seq<StampView>,
)
    ensures
        ({
            let outcomes = after_watches(reg, tasks, this_pid, this_instance, stamps).1;
            &&& outcomes.len() == tasks.len()
            &&& forall|i: int|
                0 <= i < tasks.len() && tasks[i].1.status is Some ==> all_tell_of(
                    #[trigger] outcomes[i],
                    tasks[i].1.status->0,
                    tasks[i].1,
                )
        }),
    decreases tasks.len(),
{
    if tasks.len() > 0 {
        let front = tasks.drop_last();
        law_watch_sweeps_tell_of_their_tasks(reg, front, this_pid, this_instance, stamps);
        let before = after_watches(reg, front, this_pid, this_instance, stamps);
        let outcomes = after_watches(reg, tasks, this_pid, this_instance, stamps).1;
        if tasks.last().1.status is Some {
            lemma_watch_tells(
                before.0,
                tasks.last().0,
                tasks.last().1,
                this_pid,
                this_instance,
                stamps[tasks.len() - 1],
            );
        }
        assert forall|i: int| 0 <= i < tasks.len() && tasks[i].1.status is Some implies all_tell_of(
            #[trigger] outcomes[i],
            tasks[i].1.status->0,
            tasks[i].1,
        ) by {
            if i < front.len() {
                assert(outcomes[i] == before.1[i]);
                assert(tasks[i] == front[i]);
            }
        }
    }
}

/// What is published of a task whose status file is gone tells of the watch:
/// of its job and of the session that owns it, which is notified and woken.
pub proof fn law_lost_tasks_tell_of_their_watch(
    reg: Registry,
    record: RecordView,
    sit: SituationView,
    this_pid: u32,
    this_instance: Seq<char>,
    stamp: StampView,
)
    requires
        sit.status is None,
        reg.dom().contains(record.job_id) ==> reg[record.job_id].job_id == record.job_id
            && reg[record.job_id].owner_session_id == record.owner_session_id,
    ensures
        ({
            let outcome = watch_step(reg, record, sit, this_pid, this_instance, stamp).1;
            &&& outcome.status is None
            &&& !outcome.counted
            &&& forall|k: int|
                0 <= k < outcome.completions.len() ==> {
                    let event = #[trigger] outcome.completions[k];
                    &&& event.task_id == record.job_id
                    &&& event.session_id == record.owner_session_id
                    &&& event.tool_name == "orchestration_watchdog"@
                    &&& event.display_name == Some("recovered orchestration watch"@)
                    &&& event.exit_code is None
                    &&& event.notify && event.wake
                    &&& event.output_file == sit.output_file
                }
        }),
{
}

// ---------------------------------------------------------------------------
// What is published
// ---------------------------------------------------------------------------

/// A published completion is the one that was to be published. Where the watch
/// has completed, so has the task, and the evidence is told below what the task
/// put out.
pub proof fn law_published_completions_tell_the_evidence(
    reg: Registry,
    event: CompletedView,
    around: SurroundingsView,
    now: Timestamp,
    event_id: Seq<char>,
)
    requires
        after_publish(reg, event, around, now, event_id).1 is Some,
        reg.dom().contains(event.task_id),
        stays_home(reg[event.task_id].expected_artifacts),
        event.status != BackgroundTaskStatus::Running,
    ensures
        ({
            let (after, told) = after_publish(reg, event, around, now, event_id);
            let watch = after[event.task_id];
            let told = told->0;
            let evidence = "Watchdog evidence:\n"@ + join_spec(watch.completion_evidence, "\n"@);
            &&& told == (CompletedView {
                status: told.status,
                output_preview: told.output_preview,
                ..event
            })
            &&& watch.status == WatchStatus::Completed ==> told.status
                == BackgroundTaskStatus::Completed
            &&& watch.status == WatchStatus::Completed && watch.completion_evidence.len() > 0
                && event.output_preview.len() > 0 ==> told.output_preview == event.output_preview
                + "\n\n"@ + evidence
            &&& watch.status == WatchStatus::Completed && watch.completion_evidence.len() > 0
                && event.output_preview.len() == 0 ==> told.output_preview == evidence
            &&& watch.completion_evidence.len() == 0 ==> told.output_preview == event.output_preview
            &&& watch.status != WatchStatus::Completed ==> told == event
        }),
{
    let r = reg[event.task_id];
    lemma_first_outside(r.expected_artifacts);
}

/// A completion is published exactly where nobody was told yet: the task is not
/// watched, its watch goes on, or its notification is pending or was held for
/// too long.
pub proof fn law_completions_wait_for_nobody(
    reg: Registry,
    event: CompletedView,
    around: SurroundingsView,
    now: Timestamp,
    event_id: Seq<char>,
)
    requires
        sound(reg),
        event.status != BackgroundTaskStatus::Running,
    ensures
        ({
            let told = after_publish(reg, event, around, now, event_id).1;
            let job = event.task_id;
            &&& !reg.dom().contains(job) ==> told == Some(event)
            &&& reg.dom().contains(job) && goes_on(reg[job]) ==> told is Some
            &&& reg.dom().contains(job) && !goes_on(reg[job]) ==> (told is Some <==> match (
            reg[job].terminal_delivery->0.state) {
                DeliveryStateView::Pending => true,
                DeliveryStateView::Claimed { expires_at, .. } => !now.before(expires_at),
                DeliveryStateView::Delivered { .. } => false,
            })
        }),
{
}

/// The task of a watch that goes on ends the watch: as completed where the task
/// completed or anything shows that its job is done, and as failed otherwise.
pub proof fn law_published_tasks_end_their_watch(
    reg: Registry,
    event: CompletedView,
    around: SurroundingsView,
    now: Timestamp,
    event_id: Seq<char>,
)
    requires
        reg.dom().contains(event.task_id),
        goes_on(reg[event.task_id]),
        stays_home(reg[event.task_id].expected_artifacts),
        event.status != BackgroundTaskStatus::Running,
    ensures
        ({
            let r = reg[event.task_id];
            let after = after_publish(reg, event, around, now, event_id).0[event.task_id];
            let head = head_is_expected(r, around)
                || head_has_moved(r, around);
            let completed = event.status != BackgroundTaskStatus::Failed || head
                || artifacts_are_there(r, around);
            &&& completed ==> after.status == WatchStatus::Completed
            &&& !completed ==> after.status == WatchStatus::Failed
            &&& after.terminal_at == Some(now)
            &&& event.tool_name == "swarm"@ ==> after.last_swarm_status == Some("terminal"@)
            &&& event.tool_name != "swarm"@ ==> after.last_swarm_status == r.last_swarm_status
        }),
{
    let r = reg[event.task_id];
    let obs = ObservationView {
        runtime_state: runtime_of(event.status),
        process_running: None,
        swarm_status: swarm_word(event.tool_name, "terminal"@),
        retries_exhausted: true,
        observed_at: now,
    };
    lemma_first_outside(r.expected_artifacts);
    lemma_done(r, obs, around);
}

// ---------------------------------------------------------------------------
// Status files
// ---------------------------------------------------------------------------

/// Whether a status file was ended and is otherwise as it was: as completed,
/// with exit code zero, or as failed for the reason given.
pub open spec fn is_ended(
    status: StatusFileView,
    ended: StatusFileView,
    reason: Seq<char>,
    now: Timestamp,
) -> bool {
    &&& ended == (StatusFileView {
        status: ended.status,
        exit_code: ended.exit_code,
        error: ended.error,
        completed_at: now.rfc3339_spec(),
        ..status
    })
    &&& ended.status == BackgroundTaskStatus::Completed || ended.status
        == BackgroundTaskStatus::Failed
    &&& ended.status == BackgroundTaskStatus::Completed ==> ended.exit_code == Some(0i32)
        && ended.error is None
    &&& ended.status == BackgroundTaskStatus::Failed ==> ended.exit_code is None && ended.error
        == Some(reason)
}

/// Whether a task is given up: it runs by its file, in no process of its own,
/// under a server other than this one that is gone, and this server does not
/// run it. A swarm whose plan is known to run is not given up.
pub open spec fn is_given_up(
    reg: Registry,
    status: StatusFileView,
    sit: SituationView,
    this_pid: u32,
    this_instance: Seq<char>,
) -> bool {
    &&& status.status == BackgroundTaskStatus::Running
    &&& !status.detached
    &&& status.pid is None
    &&& status.owner_pid is Some
    &&& status.owner_instance is None || status.owner_instance->0 != this_instance
    &&& status.owner_pid->0 == this_pid || !sit.owner_running
    &&& !sit.live
    &&& !(status.tool_name == "swarm"@ && reg.dom().contains(status.task_id)
        && reg[status.task_id].runtime_state == RuntimeState::Running
        && reg[status.task_id].last_swarm_status is Some)
}

/// A sweep ends the status file of a task exactly where the task is given up.
/// Then it is counted, and its file says completed where its watch completed,
/// and otherwise that the server that owned it exited.
pub proof fn law_given_up_tasks_are_ended(
    reg: Registry,
    sit: SituationView,
    this_pid: u32,
    this_instance: Seq<char>,
    stamp: StampView,
)
    requires
        sit.status is Some,
    ensures
        ({
            let status = sit.status->0;
            let (after, outcome) = orphan_step(reg, sit, this_pid, this_instance, stamp);
            let given_up = is_given_up(reg, status, sit, this_pid, this_instance);
            &&& outcome.status is Some <==> given_up
            &&& outcome.counted <==> given_up
            &&& !given_up ==> after == reg && outcome.completions.len() == 0
            &&& given_up ==> is_ended(
                status,
                outcome.status->0,
                "Task orphaned: the owning server process exited (reloaded or crashed) before the task finished"@,
                stamp.now,
            )
            &&& given_up && !reg.dom().contains(status.task_id) ==> outcome.status->0.status
                == BackgroundTaskStatus::Failed && after == reg && outcome.completions.len() == 1
        }),
{
}

/// A task that is given up while its watch goes on is completed exactly where
/// the repository or the artifacts show that its job is done.
pub proof fn law_given_up_tasks_may_be_done(
    reg: Registry,
    sit: SituationView,
    this_pid: u32,
    this_instance: Seq<char>,
    stamp: StampView,
)
    requires
        sit.status is Some,
        is_given_up(reg, sit.status->0, sit, this_pid, this_instance),
        reg.dom().contains(sit.status->0.task_id),
        goes_on(reg[sit.status->0.task_id]),
        stays_home(reg[sit.status->0.task_id].expected_artifacts),
    ensures
        ({
            let r = reg[sit.status->0.task_id];
            let ended = orphan_step(reg, sit, this_pid, this_instance, stamp).1.status->0;
            let done = head_is_expected(r, sit.around)
                || head_has_moved(r, sit.around)
                || artifacts_are_there(r, sit.around);
            ended.status == BackgroundTaskStatus::Completed <==> done
        }),
{
    let status = sit.status->0;
    let r = reg[status.task_id];
    let obs = ObservationView {
        runtime_state: RuntimeState::OwnershipLost,
        process_running: Some(false),
        swarm_status: swarm_word(status.tool_name, "ownership_lost"@),
        retries_exhausted: false,
        observed_at: stamp.now,
    };
    lemma_first_outside(r.expected_artifacts);
    lemma_done(r, obs, sit.around);
}

// ---------------------------------------------------------------------------
// Swarms
// ---------------------------------------------------------------------------

/// Whether a report on a swarm's plan is about a task: its watch goes on for the
/// session that drives the plan, its file says that a swarm runs, and this server
/// does not run it.
pub open spec fn is_about(
    record: RecordView,
    sit: SituationView,
    owner_session_id: Seq<char>,
) -> bool {
    &&& record.owner_session_id == owner_session_id
    &&& goes_on(record)
    &&& !sit.live
    &&& sit.status is Some
    &&& sit.status->0.tool_name == "swarm"@
    &&& sit.status->0.status == BackgroundTaskStatus::Running
}

/// Whether the watch can be checked now: it goes on, its check is due, and
/// nobody holds the right to it.
pub open spec fn can_be_checked(r: RecordView, now: Timestamp) -> bool {
    &&& goes_on(r)
    &&& r.next_check_at is Some ==> !now.before(r.next_check_at->0)
    &&& r.active_check is Some ==> !now.before(r.active_check->0.expires_at)
    &&& now.plus_spec(300) is Some
}

/// Whether the repository or the artifacts show that a job is done.
pub open spec fn shows_done(r: RecordView, around: SurroundingsView) -> bool {
    head_is_expected(r, around) || head_has_moved(r, around) || artifacts_are_there(r, around)
}

/// A report that is not about a task leaves it alone, and so does one that
/// comes while the task's watch cannot be checked.
pub proof fn law_reports_on_others_change_nothing(
    reg: Registry,
    record: RecordView,
    sit: SituationView,
    owner_session_id: Seq<char>,
    runtime: RuntimeState,
    swarm_status: Seq<char>,
    stamp: StampView,
)
    requires
        !is_about(record, sit, owner_session_id) || !reg.dom().contains(record.job_id)
            || !can_be_checked(reg[record.job_id], stamp.now),
    ensures
        ({
            let (after, outcome) = swarm_step(
                reg,
                record,
                sit,
                owner_session_id,
                runtime,
                swarm_status,
                stamp,
            );
            &&& after == reg
            &&& outcome.status is None
            &&& outcome.completions.len() == 0
            &&& !outcome.counted
        }),
{
}

/// A report about a task reaches its watch, which then tells the runtime's state
/// and the plan's status. Where the plan completed, or the repository or the
/// artifacts show that the job is done, the task is ended as completed. Where
/// the plan failed, it is ended as failed. A plan that runs ends nothing.
pub proof fn law_reports_reach_their_watch(
    reg: Registry,
    record: RecordView,
    sit: SituationView,
    owner_session_id: Seq<char>,
    runtime: RuntimeState,
    swarm_status: Seq<char>,
    stamp: StampView,
)
    requires
        is_about(record, sit, owner_session_id),
        reg.dom().contains(record.job_id),
        can_be_checked(reg[record.job_id], stamp.now),
        stays_home(reg[record.job_id].expected_artifacts),
    ensures
        ({
            let r = reg[record.job_id];
            let (changed, outcome) = swarm_step(
                reg,
                record,
                sit,
                owner_session_id,
                runtime,
                swarm_status,
                stamp,
            );
            let after = changed[record.job_id];
            let done = runtime == RuntimeState::Completed || shows_done(r, sit.around);
            let reason = "Swarm plan reconciled as "@ + swarm_status;
            &&& outcome.counted ==> after.runtime_state == runtime && after.last_swarm_status == Some(
                swarm_status,
            ) && after.active_check is None
            &&& done ==> {
                &&& outcome.counted
                &&& after.status == WatchStatus::Completed
                &&& outcome.status is Some
                &&& is_ended(sit.status->0, outcome.status->0, reason, stamp.now)
                &&& outcome.status->0.status == BackgroundTaskStatus::Completed
            }
            &&& !done && runtime == RuntimeState::Failed ==> {
                &&& outcome.counted
                &&& after.status == WatchStatus::Failed
                &&& outcome.status is Some
                &&& is_ended(sit.status->0, outcome.status->0, reason, stamp.now)
                &&& outcome.status->0.status == BackgroundTaskStatus::Failed
            }
            &&& !done && runtime == RuntimeState::Running ==> {
                &&& goes_on(after)
                &&& outcome.status is None
                &&& outcome.completions.len() == 0
            }
        }),
{
    let r = reg[record.job_id];
    let held = after_check_claim(
        reg,
        record.job_id,
        "swarm-plan-watchdog"@,
        stamp.now,
        stamp.lease_id,
    ).0;
    let obs = ObservationView {
        runtime_state: runtime,
        process_running: own_process(sit.status->0, sit.pid_running),
        swarm_status: Some(swarm_status),
        retries_exhausted: runtime is Failed,
        observed_at: stamp.now,
    };
    lemma_first_outside(r.expected_artifacts);
    lemma_done(held[record.job_id], obs, sit.around);
}

/// What is published of a swarm's task tells its output first, and then the
/// plan's status.
pub proof fn law_swarm_completions_tell_the_plan(
    reg: Registry,
    record: RecordView,
    sit: SituationView,
    owner_session_id: Seq<char>,
    runtime: RuntimeState,
    swarm_status: Seq<char>,
    stamp: StampView,
    k: int,
)
    requires
        0 <= k < swarm_step(
            reg,
            record,
            sit,
            owner_session_id,
            runtime,
            swarm_status,
            stamp,
        ).1.completions.len(),
    ensures
        ({
            let event = swarm_step(
                reg,
                record,
                sit,
                owner_session_id,
                runtime,
                swarm_status,
                stamp,
            ).1.completions[k];
            let shown = preview_spec(sit.output);
            &&& shown.len() > 0 ==> has_prefix(
                event.output_preview,
                shown + "\n\n"@ + ("Swarm watchdog: "@ + swarm_status),
            )
            &&& shown.len() == 0 ==> has_prefix(
                event.output_preview,
                "Swarm watchdog: "@ + swarm_status,
            )
        }),
{
    let event = swarm_step(
        reg,
        record,
        sit,
        owner_session_id,
        runtime,
        swarm_status,
        stamp,
    ).1.completions[k];
    let shown = preview_spec(sit.output);
    let text = if shown.len() > 0 {
        shown + "\n\n"@ + ("Swarm watchdog: "@ + swarm_status)
    } else {
        "Swarm watchdog: "@ + swarm_status
    };
    reveal_strlit("Swarm watchdog: ");
    assert(event.output_preview.subrange(0, text.len() as int) =~= text);
}

// ---------------------------------------------------------------------------
// Watched tasks
// ---------------------------------------------------------------------------

/// What is published of a given-up or finished task tells its output first.
pub proof fn law_completions_tell_the_output(
    reg: Registry,
    record: RecordView,
    sit: SituationView,
    this_pid: u32,
    this_instance: Seq<char>,
    stamp: StampView,
)
    requires
        sit.status is Some,
    ensures
        forall|k: int|
            0 <= k < orphan_step(reg, sit, this_pid, this_instance, stamp).1.completions.len()
                ==> has_prefix(
                (#[trigger] orphan_step(
                    reg,
                    sit,
                    this_pid,
                    this_instance,
                    stamp,
                ).1.completions[k]).output_preview,
                preview_spec(sit.output),
            ),
        forall|k: int|
            0 <= k < watch_step(
                reg,
                record,
                sit,
                this_pid,
                this_instance,
                stamp,
            ).1.completions.len() ==> has_prefix(
                (#[trigger] watch_step(
                    reg,
                    record,
                    sit,
                    this_pid,
                    this_instance,
                    stamp,
                ).1.completions[k]).output_preview,
                preview_spec(sit.output),
            ),
{
    let shown = preview_spec(sit.output);
    let first = orphan_step(reg, sit, this_pid, this_instance, stamp).1;
    let all = watch_step(reg, record, sit, this_pid, this_instance, stamp).1;
    assert forall|k: int| 0 <= k < first.completions.len() implies has_prefix(
        (#[trigger] first.completions[k]).output_preview,
        shown,
    ) by {
        let text = first.completions[k].output_preview;
        assert(text.subrange(0, shown.len() as int) =~= shown);
    }
    assert forall|k: int| 0 <= k < all.completions.len() implies has_prefix(
        (#[trigger] all.completions[k]).output_preview,
        shown,
    ) by {
        if k < first.completions.len() {
            assert(all.completions[k] == first.completions[k]);
        } else {
            let text = all.completions[k].output_preview;
            assert(text.subrange(0, shown.len() as int) =~= shown);
        }
    }
}

/// A task whose file says that it has finished keeps its file. It is counted
/// while its watch goes on. An unwatched one is published as its file says.
pub proof fn law_finished_tasks_are_published(
    reg: Registry,
    record: RecordView,
    sit: SituationView,
    this_pid: u32,
    this_instance: Seq<char>,
    stamp: StampView,
)
    requires
        sit.status is Some,
        sit.status->0.status != BackgroundTaskStatus::Running,
    ensures
        ({
            let status = sit.status->0;
            let (after, outcome) = watch_step(reg, record, sit, this_pid, this_instance, stamp);
            &&& outcome.status is None
            &&& outcome.counted <==> goes_on(record)
            &&& outcome.completions.len() <= 1
            &&& sound(reg) && reg.dom().contains(status.task_id) && goes_on(reg[status.task_id])
                ==> outcome.completions.len() == 1
            &&& !reg.dom().contains(status.task_id) ==> {
                &&& after == reg
                &&& outcome.completions.len() == 1
                &&& outcome.completions[0].status == status.status
                &&& outcome.completions[0].exit_code == status.exit_code
                &&& outcome.completions[0].output_preview == preview_spec(sit.output)
            }
        }),
{
}

/// A task that runs and is not given up is left running. It is counted where
/// its watch could be checked, and the watch then tells whether it still has an
/// owner: a detached process that runs needs none.
pub proof fn law_running_tasks_are_left_running(
    reg: Registry,
    record: RecordView,
    sit: SituationView,
    this_pid: u32,
    this_instance: Seq<char>,
    stamp: StampView,
)
    requires
        sit.status is Some,
        sit.status->0.status == BackgroundTaskStatus::Running,
        !is_given_up(reg, sit.status->0, sit, this_pid, this_instance),
    ensures
        ({
            let status = sit.status->0;
            let (changed, outcome) = watch_step(reg, record, sit, this_pid, this_instance, stamp);
            let job = record.job_id;
            let after = changed[job];
            let checked = reg.dom().contains(job) && can_be_checked(reg[job], stamp.now);
            let owner_gone = !status.detached && status.pid is None && status.owner_pid is Some && (
            status.owner_instance is None || status.owner_instance->0 != this_instance) && (
            status.owner_pid->0 == this_pid || !sit.owner_running);
            let seen = after_reconcile(
                after_check_claim(reg, job, "background-watchdog"@, stamp.now, stamp.lease_id).0,
                job,
                ObservationView {
                    runtime_state: if owner_gone {
                        RuntimeState::OwnershipLost
                    } else {
                        RuntimeState::Running
                    },
                    process_running: if status.pid is Some {
                        Some(sit.pid_running)
                    } else {
                        None
                    },
                    swarm_status: if status.tool_name == "swarm"@ {
                        Some("running"@)
                    } else {
                        None
                    },
                    retries_exhausted: false,
                    observed_at: stamp.now,
                },
                sit.around,
                stamp.event_id,
            );
            &&& outcome.status is None
            &&& outcome.completions.len() == 0
            &&& outcome.counted <==> checked
            &&& !checked ==> changed == reg
            &&& checked && seen.1 is Ok ==> changed == seen.0
        }),
{
    let status = sit.status->0;
    let job = record.job_id;
    if reg.dom().contains(job) && can_be_checked(reg[job], stamp.now) {
        let held = after_check_claim(
            reg,
            job,
            "background-watchdog"@,
            stamp.now,
            stamp.lease_id,
        ).0;
        let obs = ObservationView {
            runtime_state: runtime_seen(status, sit, this_pid, this_instance),
            process_running: own_process(status, sit.pid_running),
            swarm_status: swarm_word(status.tool_name, "running"@),
            retries_exhausted: false,
            observed_at: stamp.now,
        };
        let seen = after_reconcile(held, job, obs, sit.around, stamp.event_id);
        if seen.1 is Ok {
            law_observations_are_kept(held, job, obs, sit.around, stamp.event_id);
        }
    }
}

/// A watch that has ended and whose status file is gone is published while its
/// notification is owed: as completed where the watch completed, and as failed
/// otherwise.
pub proof fn law_ended_watches_are_recovered(
    reg: Registry,
    record: RecordView,
    sit: SituationView,
    this_pid: u32,
    this_instance: Seq<char>,
    stamp: StampView,
)
    requires
        sound(reg),
        sit.status is None,
        reg.dom().contains(record.job_id),
        reg[record.job_id] == record,
        !goes_on(record),
    ensures
        ({
            let outcome = watch_step(reg, record, sit, this_pid, this_instance, stamp).1;
            let owed = match (record.terminal_delivery->0.state) {
                DeliveryStateView::Pending => true,
                DeliveryStateView::Claimed { expires_at, .. } => !stamp.now.before(expires_at),
                DeliveryStateView::Delivered { .. } => false,
            };
            &&& owed ==> outcome.completions.len() == 1
            &&& !owed ==> outcome.completions.len() == 0
            &&& owed && record.status == WatchStatus::Completed ==> outcome.completions[0].status
                == BackgroundTaskStatus::Completed
            &&& owed && record.status != WatchStatus::Completed ==> outcome.completions[0].status
                == BackgroundTaskStatus::Failed
            &&& owed && record.completion_evidence.len() == 0 ==> outcome.completions[0].output_preview
                == "Recovered terminal orchestration watch pending delivery."@
            &&& owed && record.completion_evidence.len() > 0 ==> has_prefix(
                outcome.completions[0].output_preview,
                "Watchdog evidence:\n"@ + join_spec(record.completion_evidence, "\n"@),
            )
        }),
{
    let outcome = watch_step(reg, record, sit, this_pid, this_instance, stamp).1;
    let told = "Watchdog evidence:\n"@ + join_spec(record.completion_evidence, "\n"@);
    if outcome.completions.len() == 1 && record.completion_evidence.len() > 0 {
        let text = outcome.completions[0].output_preview;
        reveal_strlit("Watchdog evidence:\n");
        assert(text.subrange(0, told.len() as int) =~= told);
    }
}

// ---------------------------------------------------------------------------
// Previews and counts
// ---------------------------------------------------------------------------

/// A preview is the output itself where that fits in five hundred bytes.
/// Otherwise it is the longest beginning that fits, and three dots.
pub proof fn law_previews_are_beginnings(output: Seq<char>)
    ensures
        byte_len_spec(output) <= 500 ==> preview_spec(output) == output,
        byte_len_spec(output) > 500 ==> exists|n: int|
            {
                &&& 0 <= n < output.len()
                &&& preview_spec(output) == #[trigger] output.take(n) + "..."@
                &&& byte_len_spec(output.take(n)) <= 500
                &&& byte_len_spec(output.take(n + 1)) > 500
            },
{
    law_truncated(output, 500);
    if byte_len_spec(output) > 500 {
        let head = truncated(output, 500);
        let n = head.len() as int;
        assert(output.take(n) =~= output.subrange(0, n));
        assert(preview_spec(output) == output.take(n) + "..."@);
    }
}

/// The number of tasks that a sweep counts is that of the outcomes that are
/// counted.
pub proof fn law_counts_are_of_outcomes(outcomes: Seq<OutcomeView>)
    ensures
        counted(outcomes) == outcomes.filter(|o: OutcomeView| o.counted).len(),
    decreases outcomes.len(),
{
    reveal(Seq::filter);
    if outcomes.len() > 0 {
        law_counts_are_of_outcomes(outcomes.drop_last());
    }
}

/// A sweep forgets exactly the watches that ended and were not touched for a
/// week, where the calendar reaches back so far.
pub proof fn law_old_watches_are_forgotten(reg: Registry, now: Timestamp, id: Seq<char>)
    ensures
        now.plus_spec(-604800) is None ==> swept(reg, now) == reg,
        now.plus_spec(-604800) is Some ==> (swept(reg, now).dom().contains(id)
            <==> reg.dom().contains(id) && (goes_on(reg[id]) || !reg[id].updated_at.before(
            now.plus_spec(-604800)->0,
        ))),
        swept(reg, now).dom().contains(id) ==> swept(reg, now)[id] == reg[id],
{
}

/// A background task is watched under its own identifier and for its session,
/// for a week, from the commit that the repository stands at. It expects
/// nothing, has no deadline, and is tried once.
pub proof fn law_task_watches(
    task_id: Seq<char>,
    session_id: Seq<char>,
    process_id: Option<u32>,
    working_dir: Seq<char>,
)
    ensures
        ({
            let spec = task_watch(task_id, session_id, process_id, working_dir);
            &&& spec.job_id == task_id
            &&& spec.owner_session_id == session_id
            &&& spec.dedupe_key == "background:"@ + session_id + ":"@ + task_id
            &&& spec.worker_session_id is None
            &&& spec.process_id == process_id
            &&& spec.working_dir == working_dir
            &&& spec.baseline_sha is None && spec.expected_sha is None && spec.deadline is None
            &&& spec.expected_artifacts.len() == 0
            &&& spec.stale_after == 604800
            &&& spec.retry.max_attempts == 1
            &&& spec.retry.initial_backoff_secs == 30
            &&& spec.retry.max_backoff_secs == 900
            &&& spec.retry.model_fallbacks.len() == 0
        }),
{
}

/// A completion that is published is held by the manager for five minutes: in
/// that time nobody else is handed the notification.
pub proof fn law_published_completions_are_held(
    reg: Registry,
    event: CompletedView,
    around: SurroundingsView,
    now: Timestamp,
    event_id: Seq<char>,
)
    requires
        sound(reg),
        event.status != BackgroundTaskStatus::Running,
        reg.dom().contains(event.task_id),
        now.plus_spec(300) is Some,
        after_publish(reg, event, around, now, event_id).1 is Some,
    ensures
        ({
            let after = after_publish(reg, event, around, now, event_id).0[event.task_id];
            &&& after.terminal_delivery is Some
            &&& after.terminal_delivery->0.state == (DeliveryStateView::Claimed {
                claimant: "background-task-manager"@,
                claimed_at: now,
                expires_at: now.plus_spec(300)->0,
            })
        }),
{
    lemma_first_outside(reg[event.task_id].expected_artifacts);
}

/// A task whose status file is gone while its watch goes on is published only
/// once its watch has ended: as completed, with the evidence, where the
/// repository or the artifacts show that the job is done, and otherwise, once
/// it is stale, as failed. Until then nothing is told.
pub proof fn law_lost_tasks_are_watched_on(
    reg: Registry,
    record: RecordView,
    sit: SituationView,
    this_pid: u32,
    this_instance: Seq<char>,
    stamp: StampView,
)
    requires
        sound(reg),
        sit.status is None,
        goes_on(record),
        reg.dom().contains(record.job_id),
    ensures
        ({
            let r = reg[record.job_id];
            let (changed, outcome) = watch_step(reg, record, sit, this_pid, this_instance, stamp);
            let after = changed[record.job_id];
            let done = shows_done(r, sit.around);
            &&& !can_be_checked(r, stamp.now) ==> changed == reg && outcome.completions.len() == 0
            &&& can_be_checked(r, stamp.now) && done ==> {
                &&& after.status == WatchStatus::Completed
                &&& outcome.completions.len() == 1
                &&& outcome.completions[0].status == BackgroundTaskStatus::Completed
                &&& has_prefix(
                    outcome.completions[0].output_preview,
                    "Watchdog evidence:\n"@ + join_spec(after.completion_evidence, "\n"@),
                )
            }
            &&& can_be_checked(r, stamp.now) && !done && after.status == WatchStatus::Stale ==> {
                &&& outcome.completions.len() == 1
                &&& outcome.completions[0].status == BackgroundTaskStatus::Failed
            }
            &&& goes_on(after) ==> outcome.completions.len() == 0
        }),
{
    let job = record.job_id;
    let r = reg[job];
    let held = after_check_claim(reg, job, "background-watchdog"@, stamp.now, stamp.lease_id).0;
    let obs = ObservationView {
        runtime_state: RuntimeState::Unknown,
        process_running: None,
        swarm_status: None,
        retries_exhausted: false,
        observed_at: stamp.now,
    };
    lemma_first_outside(r.expected_artifacts);
    lemma_done(held[job], obs, sit.around);
    let (changed, outcome) = watch_step(reg, record, sit, this_pid, this_instance, stamp);
    if can_be_checked(r, stamp.now) && shows_done(r, sit.around) {
        let told = "Watchdog evidence:\n"@ + join_spec(changed[job].completion_evidence, "\n"@);
        let text = outcome.completions[0].output_preview;
        reveal_strlit("Watchdog evidence:\n");
        assert(text.subrange(0, told.len() as int) =~= told);
    }
}

} // verus!
