//! What holds of every sweep over the background tasks.

use vstd::prelude::*;

use crate::background::manager::{
    after_finalize, after_orphan, after_orphans, after_publish, after_swarm, after_watches,
    ended_status, is_finalized, lost_file_step, no_outcome, orphan_step, running_step, runtime_of,
    runtime_seen, own_process, swarm_bears_on, swarm_step, swarm_still_runs, swarm_word, swept,
    watch_step, completion_of, recovered_completion, with_paragraph,
};
use crate::background::model::{
    preview_spec, CompletedView, SituationView, StampView, StatusFileView,
};
use crate::clock::Timestamp;
use crate::watch::laws::{law_requests_keep_soundness, sound, sound_record, Request};
use crate::watch::model::{ObservationView, RecordView, RuntimeState, SurroundingsView};
use crate::watch::registry::{
    after_acknowledge, after_check_claim, after_check_finish, after_delivery_claim,
    after_reconcile, Registry, DELIVERY_LEASE_SECS,
};

verus! {

// ---------------------------------------------------------------------------
// Soundness
// ---------------------------------------------------------------------------

pub(crate) proof fn lemma_reconcile_sound(
    reg: Registry,
    job: Seq<char>,
    obs: ObservationView,
    around: SurroundingsView,
    event_id: Seq<char>,
)
    requires
        sound(reg),
    ensures
        sound(after_reconcile(reg, job, obs, around, event_id).0),
{
    law_requests_keep_soundness(
        reg,
        Request::Reconcile { job, obs, around, event_id },
        after_reconcile(reg, job, obs, around, event_id).0,
    );
}

pub(crate) proof fn lemma_claim_sound(
    reg: Registry,
    job: Seq<char>,
    claimant: Seq<char>,
    now: Timestamp,
    lease_id: Seq<char>,
)
    requires
        sound(reg),
    ensures
        sound(after_check_claim(reg, job, claimant, now, lease_id).0),
{
    law_requests_keep_soundness(
        reg,
        Request::ClaimCheck { job, claimant, now, lease_id },
        after_check_claim(reg, job, claimant, now, lease_id).0,
    );
}

pub(crate) proof fn lemma_finish_sound(reg: Registry, job: Seq<char>, lease_id: Seq<char>, now: Timestamp)
    requires
        sound(reg),
    ensures
        sound(after_check_finish(reg, job, lease_id, now).0),
{
    law_requests_keep_soundness(
        reg,
        Request::FinishCheck { job, lease_id, now },
        after_check_finish(reg, job, lease_id, now).0,
    );
}

pub(crate) proof fn lemma_publish_sound(
    reg: Registry,
    event: CompletedView,
    around: SurroundingsView,
    now: Timestamp,
    event_id: Seq<char>,
)
    requires
        sound(reg),
    ensures
        sound(after_publish(reg, event, around, now, event_id).0),
{
    let obs = ObservationView {
        runtime_state: runtime_of(event.status),
        process_running: None,
        swarm_status: swarm_word(event.tool_name, "terminal"@),
        retries_exhausted: true,
        observed_at: now,
    };
    lemma_reconcile_sound(reg, event.task_id, obs, around, event_id);
    let seen = after_reconcile(reg, event.task_id, obs, around, event_id).0;
    let claimed = after_delivery_claim(seen, event.task_id, "background-task-manager"@, now).0;
    law_requests_keep_soundness(
        seen,
        Request::ClaimDelivery {
            job: event.task_id,
            claimant: "background-task-manager"@,
            now,
        },
        claimed,
    );
}

pub(crate) proof fn lemma_orphan_sound(
    reg: Registry,
    status: StatusFileView,
    sit: SituationView,
    this_pid: u32,
    this_instance: Seq<char>,
    stamp: StampView,
)
    requires
        sound(reg),
    ensures
        sound(after_orphan(reg, status, sit, this_pid, this_instance, stamp).0),
{
    let obs = ObservationView {
        runtime_state: RuntimeState::OwnershipLost,
        process_running: Some(false),
        swarm_status: swarm_word(status.tool_name, "ownership_lost"@),
        retries_exhausted: false,
        observed_at: stamp.now,
    };
    lemma_reconcile_sound(reg, status.task_id, obs, sit.around, stamp.event_id);
    let (seen, ended) = after_finalize(reg, status, sit.around, stamp.now, stamp.event_id);
    lemma_publish_sound(
        seen,
        completion_of(ended, preview_spec(sit.output), sit.output_file),
        sit.around,
        stamp.now,
        stamp.event_id,
    );
}

/// The sweep over the status files keeps the registry of watches sound.
pub proof fn law_orphan_sweeps_keep_soundness(
    reg: Registry,
    sits: Seq<SituationView>,
    this_pid: u32,
    this_instance: Seq<char>,
    stamps: Seq<StampView>,
)
    requires
        sound(reg),
    ensures
        sound(after_orphans(reg, sits, this_pid, this_instance, stamps).0),
    decreases sits.len(),
{
    if sits.len() > 0 {
        law_orphan_sweeps_keep_soundness(reg, sits.drop_last(), this_pid, this_instance, stamps);
        let before = after_orphans(reg, sits.drop_last(), this_pid, this_instance, stamps).0;
        let sit = sits.last();
        if let Some(status) = sit.status {
            lemma_orphan_sound(
                before,
                status,
                sit,
                this_pid,
                this_instance,
                stamps[sits.len() - 1],
            );
        }
    }
}

proof fn lemma_swarm_sound(
    reg: Registry,
    record: RecordView,
    sit: SituationView,
    owner: Seq<char>,
    runtime: RuntimeState,
    swarm_status: Seq<char>,
    stamp: StampView,
)
    requires
        sound(reg),
    ensures
        sound(swarm_step(reg, record, sit, owner, runtime, swarm_status, stamp).0),
{
    if swarm_bears_on(record, sit, owner) {
        let status = sit.status->0;
        let job = record.job_id;
        let (held, lease) = after_check_claim(
            reg,
            job,
            "swarm-plan-watchdog"@,
            stamp.now,
            stamp.lease_id,
        );
        lemma_claim_sound(reg, job, "swarm-plan-watchdog"@, stamp.now, stamp.lease_id);
        if let Ok(Some(lease)) = lease {
            let obs = ObservationView {
                runtime_state: runtime,
                process_running: own_process(status, sit.pid_running),
                swarm_status: Some(swarm_status),
                retries_exhausted: runtime is Failed,
                observed_at: stamp.now,
            };
            lemma_reconcile_sound(held, job, obs, sit.around, stamp.event_id);
            let (seen, answer) = after_reconcile(held, job, obs, sit.around, stamp.event_id);
            lemma_finish_sound(seen, job, lease.lease_id, stamp.now);
            let freed = after_check_finish(seen, job, lease.lease_id, stamp.now).0;
            if let Ok(after) = answer {
                let ended = ended_status(
                    status,
                    after.status is Completed,
                    "Swarm plan reconciled as "@ + swarm_status,
                    stamp.now,
                );
                let text = with_paragraph(
                    preview_spec(sit.output),
                    "Swarm watchdog: "@ + swarm_status,
                );
                lemma_publish_sound(
                    freed,
                    completion_of(ended, text, sit.output_file),
                    sit.around,
                    stamp.now,
                    stamp.event_id,
                );
            }
        }
    }
}

/// Reconciliation with a swarm plan keeps the registry of watches sound.
pub proof fn law_swarm_sweeps_keep_soundness(
    reg: Registry,
    tasks: Seq<(RecordView, SituationView)>,
    owner: Seq<char>,
    runtime: RuntimeState,
    swarm_status: Seq<char>,
    stamps: Seq<StampView>,
)
    requires
        sound(reg),
    ensures
        sound(after_swarm(reg, tasks, owner, runtime, swarm_status, stamps).0),
    decreases tasks.len(),
{
    if tasks.len() > 0 {
        let rest = tasks.drop_last();
        law_swarm_sweeps_keep_soundness(reg, rest, owner, runtime, swarm_status, stamps);
        lemma_swarm_sound(
            after_swarm(reg, rest, owner, runtime, swarm_status, stamps).0,
            tasks.last().0,
            tasks.last().1,
            owner,
            runtime,
            swarm_status,
            stamps[tasks.len() - 1],
        );
    }
}

proof fn lemma_lost_file_sound(
    reg: Registry,
    record: RecordView,
    sit: SituationView,
    stamp: StampView,
)
    requires
        sound(reg),
    ensures
        sound(lost_file_step(reg, record, sit, stamp).0),
{
    let job = record.job_id;
    if record.status.terminal() {
        lemma_publish_sound(
            reg,
            recovered_completion(
                record,
                "Recovered terminal orchestration watch pending delivery."@,
                sit.output_file,
            ),
            sit.around,
            stamp.now,
            stamp.event_id,
        );
    } else {
        let (held, lease) = after_check_claim(
            reg,
            job,
            "background-watchdog"@,
            stamp.now,
            stamp.lease_id,
        );
        lemma_claim_sound(reg, job, "background-watchdog"@, stamp.now, stamp.lease_id);
        if let Ok(Some(lease)) = lease {
            let obs = ObservationView {
                runtime_state: RuntimeState::Unknown,
                process_running: None,
                swarm_status: None,
                retries_exhausted: false,
                observed_at: stamp.now,
            };
            lemma_reconcile_sound(held, job, obs, sit.around, stamp.event_id);
            let (seen, answer) = after_reconcile(held, job, obs, sit.around, stamp.event_id);
            lemma_finish_sound(seen, job, lease.lease_id, stamp.now);
            let freed = after_check_finish(seen, job, lease.lease_id, stamp.now).0;
            if let Ok(now_seen) = answer {
                lemma_publish_sound(
                    freed,
                    recovered_completion(
                        now_seen,
                        "Watchdog reached a terminal state after the original status file was lost."@,
                        sit.output_file,
                    ),
                    sit.around,
                    stamp.now,
                    stamp.event_id,
                );
            }
        }
    }
}

proof fn lemma_running_sound(
    reg: Registry,
    job: Seq<char>,
    status: StatusFileView,
    sit: SituationView,
    this_pid: u32,
    this_instance: Seq<char>,
    stamp: StampView,
)
    requires
        sound(reg),
    ensures
        sound(running_step(reg, job, status, sit, this_pid, this_instance, stamp).0),
{
    let (held, lease) = after_check_claim(
        reg,
        job,
        "background-watchdog"@,
        stamp.now,
        stamp.lease_id,
    );
    lemma_claim_sound(reg, job, "background-watchdog"@, stamp.now, stamp.lease_id);
    if let Ok(Some(lease)) = lease {
        let obs = ObservationView {
            runtime_state: runtime_seen(status, sit, this_pid, this_instance),
            process_running: own_process(status, sit.pid_running),
            swarm_status: swarm_word(status.tool_name, "running"@),
            retries_exhausted: false,
            observed_at: stamp.now,
        };
        lemma_reconcile_sound(held, job, obs, sit.around, stamp.event_id);
        lemma_finish_sound(
            after_reconcile(held, job, obs, sit.around, stamp.event_id).0,
            job,
            lease.lease_id,
            stamp.now,
        );
    }
}

pub(crate) proof fn lemma_watch_sound(
    reg: Registry,
    record: RecordView,
    sit: SituationView,
    this_pid: u32,
    this_instance: Seq<char>,
    stamp: StampView,
)
    requires
        sound(reg),
    ensures
        sound(watch_step(reg, record, sit, this_pid, this_instance, stamp).0),
{
    match sit.status {
        None => lemma_lost_file_sound(reg, record, sit, stamp),
        Some(found) => {
            lemma_orphan_sound(reg, found, sit, this_pid, this_instance, stamp);
            let (seen, status, first) = after_orphan(
                reg,
                found,
                sit,
                this_pid,
                this_instance,
                stamp,
            );
            lemma_running_sound(
                seen,
                record.job_id,
                status,
                sit,
                this_pid,
                this_instance,
                stamp,
            );
            lemma_publish_sound(
                seen,
                completion_of(status, preview_spec(sit.output), sit.output_file),
                sit.around,
                stamp.now,
                stamp.event_id,
            );
        },
    }
}

/// The sweep over the watches, with its cleanup, keeps the registry sound.
pub proof fn law_watch_sweeps_keep_soundness(
    reg: Registry,
    tasks: Seq<(RecordView, SituationView)>,
    this_pid: u32,
    this_instance: Seq<char>,
    stamps: Seq<StampView>,
    swept_at: Timestamp,
)
    requires
        sound(reg),
    ensures
        sound(after_watches(reg, tasks, this_pid, this_instance, stamps).0),
        sound(swept(after_watches(reg, tasks, this_pid, this_instance, stamps).0, swept_at)),
    decreases tasks.len(),
{
    let done = after_watches(reg, tasks, this_pid, this_instance, stamps).0;
    if tasks.len() > 0 {
        let rest = tasks.drop_last();
        law_watch_sweeps_keep_soundness(reg, rest, this_pid, this_instance, stamps, swept_at);
        lemma_watch_sound(
            after_watches(reg, rest, this_pid, this_instance, stamps).0,
            tasks.last().0,
            tasks.last().1,
            this_pid,
            this_instance,
            stamps[tasks.len() - 1],
        );
    }
    if let Some(cutoff) = swept_at.plus_spec(-crate::background::manager::WEEK_SECS) {
        law_requests_keep_soundness(done, Request::Cleanup { cutoff }, swept(done, swept_at));
    }
}

// ---------------------------------------------------------------------------
// Publishing
// ---------------------------------------------------------------------------

/// The end of a watched task is published once: while the first notification is
/// being delivered, and for ever once it is acknowledged, the same task
/// publishes nothing more.
pub proof fn law_completions_are_published_once(
    reg: Registry,
    event: CompletedView,
    around: SurroundingsView,
    now: Timestamp,
    event_id: Seq<char>,
    again: CompletedView,
    later_around: SurroundingsView,
    later: Timestamp,
    later_id: Seq<char>,
    acknowledged_at: Timestamp,
)
    requires
        sound(reg),
        reg.dom().contains(event.task_id),
        now.plus_spec(DELIVERY_LEASE_SECS as int) is Some,
        after_publish(reg, event, around, now, event_id).0[event.task_id].status.terminal(),
        again.task_id == event.task_id,
    ensures
        ({
            let once = after_publish(reg, event, around, now, event_id).0;
            &&& later.before(now.plus_spec(DELIVERY_LEASE_SECS as int)->0)
                && after_publish(reg, event, around, now, event_id).1 is Some ==> after_publish(
                once,
                again,
                later_around,
                later,
                later_id,
            ) == (once, None::<CompletedView>)
            &&& after_publish(reg, event, around, now, event_id).1 is Some ==> {
                let (done, acknowledged) = after_acknowledge(once, event.task_id, acknowledged_at);
                &&& acknowledged
                &&& after_publish(done, again, later_around, later, later_id) == (
                    done,
                    None::<CompletedView>,
                )
            }
        }),
{
    let obs = ObservationView {
        runtime_state: runtime_of(event.status),
        process_running: None,
        swarm_status: swarm_word(event.tool_name, "terminal"@),
        retries_exhausted: true,
        observed_at: now,
    };
    lemma_reconcile_sound(reg, event.task_id, obs, around, event_id);
    let (seen, answer) = after_reconcile(reg, event.task_id, obs, around, event_id);
    assert(seen.dom().contains(event.task_id));
    assert(sound_record(seen[event.task_id]));
}

/// What is told of a task's end is never less than what its watch shows: a
/// watch that found evidence of completion makes it a completed one.
pub proof fn law_evidence_is_told(
    reg: Registry,
    event: CompletedView,
    around: SurroundingsView,
    now: Timestamp,
    event_id: Seq<char>,
)
    requires
        reg.dom().contains(event.task_id),
        after_publish(reg, event, around, now, event_id).1 is Some,
        after_publish(reg, event, around, now, event_id).0[event.task_id].status is Completed,
    ensures
        after_publish(reg, event, around, now, event_id).1->0.status is Completed,
        after_publish(reg, event, around, now, event_id).1->0.task_id == event.task_id,
{
}

// ---------------------------------------------------------------------------
// Orphans
// ---------------------------------------------------------------------------

/// A status file that is detached, has a process of its own, names no owner, or
/// belongs to this instance is left alone, and so is a task that this process
/// runs.
pub proof fn law_other_tasks_are_left_alone(
    reg: Registry,
    status: StatusFileView,
    sit: SituationView,
    this_pid: u32,
    this_instance: Seq<char>,
    stamp: StampView,
)
    requires
        sit.status == Some(status),
        status.detached || status.pid is Some || status.owner_pid is None || status.owner_instance
            == Some(this_instance) || sit.live,
    ensures
        orphan_step(reg, sit, this_pid, this_instance, stamp) == (reg, no_outcome()),
{
}

/// A swarm task whose watch was last seen running keeps its status file, though
/// its driver is gone.
pub proof fn law_running_swarms_are_preserved(
    reg: Registry,
    status: StatusFileView,
    sit: SituationView,
    this_pid: u32,
    this_instance: Seq<char>,
    stamp: StampView,
)
    requires
        status.tool_name == "swarm"@,
        swarm_still_runs(reg, status.task_id),
    ensures
        after_orphan(reg, status, sit, this_pid, this_instance, stamp) == (
            reg,
            status,
            no_outcome(),
        ),
{
}

/// An orphan is given up once: its status file then tells an end, and the next
/// sweep leaves it alone.
pub proof fn law_orphans_are_given_up_once(
    reg: Registry,
    status: StatusFileView,
    sit: SituationView,
    this_pid: u32,
    this_instance: Seq<char>,
    stamp: StampView,
    later: SituationView,
    later_reg: Registry,
    later_stamp: StampView,
)
    requires
        is_finalized(reg, status, this_pid, this_instance, sit.owner_running, sit.live),
        later.status == Some(
            after_orphan(reg, status, sit, this_pid, this_instance, stamp).1,
        ),
    ensures
        !(after_orphan(reg, status, sit, this_pid, this_instance, stamp).1.status is Running),
        orphan_step(later_reg, later, this_pid, this_instance, later_stamp) == (
            later_reg,
            no_outcome(),
        ),
{
}

/// An orphan counts exactly where its status file is rewritten, and the file
/// then tells an end.
pub proof fn law_counted_orphans_are_ended(
    reg: Registry,
    sit: SituationView,
    this_pid: u32,
    this_instance: Seq<char>,
    stamp: StampView,
)
    ensures
        ({
            let outcome = orphan_step(reg, sit, this_pid, this_instance, stamp).1;
            &&& outcome.counted <==> outcome.status is Some
            &&& outcome.counted ==> sit.status->0.status is Running && !(
            outcome.status->0.status is Running)
            &&& outcome.counted <==> sit.status is Some && is_finalized(
                reg,
                sit.status->0,
                this_pid,
                this_instance,
                sit.owner_running,
                sit.live,
            )
        }),
{
}

/// A sweep answers for each task, in order.
pub proof fn law_sweeps_answer_for_each_task(
    reg: Registry,
    sits: Seq<SituationView>,
    tasks: Seq<(RecordView, SituationView)>,
    owner: Seq<char>,
    runtime: RuntimeState,
    swarm_status: Seq<char>,
    this_pid: u32,
    this_instance: Seq<char>,
    stamps: Seq<StampView>,
)
    ensures
        after_orphans(reg, sits, this_pid, this_instance, stamps).1.len() == sits.len(),
        after_watches(reg, tasks, this_pid, this_instance, stamps).1.len() == tasks.len(),
        after_swarm(reg, tasks, owner, runtime, swarm_status, stamps).1.len() == tasks.len(),
    decreases sits.len() + tasks.len(),
{
    if sits.len() > 0 {
        law_sweeps_answer_for_each_task(
            reg,
            sits.drop_last(),
            tasks,
            owner,
            runtime,
            swarm_status,
            this_pid,
            this_instance,
            stamps,
        );
    }
    if tasks.len() > 0 {
        law_sweeps_answer_for_each_task(
            reg,
            sits,
            tasks.drop_last(),
            owner,
            runtime,
            swarm_status,
            this_pid,
            this_instance,
            stamps,
        );
    }
}

} // verus!
