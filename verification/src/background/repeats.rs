//! What holds of several sweeps over the watches, one after another.

use vstd::prelude::*;

use crate::background::laws::{
    law_watch_sweeps_keep_soundness, lemma_claim_sound, lemma_finish_sound, lemma_orphan_sound,
    lemma_publish_sound, lemma_reconcile_sound, lemma_watch_sound,
};
use crate::background::manager::{
    after_finalize, after_orphan, after_publish, after_watches, completion_of, is_finalized,
    listed, lost_file_step, own_process, recovered_completion, running_step, runtime_of,
    runtime_seen, swarm_word, swept, watch_step,
};
use crate::background::model::{
    preview_spec, CompletedView, OutcomeView, SituationView, StampView, StatusFileView,
};
use crate::clock::{signed_secs_spec, Timestamp};
use crate::watch::laws::{sound, sound_record};
use crate::watch::model::{
    ErrorView, LeaseView, ObservationView, RecordView, RuntimeState, SurroundingsView,
};
use crate::watch::registry::{
    after_check_claim, after_check_finish, after_delivery_claim, after_reconcile, check_is_free,
    delivery_is_free, Registry, DELIVERY_LEASE_SECS,
};
use crate::watch::transition::backoff_spec;

verus! {

// ---------------------------------------------------------------------------
// Sweeps
// ---------------------------------------------------------------------------

/// One sweep over the watches: the watches that it listed, each with the
/// situation of its task, the process that makes it, the stamp of each step,
/// and the time of its cleanup.
pub ghost struct Sweep {
    pub tasks: Seq<(RecordView, SituationView)>,
    pub this_pid: u32,
    pub this_instance: Seq<char>,
    pub stamps: Seq<StampView>,
    pub swept_at: Timestamp,
}

/// The registry after a sweep with its cleanup, and what the sweep answers.
pub open spec fn after_sweep(reg: Registry, sweep: Sweep) -> (Registry, Seq<OutcomeView>) {
    let (done, outcomes) = after_watches(
        reg,
        sweep.tasks,
        sweep.this_pid,
        sweep.this_instance,
        sweep.stamps,
    );
    (swept(done, sweep.swept_at), outcomes)
}

/// The registry after all sweeps, and what they answer together.
pub open spec fn after_sweeps(reg: Registry, sweeps: Seq<Sweep>) -> (Registry, Seq<OutcomeView>)
    decreases sweeps.len(),
{
    if sweeps.len() == 0 {
        (reg, Seq::empty())
    } else {
        let (before, outcomes) = after_sweeps(reg, sweeps.drop_last());
        let (after, more) = after_sweep(before, sweeps.last());
        (after, outcomes + more)
    }
}

/// Whether these tasks are tasks of watches in the registry, and each status
/// file is that of its task. What was listed of a watch may be out of date.
pub open spec fn are_watched(reg: Registry, tasks: Seq<(RecordView, SituationView)>) -> bool {
    forall|i: int|
        0 <= i < tasks.len() ==> is_watched(reg, (#[trigger] tasks[i]).0, tasks[i].1)
}

pub open spec fn is_watched(reg: Registry, record: RecordView, sit: SituationView) -> bool {
    &&& reg.dom().contains(record.job_id)
    &&& sit.status matches Some(status) ==> status.task_id == record.job_id
}

/// Whether every sweep is over watches that are in the registry when it begins,
/// with one stamp for each, at one of these times.
pub open spec fn are_sweeps(reg: Registry, sweeps: Seq<Sweep>, times: Set<Timestamp>) -> bool
    decreases sweeps.len(),
{
    sweeps.len() > 0 ==> {
        let last = sweeps.last();
        &&& are_sweeps(reg, sweeps.drop_last(), times)
        &&& are_watched(after_sweeps(reg, sweeps.drop_last()).0, last.tasks)
        &&& last.stamps.len() == last.tasks.len()
        &&& are_at(last.stamps, times)
    }
}

pub open spec fn are_at(stamps: Seq<StampView>, times: Set<Timestamp>) -> bool {
    forall|i: int| 0 <= i < stamps.len() ==> times.contains((#[trigger] stamps[i]).now)
}

/// Whether no two of these times are so many seconds apart.
pub open spec fn all_within(times: Set<Timestamp>, secs: int) -> bool {
    forall|a: Timestamp, b: Timestamp| #[trigger]
        times.contains(a) && #[trigger] times.contains(b) ==> comes_within(a, b, secs)
}

/// Whether an instant comes before so many seconds have passed since another.
pub open spec fn comes_within(start: Timestamp, then: Timestamp, secs: int) -> bool {
    start.plus_spec(secs) is Some && then.before(start.plus_spec(secs)->0)
}

pub open spec fn one_if(b: bool) -> nat {
    if b {
        1
    } else {
        0
    }
}

// ---------------------------------------------------------------------------
// Publications
// ---------------------------------------------------------------------------

/// How many of these completions are of this job.
pub open spec fn told_of(completions: Seq<CompletedView>, job: Seq<char>) -> nat
    decreases completions.len(),
{
    if completions.len() == 0 {
        0
    } else {
        told_of(completions.drop_last(), job) + one_if(completions.last().task_id == job)
    }
}

/// How often the outcomes publish the end of this job.
pub open spec fn published(outcomes: Seq<OutcomeView>, job: Seq<char>) -> nat
    decreases outcomes.len(),
{
    if outcomes.len() == 0 {
        0
    } else {
        published(outcomes.drop_last(), job) + told_of(outcomes.last().completions, job)
    }
}

proof fn lemma_told_of_both(a: Seq<CompletedView>, b: Seq<CompletedView>, job: Seq<char>)
    ensures
        told_of(a + b, job) == told_of(a, job) + told_of(b, job),
    decreases b.len(),
{
    if b.len() == 0 {
        assert(a + b =~= a);
    } else {
        lemma_told_of_both(a, b.drop_last(), job);
        assert((a + b).drop_last() =~= a + b.drop_last());
    }
}

proof fn lemma_told_of_listed(event: Option<CompletedView>, job: Seq<char>)
    ensures
        told_of(listed(event), job) == one_if(event is Some && event->0.task_id == job),
{
    reveal_with_fuel(told_of, 2);
    if let Some(one) = event {
        assert(listed(event).drop_last() =~= Seq::<CompletedView>::empty());
    }
}

proof fn lemma_published_both(a: Seq<OutcomeView>, b: Seq<OutcomeView>, job: Seq<char>)
    ensures
        published(a + b, job) == published(a, job) + published(b, job),
    decreases b.len(),
{
    if b.len() == 0 {
        assert(a + b =~= a);
    } else {
        lemma_published_both(a, b.drop_last(), job);
        assert((a + b).drop_last() =~= a + b.drop_last());
    }
}

/// Whether nobody gets the notification of this job at any of these times: the
/// job is not watched any more, or its notification is delivered, or claimed
/// for longer.
pub open spec fn is_taken(reg: Registry, job: Seq<char>, times: Set<Timestamp>) -> bool {
    reg.dom().contains(job) ==> {
        &&& reg[job].status.terminal()
        &&& reg[job].terminal_delivery is Some
        &&& forall|t: Timestamp| #[trigger]
            times.contains(t) ==> !delivery_is_free(reg[job].terminal_delivery->0.state, t)
    }
}

/// A registry that watches the same jobs, in which a notification that was
/// taken stays taken.
spec fn keeps_taken(reg: Registry, after: Registry, times: Set<Timestamp>) -> bool {
    &&& after.dom() == reg.dom()
    &&& forall|job: Seq<char>| #[trigger]
        is_taken(reg, job, times) ==> is_taken(after, job, times)
}

proof fn lemma_reconcile_keeps(
    reg: Registry,
    job: Seq<char>,
    obs: ObservationView,
    around: SurroundingsView,
    event_id: Seq<char>,
    times: Set<Timestamp>,
)
    ensures
        keeps_taken(reg, after_reconcile(reg, job, obs, around, event_id).0, times),
{
    let after = after_reconcile(reg, job, obs, around, event_id).0;
    assert(after.dom() =~= reg.dom());
    assert forall|j: Seq<char>| #[trigger] is_taken(reg, j, times) implies is_taken(
        after,
        j,
        times,
    ) by {
        if j != job && reg.dom().contains(j) {
            assert(after[j] == reg[j]);
        }
    }
}

proof fn lemma_check_keeps(
    reg: Registry,
    job: Seq<char>,
    claimant: Seq<char>,
    now: Timestamp,
    lease_id: Seq<char>,
    times: Set<Timestamp>,
)
    ensures
        keeps_taken(reg, after_check_claim(reg, job, claimant, now, lease_id).0, times),
        keeps_taken(reg, after_check_finish(reg, job, lease_id, now).0, times),
{
    let held = after_check_claim(reg, job, claimant, now, lease_id).0;
    let freed = after_check_finish(reg, job, lease_id, now).0;
    assert(held.dom() =~= reg.dom());
    assert(freed.dom() =~= reg.dom());
    assert forall|j: Seq<char>| #[trigger] is_taken(reg, j, times) implies is_taken(
        held,
        j,
        times,
    ) && is_taken(freed, j, times) by {
        if j != job && reg.dom().contains(j) {
            assert(held[j] == reg[j] && freed[j] == reg[j]);
        }
    }
}

/// A publication takes the notification that it hands out, and nothing is
/// published where it was taken.
proof fn lemma_publish_once(
    reg: Registry,
    event: CompletedView,
    around: SurroundingsView,
    now: Timestamp,
    event_id: Seq<char>,
    times: Set<Timestamp>,
    job: Seq<char>,
)
    requires
        sound(reg),
        reg.dom().contains(event.task_id),
        !(event.status is Running),
        times.contains(now),
        all_within(times, DELIVERY_LEASE_SECS as int),
    ensures
        ({
            let (after, told) = after_publish(reg, event, around, now, event_id);
            &&& sound(after)
            &&& keeps_taken(reg, after, times)
            &&& told_of(listed(told), job) + one_if(is_taken(reg, job, times)) <= one_if(
                is_taken(after, job, times),
            )
        }),
{
    let obs = ObservationView {
        runtime_state: runtime_of(event.status),
        process_running: None,
        swarm_status: swarm_word(event.tool_name, "terminal"@),
        retries_exhausted: true,
        observed_at: now,
    };
    let id = event.task_id;
    lemma_publish_sound(reg, event, around, now, event_id);
    lemma_reconcile_sound(reg, id, obs, around, event_id);
    lemma_reconcile_keeps(reg, id, obs, around, event_id, times);
    let (seen, answer) = after_reconcile(reg, id, obs, around, event_id);
    let (after, told) = after_publish(reg, event, around, now, event_id);
    lemma_told_of_listed(told, job);
    assert(sound_record(reg[id]));
    assert(answer is Ok);
    assert(comes_within(now, now, DELIVERY_LEASE_SECS as int));
    let claim = after_delivery_claim(seen, id, "background-task-manager"@, now);
    assert(after == claim.0);
    assert(seen.dom().contains(id));
    assert(sound_record(seen[id]));
    assert(seen[id].status.terminal());
    assert(after.dom() =~= seen.dom());
    if told is Some {
        assert(delivery_is_free(seen[id].terminal_delivery->0.state, now));
        assert(!is_taken(reg, id, times));
        assert forall|t: Timestamp| #[trigger] times.contains(t) implies !delivery_is_free(
            after[id].terminal_delivery->0.state,
            t,
        ) by {
            assert(comes_within(now, t, DELIVERY_LEASE_SECS as int));
        }
        assert(is_taken(after, id, times));
    } else {
        assert(after == seen);
    }
    assert forall|j: Seq<char>| #[trigger] is_taken(reg, j, times) implies is_taken(
        after,
        j,
        times,
    ) by {
        if j != id && reg.dom().contains(j) {
            assert(after[j] == seen[j]);
        }
        assert(is_taken(seen, j, times));
    }
}

proof fn lemma_orphan_once(
    reg: Registry,
    status: StatusFileView,
    sit: SituationView,
    this_pid: u32,
    this_instance: Seq<char>,
    stamp: StampView,
    times: Set<Timestamp>,
    job: Seq<char>,
)
    requires
        sound(reg),
        reg.dom().contains(status.task_id),
        times.contains(stamp.now),
        all_within(times, DELIVERY_LEASE_SECS as int),
    ensures
        ({
            let (after, ended, outcome) = after_orphan(
                reg,
                status,
                sit,
                this_pid,
                this_instance,
                stamp,
            );
            &&& sound(after)
            &&& keeps_taken(reg, after, times)
            &&& ended.task_id == status.task_id
            &&& told_of(outcome.completions, job) + one_if(is_taken(reg, job, times)) <= one_if(
                is_taken(after, job, times),
            )
        }),
{
    lemma_orphan_sound(reg, status, sit, this_pid, this_instance, stamp);
    if is_finalized(reg, status, this_pid, this_instance, sit.owner_running, sit.live) {
        let obs = ObservationView {
            runtime_state: RuntimeState::OwnershipLost,
            process_running: Some(false),
            swarm_status: swarm_word(status.tool_name, "ownership_lost"@),
            retries_exhausted: false,
            observed_at: stamp.now,
        };
        lemma_reconcile_sound(reg, status.task_id, obs, sit.around, stamp.event_id);
        lemma_reconcile_keeps(reg, status.task_id, obs, sit.around, stamp.event_id, times);
        let (seen, ended) = after_finalize(reg, status, sit.around, stamp.now, stamp.event_id);
        lemma_publish_once(
            seen,
            completion_of(ended, preview_spec(sit.output), sit.output_file),
            sit.around,
            stamp.now,
            stamp.event_id,
            times,
            job,
        );
    }
}

proof fn lemma_lost_file_once(
    reg: Registry,
    record: RecordView,
    sit: SituationView,
    stamp: StampView,
    times: Set<Timestamp>,
    job: Seq<char>,
)
    requires
        sound(reg),
        reg.dom().contains(record.job_id),
        times.contains(stamp.now),
        all_within(times, DELIVERY_LEASE_SECS as int),
    ensures
        ({
            let (after, outcome) = lost_file_step(reg, record, sit, stamp);
            &&& keeps_taken(reg, after, times)
            &&& told_of(outcome.completions, job) + one_if(is_taken(reg, job, times)) <= one_if(
                is_taken(after, job, times),
            )
        }),
{
    let id = record.job_id;
    if record.status.terminal() {
        lemma_publish_once(
            reg,
            recovered_completion(
                record,
                "Recovered terminal orchestration watch pending delivery."@,
                sit.output_file,
            ),
            sit.around,
            stamp.now,
            stamp.event_id,
            times,
            job,
        );
    } else {
        let (held, lease) = after_check_claim(
            reg,
            id,
            "background-watchdog"@,
            stamp.now,
            stamp.lease_id,
        );
        lemma_claim_sound(reg, id, "background-watchdog"@, stamp.now, stamp.lease_id);
        lemma_check_keeps(reg, id, "background-watchdog"@, stamp.now, stamp.lease_id, times);
        if let Ok(Some(lease)) = lease {
            let obs = ObservationView {
                runtime_state: RuntimeState::Unknown,
                process_running: None,
                swarm_status: None,
                retries_exhausted: false,
                observed_at: stamp.now,
            };
            lemma_reconcile_sound(held, id, obs, sit.around, stamp.event_id);
            lemma_reconcile_keeps(held, id, obs, sit.around, stamp.event_id, times);
            let (seen, answer) = after_reconcile(held, id, obs, sit.around, stamp.event_id);
            lemma_finish_sound(seen, id, lease.lease_id, stamp.now);
            lemma_check_keeps(seen, id, "background-watchdog"@, stamp.now, lease.lease_id, times);
            let freed = after_check_finish(seen, id, lease.lease_id, stamp.now).0;
            assert(keeps_taken(reg, freed, times));
            if let Ok(now_seen) = answer {
                if now_seen.status.terminal() {
                    assert(seen.dom().contains(id) && seen[id] == now_seen);
                    assert(now_seen.job_id == id);
                    lemma_publish_once(
                        freed,
                        recovered_completion(
                            now_seen,
                            "Watchdog reached a terminal state after the original status file was lost."@,
                            sit.output_file,
                        ),
                        sit.around,
                        stamp.now,
                        stamp.event_id,
                        times,
                        job,
                    );
                }
            }
        }
    }
}

proof fn lemma_running_keeps(
    reg: Registry,
    id: Seq<char>,
    status: StatusFileView,
    sit: SituationView,
    this_pid: u32,
    this_instance: Seq<char>,
    stamp: StampView,
    times: Set<Timestamp>,
)
    ensures
        keeps_taken(
            reg,
            running_step(reg, id, status, sit, this_pid, this_instance, stamp).0,
            times,
        ),
{
    let (held, lease) = after_check_claim(
        reg,
        id,
        "background-watchdog"@,
        stamp.now,
        stamp.lease_id,
    );
    lemma_check_keeps(reg, id, "background-watchdog"@, stamp.now, stamp.lease_id, times);
    if let Ok(Some(lease)) = lease {
        let obs = ObservationView {
            runtime_state: runtime_seen(status, sit, this_pid, this_instance),
            process_running: own_process(status, sit.pid_running),
            swarm_status: swarm_word(status.tool_name, "running"@),
            retries_exhausted: false,
            observed_at: stamp.now,
        };
        lemma_reconcile_keeps(held, id, obs, sit.around, stamp.event_id, times);
        let seen = after_reconcile(held, id, obs, sit.around, stamp.event_id).0;
        lemma_check_keeps(seen, id, "background-watchdog"@, stamp.now, lease.lease_id, times);
    }
}

proof fn lemma_watch_once(
    reg: Registry,
    record: RecordView,
    sit: SituationView,
    this_pid: u32,
    this_instance: Seq<char>,
    stamp: StampView,
    times: Set<Timestamp>,
    job: Seq<char>,
)
    requires
        sound(reg),
        is_watched(reg, record, sit),
        times.contains(stamp.now),
        all_within(times, DELIVERY_LEASE_SECS as int),
    ensures
        ({
            let (after, outcome) = watch_step(reg, record, sit, this_pid, this_instance, stamp);
            &&& sound(after)
            &&& keeps_taken(reg, after, times)
            &&& told_of(outcome.completions, job) + one_if(is_taken(reg, job, times)) <= one_if(
                is_taken(after, job, times),
            )
        }),
{
    lemma_watch_sound(reg, record, sit, this_pid, this_instance, stamp);
    match sit.status {
        None => lemma_lost_file_once(reg, record, sit, stamp, times, job),
        Some(found) => {
            lemma_orphan_once(reg, found, sit, this_pid, this_instance, stamp, times, job);
            let (seen, status, first) = after_orphan(
                reg,
                found,
                sit,
                this_pid,
                this_instance,
                stamp,
            );
            if status.status is Running {
                lemma_running_keeps(
                    seen,
                    record.job_id,
                    status,
                    sit,
                    this_pid,
                    this_instance,
                    stamp,
                    times,
                );
            } else {
                let event = completion_of(status, preview_spec(sit.output), sit.output_file);
                lemma_publish_once(
                    seen,
                    event,
                    sit.around,
                    stamp.now,
                    stamp.event_id,
                    times,
                    job,
                );
                lemma_told_of_both(
                    first.completions,
                    listed(
                        after_publish(seen, event, sit.around, stamp.now, stamp.event_id).1,
                    ),
                    job,
                );
            }
        },
    }
}

proof fn lemma_watches_once(
    reg: Registry,
    tasks: Seq<(RecordView, SituationView)>,
    this_pid: u32,
    this_instance: Seq<char>,
    stamps: Seq<StampView>,
    times: Set<Timestamp>,
    job: Seq<char>,
)
    requires
        sound(reg),
        are_watched(reg, tasks),
        tasks.len() <= stamps.len(),
        are_at(stamps, times),
        all_within(times, DELIVERY_LEASE_SECS as int),
    ensures
        ({
            let (after, outcomes) = after_watches(reg, tasks, this_pid, this_instance, stamps);
            &&& sound(after)
            &&& keeps_taken(reg, after, times)
            &&& published(outcomes, job) + one_if(is_taken(reg, job, times)) <= one_if(
                is_taken(after, job, times),
            )
        }),
    decreases tasks.len(),
{
    if tasks.len() > 0 {
        let rest = tasks.drop_last();
        assert(are_watched(reg, rest)) by {
            assert forall|i: int| 0 <= i < rest.len() implies is_watched(
                reg,
                (#[trigger] rest[i]).0,
                rest[i].1,
            ) by {
                assert(is_watched(reg, tasks[i].0, tasks[i].1));
            }
        }
        lemma_watches_once(reg, rest, this_pid, this_instance, stamps, times, job);
        let (before, outcomes) = after_watches(reg, rest, this_pid, this_instance, stamps);
        let n = tasks.len() - 1;
        assert(is_watched(reg, tasks[n].0, tasks[n].1));
        assert(times.contains(stamps[n].now));
        lemma_watch_once(
            before,
            tasks.last().0,
            tasks.last().1,
            this_pid,
            this_instance,
            stamps[n],
            times,
            job,
        );
        let outcome = watch_step(
            before,
            tasks.last().0,
            tasks.last().1,
            this_pid,
            this_instance,
            stamps[n],
        ).1;
        assert(outcomes.push(outcome).drop_last() =~= outcomes);
    }
}

proof fn lemma_sweeps_once(
    reg: Registry,
    sweeps: Seq<Sweep>,
    times: Set<Timestamp>,
    job: Seq<char>,
)
    requires
        sound(reg),
        are_sweeps(reg, sweeps, times),
        all_within(times, DELIVERY_LEASE_SECS as int),
    ensures
        sound(after_sweeps(reg, sweeps).0),
        published(after_sweeps(reg, sweeps).1, job) + one_if(is_taken(reg, job, times)) <= one_if(
            is_taken(after_sweeps(reg, sweeps).0, job, times),
        ),
    decreases sweeps.len(),
{
    if sweeps.len() > 0 {
        let last = sweeps.last();
        lemma_sweeps_once(reg, sweeps.drop_last(), times, job);
        let (before, outcomes) = after_sweeps(reg, sweeps.drop_last());
        lemma_watches_once(
            before,
            last.tasks,
            last.this_pid,
            last.this_instance,
            last.stamps,
            times,
            job,
        );
        law_watch_sweeps_keep_soundness(
            before,
            last.tasks,
            last.this_pid,
            last.this_instance,
            last.stamps,
            last.swept_at,
        );
        lemma_published_both(outcomes, after_sweep(before, last).1, job);
    }
}

/// However often the sweep over the watches runs, by whichever processes, while
/// one claim of a notification lasts: together the sweeps publish the end of a
/// watched job at most once, and not at all where its notification was
/// delivered before, or is claimed for longer.
pub proof fn law_sweeps_publish_once(
    reg: Registry,
    sweeps: Seq<Sweep>,
    times: Set<Timestamp>,
    job: Seq<char>,
)
    requires
        sound(reg),
        are_sweeps(reg, sweeps, times),
        all_within(times, DELIVERY_LEASE_SECS as int),
    ensures
        published(after_sweeps(reg, sweeps).1, job) <= 1,
        is_taken(reg, job, times) ==> published(after_sweeps(reg, sweeps).1, job) == 0,
        reg.dom().contains(job) && reg[job].terminal_delivery is Some
            && reg[job].terminal_delivery->0.state is Delivered ==> published(after_sweeps(reg, sweeps).1, job) == 0,
{
    lemma_sweeps_once(reg, sweeps, times, job);
    if reg.dom().contains(job) && reg[job].terminal_delivery is Some {
        assert(sound_record(reg[job]));
    }
}

// ---------------------------------------------------------------------------
// Checks
// ---------------------------------------------------------------------------

/// Whether the check of this job is handed out to the sweep.
pub open spec fn gets_check(reg: Registry, job: Seq<char>, stamp: StampView) -> bool {
    after_check_claim(reg, job, "background-watchdog"@, stamp.now, stamp.lease_id).1 matches Ok(
        Some(_),
    )
}

/// Whether the step of a sweep claims the check of its watch: one without a
/// status file that was listed as active, or one whose task still runs.
pub open spec fn claims_check(
    reg: Registry,
    record: RecordView,
    sit: SituationView,
    this_pid: u32,
    this_instance: Seq<char>,
    stamp: StampView,
) -> bool {
    match sit.status {
        None => !record.status.terminal() && gets_check(reg, record.job_id, stamp),
        Some(found) => {
            let (seen, status, _) = after_orphan(
                reg,
                found,
                sit,
                this_pid,
                this_instance,
                stamp,
            );
            status.status is Running && gets_check(seen, record.job_id, stamp)
        },
    }
}

/// How often a sweep over these tasks claims the check of this job.
pub open spec fn checks_of(
    reg: Registry,
    tasks: Seq<(RecordView, SituationView)>,
    this_pid: u32,
    this_instance: Seq<char>,
    stamps: Seq<StampView>,
    job: Seq<char>,
) -> nat
    decreases tasks.len(),
{
    if tasks.len() == 0 {
        0
    } else {
        let rest = tasks.drop_last();
        checks_of(reg, rest, this_pid, this_instance, stamps, job) + one_if(
            tasks.last().0.job_id == job && claims_check(
                after_watches(reg, rest, this_pid, this_instance, stamps).0,
                tasks.last().0,
                tasks.last().1,
                this_pid,
                this_instance,
                stamps[tasks.len() - 1],
            ),
        )
    }
}

/// How often all sweeps together claim the check of this job.
pub open spec fn checks_in(reg: Registry, sweeps: Seq<Sweep>, job: Seq<char>) -> nat
    decreases sweeps.len(),
{
    if sweeps.len() == 0 {
        0
    } else {
        let last = sweeps.last();
        checks_in(reg, sweeps.drop_last(), job) + checks_of(
            after_sweeps(reg, sweeps.drop_last()).0,
            last.tasks,
            last.this_pid,
            last.this_instance,
            last.stamps,
            job,
        )
    }
}

/// How many seconds after a check the next one of this watch is due.
pub open spec fn check_wait(r: RecordView) -> int {
    let wait = backoff_spec(r.retry, r.attempt);
    signed_secs_spec(
        (if wait >= 1 {
            wait
        } else {
            1
        }) as u64,
    )
}

/// Whether nobody gets the check of this job at any of these times.
pub open spec fn is_checked(reg: Registry, job: Seq<char>, times: Set<Timestamp>) -> bool {
    reg.dom().contains(job) ==> forall|t: Timestamp| #[trigger]
        times.contains(t) ==> !check_is_free(reg[job], t)
}

/// Whether the calendar holds the time at which the watch of this job goes
/// stale, and none of these times comes as late as the next check after
/// another of them.
pub open spec fn lies_before_next_check(
    reg: Registry,
    job: Seq<char>,
    times: Set<Timestamp>,
) -> bool {
    reg.dom().contains(job) ==> {
        &&& reg[job].created_at.plus_spec(reg[job].stale_after_secs as int) is Some
        &&& all_within(times, check_wait(reg[job]))
    }
}

/// A registry in which the terms of this job's watch are the same, and its
/// check is not free again.
spec fn keeps_checked(
    reg: Registry,
    after: Registry,
    job: Seq<char>,
    times: Set<Timestamp>,
) -> bool {
    &&& after.dom() == reg.dom()
    &&& lies_before_next_check(reg, job, times) ==> lies_before_next_check(after, job, times)
    &&& is_checked(reg, job, times) ==> is_checked(after, job, times)
}

/// An observation of a worker that did not fail, or whose retries are used up,
/// puts the next check behind all these times.
proof fn lemma_reconcile_checked(
    reg: Registry,
    id: Seq<char>,
    obs: ObservationView,
    around: SurroundingsView,
    event_id: Seq<char>,
    times: Set<Timestamp>,
    job: Seq<char>,
)
    requires
        sound(reg),
        lies_before_next_check(reg, job, times),
        times.contains(obs.observed_at),
        !(obs.runtime_state is Failed) || obs.retries_exhausted,
    ensures
        keeps_checked(reg, after_reconcile(reg, id, obs, around, event_id).0, job, times),
        id == job ==> is_checked(after_reconcile(reg, id, obs, around, event_id).0, job, times),
{
    let after = after_reconcile(reg, id, obs, around, event_id).0;
    assert(after.dom() =~= reg.dom());
    if reg.dom().contains(job) {
        if id != job {
            assert(after[job] == reg[job]);
        } else {
            assert(sound_record(reg[job]));
            assert forall|t: Timestamp| #[trigger] times.contains(t) implies !check_is_free(
                after[job],
                t,
            ) by {
                assert(comes_within(obs.observed_at, t, check_wait(reg[job])));
            }
        }
    }
}

proof fn lemma_publish_checked(
    reg: Registry,
    event: CompletedView,
    around: SurroundingsView,
    now: Timestamp,
    event_id: Seq<char>,
    times: Set<Timestamp>,
    job: Seq<char>,
)
    requires
        sound(reg),
        lies_before_next_check(reg, job, times),
        times.contains(now),
    ensures
        keeps_checked(reg, after_publish(reg, event, around, now, event_id).0, job, times),
{
    let obs = ObservationView {
        runtime_state: runtime_of(event.status),
        process_running: None,
        swarm_status: swarm_word(event.tool_name, "terminal"@),
        retries_exhausted: true,
        observed_at: now,
    };
    let id = event.task_id;
    lemma_reconcile_checked(reg, id, obs, around, event_id, times, job);
    let seen = after_reconcile(reg, id, obs, around, event_id).0;
    let after = after_publish(reg, event, around, now, event_id).0;
    assert(after.dom() =~= reg.dom());
    if reg.dom().contains(job) && id != job {
        assert(after[job] == seen[job]);
    }
}

proof fn lemma_orphan_checked(
    reg: Registry,
    status: StatusFileView,
    sit: SituationView,
    this_pid: u32,
    this_instance: Seq<char>,
    stamp: StampView,
    times: Set<Timestamp>,
    job: Seq<char>,
)
    requires
        sound(reg),
        lies_before_next_check(reg, job, times),
        times.contains(stamp.now),
    ensures
        keeps_checked(
            reg,
            after_orphan(reg, status, sit, this_pid, this_instance, stamp).0,
            job,
            times,
        ),
{
    if is_finalized(reg, status, this_pid, this_instance, sit.owner_running, sit.live) {
        let obs = ObservationView {
            runtime_state: RuntimeState::OwnershipLost,
            process_running: Some(false),
            swarm_status: swarm_word(status.tool_name, "ownership_lost"@),
            retries_exhausted: false,
            observed_at: stamp.now,
        };
        lemma_reconcile_sound(reg, status.task_id, obs, sit.around, stamp.event_id);
        lemma_reconcile_checked(
            reg,
            status.task_id,
            obs,
            sit.around,
            stamp.event_id,
            times,
            job,
        );
        let (seen, ended) = after_finalize(reg, status, sit.around, stamp.now, stamp.event_id);
        lemma_publish_checked(
            seen,
            completion_of(ended, preview_spec(sit.output), sit.output_file),
            sit.around,
            stamp.now,
            stamp.event_id,
            times,
            job,
        );
    }
}

/// A claimed check: the claim, the observation, and the end of the check.
proof fn lemma_check_once(
    reg: Registry,
    id: Seq<char>,
    obs: ObservationView,
    around: SurroundingsView,
    stamp: StampView,
    times: Set<Timestamp>,
    job: Seq<char>,
)
    requires
        sound(reg),
        lies_before_next_check(reg, job, times),
        times.contains(stamp.now),
        obs.observed_at == stamp.now,
        !(obs.runtime_state is Failed),
    ensures
        ({
            let (held, lease) = after_check_claim(
                reg,
                id,
                "background-watchdog"@,
                stamp.now,
                stamp.lease_id,
            );
            let seen = after_reconcile(held, id, obs, around, stamp.event_id).0;
            let freed = after_check_finish(seen, id, stamp.lease_id, stamp.now).0;
            &&& !gets_check(reg, id, stamp) ==> held == reg
            &&& gets_check(reg, id, stamp) ==> {
                &&& lease == Ok::<Option<LeaseView>, ErrorView>(Some(lease->Ok_0->0))
                &&& lease->Ok_0->0.lease_id == stamp.lease_id
                &&& sound(freed)
                &&& keeps_checked(reg, freed, job, times)
                &&& id == job ==> !is_checked(reg, job, times) && is_checked(freed, job, times)
            }
        }),
{
    let held = after_check_claim(
        reg,
        id,
        "background-watchdog"@,
        stamp.now,
        stamp.lease_id,
    ).0;
    lemma_claim_sound(reg, id, "background-watchdog"@, stamp.now, stamp.lease_id);
    if gets_check(reg, id, stamp) {
        assert(held.dom() =~= reg.dom());
        if id != job && reg.dom().contains(job) {
            assert(held[job] == reg[job]);
        }
        assert(lies_before_next_check(held, job, times));
        lemma_reconcile_sound(held, id, obs, around, stamp.event_id);
        lemma_reconcile_checked(held, id, obs, around, stamp.event_id, times, job);
        let seen = after_reconcile(held, id, obs, around, stamp.event_id).0;
        lemma_finish_sound(seen, id, stamp.lease_id, stamp.now);
        let freed = after_check_finish(seen, id, stamp.lease_id, stamp.now).0;
        assert(freed.dom() =~= seen.dom());
        if id == job {
            assert(check_is_free(reg[job], stamp.now));
            assert(sound_record(held[job]));
            assert(comes_within(stamp.now, stamp.now, check_wait(reg[job])));
            assert(seen[id].active_check is None);
        } else if reg.dom().contains(job) {
            assert(freed[job] == seen[job]);
        }
    }
}

proof fn lemma_lost_file_checked(
    reg: Registry,
    record: RecordView,
    sit: SituationView,
    stamp: StampView,
    times: Set<Timestamp>,
    job: Seq<char>,
)
    requires
        sound(reg),
        lies_before_next_check(reg, job, times),
        times.contains(stamp.now),
    ensures
        ({
            let after = lost_file_step(reg, record, sit, stamp).0;
            &&& keeps_checked(reg, after, job, times)
            &&& record.job_id == job && !record.status.terminal() && gets_check(reg, job, stamp)
                ==> !is_checked(reg, job, times) && is_checked(after, job, times)
        }),
{
    let id = record.job_id;
    if record.status.terminal() {
        lemma_publish_checked(
            reg,
            recovered_completion(
                record,
                "Recovered terminal orchestration watch pending delivery."@,
                sit.output_file,
            ),
            sit.around,
            stamp.now,
            stamp.event_id,
            times,
            job,
        );
    } else {
        let obs = ObservationView {
            runtime_state: RuntimeState::Unknown,
            process_running: None,
            swarm_status: None,
            retries_exhausted: false,
            observed_at: stamp.now,
        };
        lemma_check_once(reg, id, obs, sit.around, stamp, times, job);
        if gets_check(reg, id, stamp) {
            let held = after_check_claim(
                reg,
                id,
                "background-watchdog"@,
                stamp.now,
                stamp.lease_id,
            ).0;
            let (seen, answer) = after_reconcile(held, id, obs, sit.around, stamp.event_id);
            let freed = after_check_finish(seen, id, stamp.lease_id, stamp.now).0;
            if let Ok(now_seen) = answer {
                if now_seen.status.terminal() {
                    lemma_publish_checked(
                        freed,
                        recovered_completion(
                            now_seen,
                            "Watchdog reached a terminal state after the original status file was lost."@,
                            sit.output_file,
                        ),
                        sit.around,
                        stamp.now,
                        stamp.event_id,
                        times,
                        job,
                    );
                }
            }
        }
    }
}

proof fn lemma_watch_checked(
    reg: Registry,
    record: RecordView,
    sit: SituationView,
    this_pid: u32,
    this_instance: Seq<char>,
    stamp: StampView,
    times: Set<Timestamp>,
    job: Seq<char>,
)
    requires
        sound(reg),
        lies_before_next_check(reg, job, times),
        times.contains(stamp.now),
    ensures
        ({
            let after = watch_step(reg, record, sit, this_pid, this_instance, stamp).0;
            &&& keeps_checked(reg, after, job, times)
            &&& one_if(
                record.job_id == job && claims_check(
                    reg,
                    record,
                    sit,
                    this_pid,
                    this_instance,
                    stamp,
                ),
            ) + one_if(is_checked(reg, job, times)) <= one_if(is_checked(after, job, times))
        }),
{
    match sit.status {
        None => lemma_lost_file_checked(reg, record, sit, stamp, times, job),
        Some(found) => {
            lemma_orphan_sound(reg, found, sit, this_pid, this_instance, stamp);
            lemma_orphan_checked(reg, found, sit, this_pid, this_instance, stamp, times, job);
            let (seen, status, _) = after_orphan(
                reg,
                found,
                sit,
                this_pid,
                this_instance,
                stamp,
            );
            if status.status is Running {
                let obs = ObservationView {
                    runtime_state: runtime_seen(status, sit, this_pid, this_instance),
                    process_running: own_process(status, sit.pid_running),
                    swarm_status: swarm_word(status.tool_name, "running"@),
                    retries_exhausted: false,
                    observed_at: stamp.now,
                };
                lemma_check_once(seen, record.job_id, obs, sit.around, stamp, times, job);
            } else {
                lemma_publish_checked(
                    seen,
                    completion_of(status, preview_spec(sit.output), sit.output_file),
                    sit.around,
                    stamp.now,
                    stamp.event_id,
                    times,
                    job,
                );
            }
        },
    }
}

proof fn lemma_watches_checked(
    reg: Registry,
    tasks: Seq<(RecordView, SituationView)>,
    this_pid: u32,
    this_instance: Seq<char>,
    stamps: Seq<StampView>,
    times: Set<Timestamp>,
    job: Seq<char>,
)
    requires
        sound(reg),
        lies_before_next_check(reg, job, times),
        tasks.len() <= stamps.len(),
        are_at(stamps, times),
    ensures
        ({
            let after = after_watches(reg, tasks, this_pid, this_instance, stamps).0;
            &&& sound(after)
            &&& keeps_checked(reg, after, job, times)
            &&& checks_of(reg, tasks, this_pid, this_instance, stamps, job) + one_if(
                is_checked(reg, job, times),
            ) <= one_if(is_checked(after, job, times))
        }),
    decreases tasks.len(),
{
    if tasks.len() > 0 {
        let rest = tasks.drop_last();
        lemma_watches_checked(reg, rest, this_pid, this_instance, stamps, times, job);
        let before = after_watches(reg, rest, this_pid, this_instance, stamps).0;
        let n = tasks.len() - 1;
        assert(times.contains(stamps[n].now));
        lemma_watch_sound(
            before,
            tasks.last().0,
            tasks.last().1,
            this_pid,
            this_instance,
            stamps[n],
        );
        lemma_watch_checked(
            before,
            tasks.last().0,
            tasks.last().1,
            this_pid,
            this_instance,
            stamps[n],
            times,
            job,
        );
    }
}

proof fn lemma_sweeps_checked(
    reg: Registry,
    sweeps: Seq<Sweep>,
    times: Set<Timestamp>,
    job: Seq<char>,
)
    requires
        sound(reg),
        are_sweeps(reg, sweeps, times),
        lies_before_next_check(reg, job, times),
    ensures
        sound(after_sweeps(reg, sweeps).0),
        lies_before_next_check(after_sweeps(reg, sweeps).0, job, times),
        checks_in(reg, sweeps, job) + one_if(is_checked(reg, job, times)) <= one_if(
            is_checked(after_sweeps(reg, sweeps).0, job, times),
        ),
    decreases sweeps.len(),
{
    if sweeps.len() > 0 {
        let last = sweeps.last();
        lemma_sweeps_checked(reg, sweeps.drop_last(), times, job);
        let before = after_sweeps(reg, sweeps.drop_last()).0;
        lemma_watches_checked(
            before,
            last.tasks,
            last.this_pid,
            last.this_instance,
            last.stamps,
            times,
            job,
        );
        law_watch_sweeps_keep_soundness(
            before,
            last.tasks,
            last.this_pid,
            last.this_instance,
            last.stamps,
            last.swept_at,
        );
    }
}

/// However often the sweep over the watches runs, by whichever processes, before
/// the next check of a job comes due: together the sweeps claim its check at
/// most once, and not at all where somebody holds it or it is not due.
pub proof fn law_due_checks_are_claimed_once(
    reg: Registry,
    sweeps: Seq<Sweep>,
    times: Set<Timestamp>,
    job: Seq<char>,
)
    requires
        sound(reg),
        are_sweeps(reg, sweeps, times),
        lies_before_next_check(reg, job, times),
    ensures
        checks_in(reg, sweeps, job) <= 1,
        is_checked(reg, job, times) ==> checks_in(reg, sweeps, job) == 0,
{
    lemma_sweeps_checked(reg, sweeps, times, job);
}

} // verus!
