//! What holds of the registry whatever is asked of it.

use vstd::arithmetic::power2::{lemma_pow2_pos, lemma_pow2_strictly_increases, pow2};
use vstd::prelude::*;

use crate::clock::Timestamp;
use crate::paths::is_absolute_spec;
use crate::watch::model::{
    ClaimView, ErrorView, LeaseView, ObservationView, RecordView, RetryView, SurroundingsView,
    WatchSpecView, WatchStatus, WatchUpdateView,
};
use crate::watch::registry::{
    active_for, after_acknowledge, after_check_claim, after_check_finish, after_delivery_claim,
    after_delivery_mark, after_reconcile, after_register, after_retry_start, after_update,
    answers_register, key_taken, spec_problem, Registry, CHECK_LEASE_SECS, DELIVERY_LEASE_SECS,
};
use crate::watch::store::{expired, unexpired};
use crate::watch::transition::{
    all_evidence, backoff_spec, deadline_newly_passed, first_outside, observed,
    process_known_running, reconciled, MAX_AUDIT_EVENTS,
};

verus! {

// ---------------------------------------------------------------------------
// Requests
// ---------------------------------------------------------------------------

/// Everything that can be asked of the registry.
pub ghost enum Request {
    Register { spec: WatchSpecView, around: SurroundingsView, now: Timestamp },
    Update {
        job: Seq<char>,
        update: WatchUpdateView,
        around: SurroundingsView,
        now: Timestamp,
    },
    Reconcile {
        job: Seq<char>,
        obs: ObservationView,
        around: SurroundingsView,
        event_id: Seq<char>,
    },
    ClaimCheck { job: Seq<char>, claimant: Seq<char>, now: Timestamp, lease_id: Seq<char> },
    FinishCheck { job: Seq<char>, lease_id: Seq<char>, now: Timestamp },
    StartRetry { job: Seq<char>, process_id: Option<u32>, now: Timestamp },
    ClaimDelivery { job: Seq<char>, claimant: Seq<char>, now: Timestamp },
    MarkDelivered { job: Seq<char>, event_id: Seq<char>, now: Timestamp },
    Acknowledge { job: Seq<char>, now: Timestamp },
    Cleanup { cutoff: Timestamp },
}

/// Whether the request turns the one registry into the other.
pub open spec fn steps(reg: Registry, request: Request, after: Registry) -> bool {
    match request {
        Request::Register { spec, around, now } => after == after_register(
            reg,
            spec,
            around,
            now,
        ),
        Request::Update { job, update, around, now } => after == after_update(
            reg,
            job,
            update,
            around,
            now,
        ).0,
        Request::Reconcile { job, obs, around, event_id } => after == after_reconcile(
            reg,
            job,
            obs,
            around,
            event_id,
        ).0,
        Request::ClaimCheck { job, claimant, now, lease_id } => after == after_check_claim(
            reg,
            job,
            claimant,
            now,
            lease_id,
        ).0,
        Request::FinishCheck { job, lease_id, now } => after == after_check_finish(
            reg,
            job,
            lease_id,
            now,
        ).0,
        Request::StartRetry { job, process_id, now } => after == after_retry_start(
            reg,
            job,
            process_id,
            now,
        ).0,
        Request::ClaimDelivery { job, claimant, now } => after == after_delivery_claim(
            reg,
            job,
            claimant,
            now,
        ).0,
        Request::MarkDelivered { job, event_id, now } => after == after_delivery_mark(
            reg,
            job,
            event_id,
            now,
        ).0,
        Request::Acknowledge { job, now } => after == after_acknowledge(reg, job, now).0,
        Request::Cleanup { cutoff } => after == unexpired(reg, cutoff),
    }
}

/// The job that a request is about.
pub open spec fn subject(request: Request) -> Option<Seq<char>> {
    match request {
        Request::Register { spec, .. } => Some(spec.job_id),
        Request::Update { job, .. } => Some(job),
        Request::Reconcile { job, .. } => Some(job),
        Request::ClaimCheck { job, .. } => Some(job),
        Request::FinishCheck { job, .. } => Some(job),
        Request::StartRetry { job, .. } => Some(job),
        Request::ClaimDelivery { job, .. } => Some(job),
        Request::MarkDelivered { job, .. } => Some(job),
        Request::Acknowledge { job, .. } => Some(job),
        Request::Cleanup { .. } => None,
    }
}

// ---------------------------------------------------------------------------
// What every request keeps
// ---------------------------------------------------------------------------

/// What holds of every record that the registry itself has made.
pub open spec fn sound_record(r: RecordView) -> bool {
    &&& r.audit.len() <= MAX_AUDIT_EVENTS
    &&& is_absolute_spec(r.working_dir)
    &&& first_outside(r.expected_artifacts) is None
    &&& r.stale_after_secs >= 0
    &&& r.attempt >= 1
    &&& r.status.terminal() ==> {
        &&& r.terminal_delivery is Some
        &&& r.terminal_at is Some
        &&& r.next_check_at is None
        &&& r.active_check is None
    }
    &&& !r.status.terminal() ==> r.terminal_delivery is None && r.terminal_at is None
}

/// What holds of every registry that started empty: each record stands under
/// its own job and is sound, and no two active watches share a dedupe key.
pub open spec fn sound(reg: Registry) -> bool {
    &&& forall|id: Seq<char>| #[trigger]
        reg.dom().contains(id) ==> reg[id].job_id == id && sound_record(reg[id])
    &&& forall|a: Seq<char>, b: Seq<char>|
        #![trigger reg.dom().contains(a), reg.dom().contains(b)]
        reg.dom().contains(a) && reg.dom().contains(b) && !reg[a].status.terminal()
            && !reg[b].status.terminal() && reg[a].dedupe_key == reg[b].dedupe_key ==> a == b
}

/// What one record can turn into: its identity stays, and a terminal record
/// keeps its outcome.
pub open spec fn record_steps(r: RecordView, after: RecordView) -> bool {
    &&& after.job_id == r.job_id
    &&& after.dedupe_key == r.dedupe_key
    &&& after.owner_session_id == r.owner_session_id
    &&& after.created_at == r.created_at
    &&& r.status.terminal() ==> same_outcome(r, after)
}

/// Whether two records of one job tell of the same end.
pub open spec fn same_outcome(r: RecordView, after: RecordView) -> bool {
    &&& after.status == r.status
    &&& after.completion_evidence == r.completion_evidence
    &&& after.terminal_at == r.terminal_at
    &&& after.repository == r.repository
    &&& after.artifacts == r.artifacts
    &&& after.attempt == r.attempt
    &&& match (r.terminal_delivery, after.terminal_delivery) {
        (Some(d), Some(e)) => {
            &&& e.event_id == d.event_id
            &&& d.state is Delivered ==> e.state == d.state
        },
        (None, None) => true,
        _ => false,
    }
}

proof fn lemma_reconciled(
    r: RecordView,
    obs: ObservationView,
    around: SurroundingsView,
    event_id: Seq<char>,
)
    requires
        !r.status.terminal(),
    ensures
        reconciled(r, obs, around, event_id) matches Some(after) ==> record_steps(r, after) && (
        sound_record(r) ==> sound_record(after)),
{
}

/// A request of this kind leaves the registry as it is or puts another record
/// in the place of the one of its job.
proof fn lemma_step_of_one(reg: Registry, request: Request, after: Registry)
    requires
        steps(reg, request, after),
        !(request is Register),
        !(request is Cleanup),
    ensures
        after == reg || {
            let job = subject(request)->0;
            &&& reg.dom().contains(job)
            &&& after.dom().contains(job)
            &&& after == reg.insert(job, after[job])
            &&& record_steps(reg[job], after[job])
            &&& sound_record(reg[job]) ==> sound_record(after[job])
        },
{
    let job = subject(request)->0;
    match request {
        Request::Reconcile { job, obs, around, event_id } => {
            if reg.dom().contains(job) && !reg[job].status.terminal() {
                lemma_reconciled(reg[job], obs, around, event_id);
            }
        },
        _ => {},
    }
    if reg.dom().contains(job) && after.dom().contains(job) {
        assert(after =~= reg.insert(job, after[job]));
    }
}

/// An empty registry is sound.
pub proof fn law_empty_is_sound()
    ensures
        sound(Registry::empty()),
{
}

/// Every request keeps a registry sound. In particular no two active watches
/// ever share a dedupe key, every terminal watch owes or has delivered a
/// notification, and no history grows beyond its limit.
pub proof fn law_requests_keep_soundness(reg: Registry, request: Request, after: Registry)
    requires
        sound(reg),
        steps(reg, request, after),
    ensures
        sound(after),
{
    match request {
        Request::Register { .. } => {},
        Request::Cleanup { .. } => {},
        _ => {
            lemma_step_of_one(reg, request, after);
        },
    }
}

/// A request changes no job but its own. Only a cleanup drops other records,
/// and only expired ones.
pub proof fn law_other_jobs_are_untouched(
    reg: Registry,
    request: Request,
    after: Registry,
    id: Seq<char>,
)
    requires
        steps(reg, request, after),
        subject(request) != Some(id),
    ensures
        after.get(id) == reg.get(id) || (after.get(id) is None && reg.get(id) is Some
            && (request matches Request::Cleanup { cutoff } && expired(reg[id], cutoff))),
{
    match request {
        Request::Register { .. } => {},
        Request::Cleanup { .. } => {},
        _ => {
            lemma_step_of_one(reg, request, after);
        },
    }
}

/// A watch keeps its job, its dedupe key, its owner and its birth, and a
/// terminal watch its outcome, under every request but a registration of the
/// same job and a cleanup.
pub proof fn law_watches_keep_identity_and_outcome(
    reg: Registry,
    request: Request,
    after: Registry,
    id: Seq<char>,
)
    requires
        steps(reg, request, after),
        reg.dom().contains(id),
        !(request is Register),
        !(request is Cleanup),
    ensures
        after.dom().contains(id),
        record_steps(reg[id], after[id]),
{
    lemma_step_of_one(reg, request, after);
}

/// A terminal watch answers every observation and every update with itself,
/// and nothing changes.
pub proof fn law_terminal_watches_are_final(
    reg: Registry,
    job: Seq<char>,
    obs: ObservationView,
    update: WatchUpdateView,
    around: SurroundingsView,
    now: Timestamp,
    event_id: Seq<char>,
)
    requires
        reg.dom().contains(job),
        reg[job].status.terminal(),
    ensures
        after_reconcile(reg, job, obs, around, event_id) == (
            reg,
            Ok::<RecordView, ErrorView>(reg[job]),
        ),
        after_update(reg, job, update, around, now) == (reg, Ok::<RecordView, ErrorView>(reg[job])),
{
    assert(reg.insert(job, reg[job]) =~= reg);
}

/// A sound registry never refuses an observation because of a recorded path.
pub proof fn law_recorded_paths_stay_inside(
    reg: Registry,
    job: Seq<char>,
    obs: ObservationView,
    around: SurroundingsView,
    event_id: Seq<char>,
)
    requires
        sound(reg),
        reg.dom().contains(job),
    ensures
        after_reconcile(reg, job, obs, around, event_id).1 matches Err(e) ==> e
            == ErrorView::TimeOutOfRange,
{
    assert(sound_record(reg[job]));
}

// ---------------------------------------------------------------------------
// Registration
// ---------------------------------------------------------------------------

/// A second registration for a dedupe key whose watch is active answers that
/// watch and changes nothing.
pub proof fn law_registration_is_idempotent(
    reg: Registry,
    first: WatchSpecView,
    around: SurroundingsView,
    now: Timestamp,
    answer: Result<RecordView, ErrorView>,
    second: WatchSpecView,
    later_around: SurroundingsView,
    later: Timestamp,
    later_answer: Result<RecordView, ErrorView>,
)
    requires
        sound(reg),
        spec_problem(first) is None,
        answers_register(reg, first, around, now, answer),
        spec_problem(second) is None,
        second.dedupe_key == first.dedupe_key,
        answers_register(
            after_register(reg, first, around, now),
            second,
            later_around,
            later,
            later_answer,
        ),
    ensures
        ({
            let middle = after_register(reg, first, around, now);
            after_register(middle, second, later_around, later) == middle
        }),
        later_answer == answer,
{
    let middle = after_register(reg, first, around, now);
    law_requests_keep_soundness(reg, Request::Register { spec: first, around, now }, middle);
    let r = answer->Ok_0;
    assert(middle.dom().contains(r.job_id));
    assert(active_for(middle[r.job_id], second.dedupe_key));
    assert(key_taken(middle, second.dedupe_key));
    let found = later_answer->Ok_0;
    assert(middle.dom().contains(found.job_id));
}

/// A cleanup keeps every active watch and every watch touched since the cutoff.
pub proof fn law_cleanup_drops_only_expired(reg: Registry, cutoff: Timestamp, id: Seq<char>)
    requires
        reg.dom().contains(id),
        !reg[id].status.terminal() || !reg[id].updated_at.before(cutoff),
    ensures
        unexpired(reg, cutoff).dom().contains(id),
        unexpired(reg, cutoff)[id] == reg[id],
{
}

// ---------------------------------------------------------------------------
// Leases
// ---------------------------------------------------------------------------

/// Two schedulers never check one watch at once: after one got the right to
/// check it, nobody gets it until the lease has expired or was given back.
pub proof fn law_check_leases_coalesce(
    reg: Registry,
    job: Seq<char>,
    claimant: Seq<char>,
    now: Timestamp,
    lease_id: Seq<char>,
    rival: Seq<char>,
    later: Timestamp,
    rival_id: Seq<char>,
)
    requires
        after_check_claim(reg, job, claimant, now, lease_id).1 matches Ok(Some(_)),
        later.before(now.plus_spec(CHECK_LEASE_SECS as int)->0),
    ensures
        ({
            let held = after_check_claim(reg, job, claimant, now, lease_id).0;
            after_check_claim(held, job, rival, later, rival_id) == (
                held,
                Ok::<Option<LeaseView>, ErrorView>(None),
            )
        }),
{
}

/// A lease that was given back, or has expired, keeps nobody from the next
/// check once it is due.
pub proof fn law_check_leases_end(
    reg: Registry,
    job: Seq<char>,
    claimant: Seq<char>,
    now: Timestamp,
    lease_id: Seq<char>,
    rival: Seq<char>,
    later: Timestamp,
    rival_id: Seq<char>,
)
    requires
        after_check_claim(reg, job, claimant, now, lease_id).1 matches Ok(Some(_)),
        !later.before(now),
        later.plus_spec(CHECK_LEASE_SECS as int) is Some,
    ensures
        ({
            let held = after_check_claim(reg, job, claimant, now, lease_id).0;
            let free = after_check_finish(held, job, lease_id, later).0;
            &&& after_check_claim(free, job, rival, later, rival_id).1 matches Ok(Some(_))
            &&& !later.before(now.plus_spec(CHECK_LEASE_SECS as int)->0) ==> after_check_claim(
                held,
                job,
                rival,
                later,
                rival_id,
            ).1 matches Ok(Some(_))
        }),
{
}

// ---------------------------------------------------------------------------
// Delivery
// ---------------------------------------------------------------------------

/// A notification is claimed once: nobody else gets it until the claim has
/// expired.
pub proof fn law_delivery_claims_exclude(
    reg: Registry,
    job: Seq<char>,
    claimant: Seq<char>,
    now: Timestamp,
    rival: Seq<char>,
    later: Timestamp,
)
    requires
        after_delivery_claim(reg, job, claimant, now).1 matches Ok(Some(_)),
        later.before(now.plus_spec(DELIVERY_LEASE_SECS as int)->0),
    ensures
        ({
            let held = after_delivery_claim(reg, job, claimant, now).0;
            after_delivery_claim(held, job, rival, later) == (
                held,
                Ok::<Option<ClaimView>, ErrorView>(None),
            )
        }),
{
}

/// A claim that expired without an acknowledgement is handed out again, for
/// the same notification.
pub proof fn law_expired_claims_are_recovered(
    reg: Registry,
    job: Seq<char>,
    claimant: Seq<char>,
    now: Timestamp,
    rival: Seq<char>,
    later: Timestamp,
)
    requires
        after_delivery_claim(reg, job, claimant, now).1 matches Ok(Some(_)),
        !later.before(now.plus_spec(DELIVERY_LEASE_SECS as int)->0),
        later.plus_spec(DELIVERY_LEASE_SECS as int) is Some,
    ensures
        ({
            let held = after_delivery_claim(reg, job, claimant, now).0;
            after_delivery_claim(held, job, rival, later).1 == after_delivery_claim(
                reg,
                job,
                claimant,
                now,
            ).1
        }),
{
}

/// A delivered notification is never handed out again, whenever it is asked
/// for.
pub proof fn law_delivered_is_delivered(
    reg: Registry,
    job: Seq<char>,
    claimant: Seq<char>,
    now: Timestamp,
)
    requires
        reg.dom().contains(job),
        reg[job].terminal_delivery matches Some(d) && d.state is Delivered,
    ensures
        after_delivery_claim(reg, job, claimant, now) == (
            reg,
            Ok::<Option<ClaimView>, ErrorView>(None),
        ),
        after_acknowledge(reg, job, now) == (reg, false),
{
}

/// A claimed notification is acknowledged exactly once, and after that nobody
/// gets it.
pub proof fn law_acknowledgement_ends_delivery(
    reg: Registry,
    job: Seq<char>,
    claimant: Seq<char>,
    now: Timestamp,
    then: Timestamp,
    rival: Seq<char>,
    later: Timestamp,
)
    requires
        after_delivery_claim(reg, job, claimant, now).1 matches Ok(Some(_)),
    ensures
        ({
            let held = after_delivery_claim(reg, job, claimant, now).0;
            let (done, acknowledged) = after_acknowledge(held, job, then);
            &&& acknowledged
            &&& after_acknowledge(done, job, later) == (done, false)
            &&& after_delivery_claim(done, job, rival, later).1
                == Ok::<Option<ClaimView>, ErrorView>(None)
        }),
{
}

/// The holder of a claim can mark its notification as delivered, and marking it
/// again changes nothing.
pub proof fn law_claims_can_be_marked(
    reg: Registry,
    job: Seq<char>,
    claimant: Seq<char>,
    now: Timestamp,
    then: Timestamp,
    later: Timestamp,
)
    requires
        after_delivery_claim(reg, job, claimant, now).1 matches Ok(Some(_)),
    ensures
        ({
            let (held, answer) = after_delivery_claim(reg, job, claimant, now);
            let event_id = answer->Ok_0->0.event_id;
            let (done, marked) = after_delivery_mark(held, job, event_id, then);
            &&& marked is Ok
            &&& done[job].terminal_delivery matches Some(d) && d.state is Delivered
            &&& after_delivery_mark(done, job, event_id, later) == (done, Ok::<(), ErrorView>(()))
        }),
{
}

// ---------------------------------------------------------------------------
// Observation
// ---------------------------------------------------------------------------

/// Evidence of completion ends a watch as completed, whatever the runtime says
/// and however late it comes.
pub proof fn law_evidence_completes(
    r: RecordView,
    obs: ObservationView,
    around: SurroundingsView,
    event_id: Seq<char>,
)
    requires
        all_evidence(observed(r, obs, around), obs).len() > 0,
    ensures
        reconciled(r, obs, around, event_id) matches Some(after) && after.status
            == WatchStatus::Completed && after.completion_evidence == all_evidence(
            observed(r, obs, around),
            obs,
        ),
{
}

/// A passed deadline alone ends no watch: without evidence, and while the
/// worker runs, the watch stays active and the deadline is noted.
pub proof fn law_deadlines_end_no_watch(
    r: RecordView,
    obs: ObservationView,
    around: SurroundingsView,
    event_id: Seq<char>,
)
    requires
        all_evidence(observed(r, obs, around), obs).len() == 0,
        obs.runtime_state is Running,
        deadline_newly_passed(r, obs.observed_at),
    ensures
        reconciled(r, obs, around, event_id) matches Some(after) ==> after.status
            == WatchStatus::Watching && after.deadline_exceeded_at == Some(obs.observed_at),
{
}

/// A watch goes stale only once its time is over, and never while its worker or
/// its process is known to run.
pub proof fn law_only_idle_watches_go_stale(
    r: RecordView,
    obs: ObservationView,
    around: SurroundingsView,
    event_id: Seq<char>,
)
    requires
        reconciled(r, obs, around, event_id) matches Some(after) && after.status
            == WatchStatus::Stale,
    ensures
        !(obs.runtime_state is Running),
        !process_known_running(r, obs, around),
        r.created_at.plus_spec(r.stale_after_secs as int) matches Some(stale_at)
            && !obs.observed_at.before(stale_at),
{
}

/// A failed worker without evidence of completion is tried again while the
/// policy allows another attempt, and ends the watch once it does not.
pub proof fn law_failures_are_retried_within_budget(
    r: RecordView,
    obs: ObservationView,
    around: SurroundingsView,
    event_id: Seq<char>,
)
    requires
        all_evidence(observed(r, obs, around), obs).len() == 0,
        obs.runtime_state is Failed,
        reconciled(r, obs, around, event_id) is Some,
    ensures
        reconciled(r, obs, around, event_id)->0.status == if r.attempt < r.retry.max_attempts
            && !obs.retries_exhausted {
            WatchStatus::RetryScheduled
        } else {
            WatchStatus::Failed
        },
{
}

/// The wait grows from attempt to attempt, from the first wait up to the limit.
pub proof fn law_backoff_grows_to_its_limit(policy: RetryView, attempt: u32, later: u32)
    requires
        attempt <= later,
    ensures
        policy.initial_backoff_secs <= backoff_spec(policy, attempt),
        backoff_spec(policy, attempt) <= backoff_spec(policy, later),
        backoff_spec(policy, later) <= policy.max_backoff_secs || backoff_spec(policy, later)
            == policy.initial_backoff_secs,
{
    let doublings = |n: u32|
        if n <= 1 {
            0nat
        } else if n > 32 {
            31nat
        } else {
            (n - 1) as nat
        };
    let a = pow2(doublings(attempt));
    let b = pow2(doublings(later));
    let first = policy.initial_backoff_secs as nat;
    lemma_pow2_pos(doublings(attempt));
    lemma_pow2_pos(doublings(later));
    if doublings(attempt) < doublings(later) {
        lemma_pow2_strictly_increases(doublings(attempt), doublings(later));
    }
    assert(first <= first * a && first * a <= first * b) by (nonlinear_arith)
        requires
            1 <= a <= b,
    ;
}

} // verus!
