//! How one watch moves from state to state.

use vstd::arithmetic::power2::pow2;
use vstd::prelude::*;

use crate::clock::{signed_secs, signed_secs_spec, Timestamp};
use crate::number::{decimal, decimal_spec, times_pow2};
use crate::paths::{stays_inside, stays_inside_spec};
use crate::text::{has_text, opt_view, same_text, trim, trim_spec, views};
use crate::watch::model::{
    artifact_views, audit_views, expectation_views, repository_view, ArtifactExpectation,
    ArtifactSnapshot, ArtifactView, AuditEvent, AuditView, DeliveryState, DeliveryStateView,
    DeliveryView, ExpectationView, ObservationView, ReconcileObservation, RecordView,
    RepositorySnapshot, RepositoryView, RetryPolicy, RetryView, RuntimeState, Surroundings,
    SurroundingsView, TerminalDelivery, WatchRecord, WatchStatus,
};

verus! {

/// How many entries the history of a watch keeps.
pub const MAX_AUDIT_EVENTS: usize = 256;

// ---------------------------------------------------------------------------
// History
// ---------------------------------------------------------------------------

/// The history with one more entry: nothing is added where the last entry says
/// the same, and only the latest entries are kept.
pub open spec fn audit_pushed(audit: Seq<AuditView>, event: AuditView) -> Seq<AuditView> {
    if audit.len() > 0 && audit.last().kind == event.kind && audit.last().detail == event.detail {
        audit
    } else {
        let longer = audit.push(event);
        if longer.len() > MAX_AUDIT_EVENTS {
            longer.skip(longer.len() - MAX_AUDIT_EVENTS)
        } else {
            longer
        }
    }
}

/// The record with one more entry in its history.
pub open spec fn audited(
    r: RecordView,
    at: Timestamp,
    kind: Seq<char>,
    detail: Seq<char>,
) -> RecordView {
    RecordView { audit: audit_pushed(r.audit, AuditView { at, kind, detail }), ..r }
}

pub fn push_audit(record: &mut WatchRecord, at: Timestamp, kind: &str, detail: &str)
    ensures
        final(record)@ == audited(old(record)@, at, kind@, detail@),
{
    let ghost before = record@;
    let count = record.audit.len();
    if count > 0 && same_text(record.audit[count - 1].kind.as_str(), kind) && same_text(
        record.audit[count - 1].detail.as_str(),
        detail,
    ) {
        assert(before.audit.last() == record.audit@[count - 1]@);
        return;
    }
    assert(count > 0 ==> before.audit.last() == record.audit@[count - 1]@);
    let event = AuditEvent { at, kind: kind.to_string(), detail: detail.to_string() };
    let ghost added = event@;
    record.audit.push(event);
    assert(audit_views(record.audit@) =~= before.audit.push(added));
    let total = record.audit.len();
    if total > MAX_AUDIT_EVENTS {
        let kept = record.audit.split_off(total - MAX_AUDIT_EVENTS);
        record.audit = kept;
        assert(audit_views(record.audit@) =~= before.audit.push(added).skip(
            total - MAX_AUDIT_EVENTS,
        ));
    }
    assert(record@ =~= audited(before, at, kind@, detail@));
}

// ---------------------------------------------------------------------------
// Evidence
// ---------------------------------------------------------------------------

/// What the repository's position proves of a finished job.
pub open spec fn repository_evidence(r: RecordView) -> Seq<Seq<char>> {
    match r.repository {
        Some(repository) => match repository.head_sha {
            Some(head) => if r.expected_sha == Some(head) {
                seq!["repository HEAD matches expected SHA "@ + head]
            } else if r.baseline_sha is Some && r.baseline_sha->0 != head {
                seq!["repository HEAD advanced from "@ + r.baseline_sha->0 + " to "@ + head]
            } else {
                Seq::empty()
            },
            None => Seq::empty(),
        },
        None => Seq::empty(),
    }
}

/// The files among these that are required.
pub open spec fn required_artifacts(artifacts: Seq<ArtifactView>) -> Seq<ArtifactView>
    decreases artifacts.len(),
{
    if artifacts.len() == 0 {
        artifacts
    } else {
        let before = required_artifacts(artifacts.drop_last());
        if artifacts.last().required {
            before.push(artifacts.last())
        } else {
            before
        }
    }
}

/// Whether each of these files exists.
pub open spec fn each_exists(artifacts: Seq<ArtifactView>) -> bool {
    forall|i: int| 0 <= i < artifacts.len() ==> (#[trigger] artifacts[i]).exists
}

/// Whether some file is required and every required one exists.
pub open spec fn required_all_exist(artifacts: Seq<ArtifactView>) -> bool {
    required_artifacts(artifacts).len() > 0 && each_exists(required_artifacts(artifacts))
}

pub open spec fn artifact_note(a: ArtifactView) -> Seq<char> {
    "required artifact exists: "@ + a.path
}

/// What the required files prove of a finished job.
pub open spec fn artifact_evidence(artifacts: Seq<ArtifactView>) -> Seq<Seq<char>> {
    if required_all_exist(artifacts) {
        required_artifacts(artifacts).map_values(|a: ArtifactView| artifact_note(a))
    } else {
        Seq::empty()
    }
}

/// Everything outside the runtime's own word that proves the job finished.
pub open spec fn completion_evidence_spec(r: RecordView) -> Seq<Seq<char>> {
    repository_evidence(r) + artifact_evidence(r.artifacts)
}

/// The notes on the required files, and whether all of them exist.
fn artifact_notes(artifacts: &Vec<ArtifactSnapshot>) -> (res: (Vec<String>, bool))
    ensures
        views(res.0@) == required_artifacts(artifact_views(artifacts@)).map_values(
            |a: ArtifactView| artifact_note(a),
        ),
        res.1 == each_exists(required_artifacts(artifact_views(artifacts@))),
{
    let ghost all = artifact_views(artifacts@);
    let ghost note = |a: ArtifactView| artifact_note(a);
    let mut notes: Vec<String> = Vec::new();
    let mut all_exist = true;
    let mut i: usize = 0;
    assert(views(notes@) =~= required_artifacts(all.take(0)).map_values(note));
    while i < artifacts.len()
        invariant
            i <= artifacts@.len(),
            all == artifact_views(artifacts@),
            note == (|a: ArtifactView| artifact_note(a)),
            views(notes@) == required_artifacts(all.take(i as int)).map_values(note),
            all_exist == each_exists(required_artifacts(all.take(i as int))),
        decreases artifacts@.len() - i,
    {
        let ghost before = required_artifacts(all.take(i as int));
        let ghost said = views(notes@);
        let ghost existed = all_exist;
        let artifact = &artifacts[i];
        assert(all.take(i + 1).drop_last() =~= all.take(i as int));
        assert(all.take(i + 1).last() == artifact@);
        if artifact.required {
            let line = "required artifact exists: ".to_string().concat(artifact.path.as_str());
            let ghost text = line@;
            notes.push(line);
            all_exist = all_exist && artifact.exists;
            let ghost after = required_artifacts(all.take(i + 1));
            assert(after == before.push(artifact@));
            assert(views(notes@) =~= said.push(text));
            assert(views(notes@) =~= after.map_values(note));
            assert(all_exist == each_exists(after)) by {
                if all_exist {
                    assert forall|k: int| 0 <= k < after.len() implies (
                    #[trigger] after[k]).exists by {
                        if k < before.len() {
                            assert(before[k].exists);
                        }
                    }
                } else if existed {
                    assert(!after[before.len() as int].exists);
                } else {
                    let k = choose|k: int| 0 <= k < before.len() && !(#[trigger] before[k]).exists;
                    assert(!after[k].exists);
                }
            }
        }
        i += 1;
    }
    assert(all.take(i as int) =~= all);
    (notes, all_exist)
}

pub fn completion_evidence(record: &WatchRecord) -> (res: Vec<String>)
    ensures
        views(res@) == completion_evidence_spec(record@),
{
    let mut evidence: Vec<String> = Vec::new();
    if let Some(repository) = &record.repository {
        if let Some(head) = &repository.head_sha {
            let matches_expected = match &record.expected_sha {
                Some(expected) => same_text(expected.as_str(), head.as_str()),
                None => false,
            };
            if matches_expected {
                evidence.push(
                    "repository HEAD matches expected SHA ".to_string().concat(head.as_str()),
                );
            } else if let Some(baseline) = &record.baseline_sha {
                if !same_text(baseline.as_str(), head.as_str()) {
                    evidence.push(
                        "repository HEAD advanced from ".to_string().concat(
                            baseline.as_str(),
                        ).concat(" to ").concat(head.as_str()),
                    );
                }
            }
        }
    }
    assert(views(evidence@) =~= repository_evidence(record@));
    let (notes, all_exist) = artifact_notes(&record.artifacts);
    let ghost first = evidence@;
    if notes.len() > 0 && all_exist {
        let mut more = notes;
        let ghost second = more@;
        evidence.append(&mut more);
        assert(views(evidence@) =~= views(first) + views(second));
    }
    assert(views(evidence@) =~= completion_evidence_spec(record@));
    evidence
}

// ---------------------------------------------------------------------------
// Looking around
// ---------------------------------------------------------------------------

/// The first path that leads outside the working directory.
pub open spec fn first_outside(expected: Seq<ExpectationView>) -> Option<Seq<char>>
    decreases expected.len(),
{
    if expected.len() == 0 {
        None
    } else if !stays_inside_spec(expected[0].path) {
        Some(expected[0].path)
    } else {
        first_outside(expected.drop_first())
    }
}

/// The first expected path that leads outside the working directory.
pub fn outside_artifact(expected: &Vec<ArtifactExpectation>) -> (res: Option<String>)
    ensures
        opt_view(res) == first_outside(expectation_views(expected@)),
{
    let ghost all = expectation_views(expected@);
    let mut i: usize = 0;
    assert(all.skip(0) =~= all);
    while i < expected.len()
        invariant
            i <= expected@.len(),
            all == expectation_views(expected@),
            first_outside(all) == first_outside(all.skip(i as int)),
        decreases expected@.len() - i,
    {
        assert(all.skip(i as int)[0] == expected@[i as int]@);
        if !stays_inside(expected[i].path.as_str()) {
            return Some(expected[i].path.clone());
        }
        assert(all.skip(i as int).drop_first() =~= all.skip(i + 1));
        i += 1;
    }
    None
}

/// Each expectation with whether its file is there.
pub open spec fn artifacts_seen(
    expected: Seq<ExpectationView>,
    present: Seq<Seq<char>>,
) -> Seq<ArtifactView> {
    expected.map_values(
        |e: ExpectationView|
            ArtifactView { path: e.path, required: e.required, exists: present.contains(e.path) },
    )
}

pub fn inspect_artifacts(expected: &Vec<ArtifactExpectation>, present: &Vec<String>) -> (res: Vec<
    ArtifactSnapshot,
>)
    ensures
        artifact_views(res@) == artifacts_seen(expectation_views(expected@), views(present@)),
{
    let ghost all = artifacts_seen(expectation_views(expected@), views(present@));
    let mut res: Vec<ArtifactSnapshot> = Vec::new();
    let mut i: usize = 0;
    while i < expected.len()
        invariant
            i <= expected@.len(),
            all == artifacts_seen(expectation_views(expected@), views(present@)),
            artifact_views(res@) =~= all.take(i as int),
        decreases expected@.len() - i,
    {
        let ghost done = artifact_views(res@);
        let seen = ArtifactSnapshot {
            path: expected[i].path.clone(),
            required: expected[i].required,
            exists: has_text(present, expected[i].path.as_str()),
        };
        let ghost one = seen@;
        assert(one == all[i as int]);
        res.push(seen);
        assert(artifact_views(res@) =~= done.push(one));
        i += 1;
    }
    assert(all.take(i as int) =~= all);
    res
}

/// What `git rev-parse HEAD` and `git status --short` say of a repository.
/// There is none where the first command failed.
pub open spec fn repository_spec(
    head_found: bool,
    head: Seq<char>,
    status: Seq<char>,
) -> Option<RepositoryView> {
    if head_found {
        Some(
            RepositoryView {
                head_sha: Some(trim_spec(head)),
                dirty: trim_spec(status).len() > 0,
                status_summary: trim_spec(status),
            },
        )
    } else {
        None
    }
}

pub fn inspect_repository(head_found: bool, head: &str, status: &str) -> (res: Option<
    RepositorySnapshot,
>)
    ensures
        repository_view(res) == repository_spec(head_found, head@, status@),
{
    if !head_found {
        return None;
    }
    let status_summary = trim(status);
    Some(
        RepositorySnapshot {
            head_sha: Some(trim(head)),
            dirty: !status_summary.as_str().is_empty(),
            status_summary,
        },
    )
}

// ---------------------------------------------------------------------------
// Retries and terminal states
// ---------------------------------------------------------------------------

/// How long to wait after this attempt: twice as long after each, up to the
/// limit, which is never below the first wait.
pub open spec fn backoff_spec(policy: RetryView, attempt: u32) -> nat {
    let doublings: nat = if attempt <= 1 {
        0
    } else if attempt > 32 {
        31
    } else {
        (attempt - 1) as nat
    };
    let limit = if policy.max_backoff_secs >= policy.initial_backoff_secs {
        policy.max_backoff_secs as nat
    } else {
        policy.initial_backoff_secs as nat
    };
    let wait = policy.initial_backoff_secs as nat * pow2(doublings);
    if wait <= limit {
        wait
    } else {
        limit
    }
}

pub fn backoff_secs(policy: &RetryPolicy, attempt: u32) -> (res: u64)
    ensures
        res == backoff_spec(policy@, attempt),
{
    let doublings: u32 = if attempt <= 1 {
        0
    } else if attempt > 32 {
        31
    } else {
        attempt - 1
    };
    let limit = if policy.max_backoff_secs >= policy.initial_backoff_secs {
        policy.max_backoff_secs
    } else {
        policy.initial_backoff_secs
    };
    let wait = times_pow2(policy.initial_backoff_secs, doublings);
    if wait <= limit as u128 {
        wait as u64
    } else {
        limit
    }
}

/// The record in a terminal state, with a notification owed to its owner.
pub open spec fn ended(
    r: RecordView,
    status: WatchStatus,
    now: Timestamp,
    detail: Seq<char>,
    event_id: Seq<char>,
) -> RecordView {
    audited(
        RecordView {
            status,
            terminal_at: Some(now),
            next_check_at: None,
            active_check: None,
            updated_at: now,
            terminal_delivery: match r.terminal_delivery {
                Some(delivery) => Some(delivery),
                None => Some(DeliveryView { event_id, state: DeliveryStateView::Pending }),
            },
            ..r
        },
        now,
        "terminal"@,
        detail,
    )
}

pub fn set_terminal(
    record: &mut WatchRecord,
    status: WatchStatus,
    now: Timestamp,
    detail: &str,
    event_id: String,
)
    ensures
        final(record)@ == ended(old(record)@, status, now, detail@, event_id@),
{
    let ghost before = record@;
    record.status = status;
    record.terminal_at = Some(now);
    record.next_check_at = None;
    record.active_check = None;
    record.updated_at = now;
    if record.terminal_delivery.is_none() {
        record.terminal_delivery = Some(
            TerminalDelivery { event_id, state: DeliveryState::Pending },
        );
    }
    push_audit(record, now, "terminal", detail);
}

/// The model for the next attempt: the one after this attempt's in the list,
/// or the last one.
pub open spec fn fallback_model(policy: RetryView, attempt: u32) -> Option<Seq<char>> {
    if attempt < policy.model_fallbacks.len() {
        Some(policy.model_fallbacks[attempt as int])
    } else if policy.model_fallbacks.len() > 0 {
        Some(policy.model_fallbacks.last())
    } else {
        None
    }
}

/// What the history says of a scheduled retry.
pub open spec fn retry_detail(attempt: u32, delay: nat, model: Option<Seq<char>>) -> Seq<char> {
    let line = "retry attempt "@ + decimal_spec((attempt + 1) as nat) + " scheduled after "@
        + decimal_spec(delay) + "s"@;
    match model {
        Some(model) => line + " using model "@ + model,
        None => line,
    }
}

/// A failed job gets its next attempt while the policy allows one, else it
/// ends. None where the calendar cannot hold the time of the attempt.
pub open spec fn retried_or_failed(
    r: RecordView,
    now: Timestamp,
    event_id: Seq<char>,
) -> Option<RecordView> {
    if r.attempt < r.retry.max_attempts {
        let delay = backoff_spec(r.retry, r.attempt);
        match now.plus_spec(signed_secs_spec(delay as u64)) {
            Some(due) => {
                let model = fallback_model(r.retry, r.attempt);
                Some(
                    audited(
                        RecordView {
                            status: WatchStatus::RetryScheduled,
                            next_check_at: Some(due),
                            next_model: model,
                            ..r
                        },
                        now,
                        "retry_scheduled"@,
                        retry_detail(r.attempt, delay, model),
                    ),
                )
            },
            None => None,
        }
    } else {
        Some(
            ended(
                r,
                WatchStatus::Failed,
                now,
                "worker failed and retry budget is exhausted"@,
                event_id,
            ),
        )
    }
}

fn next_fallback(policy: &RetryPolicy, attempt: u32) -> (res: Option<String>)
    ensures
        opt_view(res) == fallback_model(policy@, attempt),
{
    let list = &policy.model_fallbacks;
    if (attempt as usize) < list.len() {
        Some(list[attempt as usize].clone())
    } else if list.len() > 0 {
        Some(list[list.len() - 1].clone())
    } else {
        None
    }
}

pub fn schedule_retry_or_fail(record: WatchRecord, now: Timestamp, event_id: String) -> (res:
    Option<WatchRecord>)
    ensures
        match res {
            Some(after) => retried_or_failed(record@, now, event_id@) == Some(after@),
            None => retried_or_failed(record@, now, event_id@) is None,
        },
{
    let mut record = record;
    if record.attempt < record.retry.max_attempts {
        let delay = backoff_secs(&record.retry, record.attempt);
        let due = match now.plus(signed_secs(delay)) {
            Some(due) => due,
            None => {
                return None;
            },
        };
        record.status = WatchStatus::RetryScheduled;
        record.next_check_at = Some(due);
        record.next_model = next_fallback(&record.retry, record.attempt);
        let mut detail = "retry attempt ".to_string().concat(
            decimal(record.attempt as u64 + 1).as_str(),
        ).concat(" scheduled after ").concat(decimal(delay).as_str()).concat("s");
        if let Some(model) = &record.next_model {
            detail = detail.concat(" using model ").concat(model.as_str());
        }
        push_audit(&mut record, now, "retry_scheduled", detail.as_str());
    } else {
        set_terminal(
            &mut record,
            WatchStatus::Failed,
            now,
            "worker failed and retry budget is exhausted",
            event_id,
        );
    }
    Some(record)
}

// ---------------------------------------------------------------------------
// Reconciliation
// ---------------------------------------------------------------------------

/// The record with what was observed in it.
pub open spec fn observed(
    r: RecordView,
    obs: ObservationView,
    around: SurroundingsView,
) -> RecordView {
    let seen = RecordView {
        runtime_state: obs.runtime_state,
        repository: around.repository,
        artifacts: artifacts_seen(r.expected_artifacts, around.present_artifacts),
        updated_at: obs.observed_at,
        ..r
    };
    match obs.swarm_status {
        Some(status) => audited(
            RecordView { last_swarm_status: Some(status), ..seen },
            obs.observed_at,
            "swarm_observed"@,
            "swarm status: "@ + status,
        ),
        None => seen,
    }
}

/// Whether the deadline has passed and that was not noted before.
pub open spec fn deadline_newly_passed(r: RecordView, now: Timestamp) -> bool {
    r.deadline is Some && !now.before(r.deadline->0) && r.deadline_exceeded_at is None
}

/// The record with a passed deadline noted.
pub open spec fn deadline_noted(r: RecordView, now: Timestamp) -> RecordView {
    if deadline_newly_passed(r, now) {
        audited(
            RecordView { deadline_exceeded_at: Some(now), ..r },
            now,
            "deadline_exceeded"@,
            "deadline passed; watch remains active for late completion"@,
        )
    } else {
        r
    }
}

/// Whether the job's process is known to run.
pub open spec fn process_known_running(
    r: RecordView,
    obs: ObservationView,
    around: SurroundingsView,
) -> bool {
    match obs.process_running {
        Some(running) => running,
        None => r.process_id is Some && around.process_running,
    }
}

/// An unfinished job whose worker did not fail stays watched, or ends as stale
/// once its time is over and nothing says that it runs. None where the calendar
/// cannot hold an instant that this needs.
pub open spec fn kept_or_stale(
    r: RecordView,
    obs: ObservationView,
    around: SurroundingsView,
    event_id: Seq<char>,
) -> Option<RecordView> {
    let now = obs.observed_at;
    let noted = deadline_noted(r, now);
    match noted.created_at.plus_spec(noted.stale_after_secs as int) {
        None => None,
        Some(stale_at) => if !now.before(stale_at) && !process_known_running(r, obs, around)
            && !(obs.runtime_state is Running) {
            Some(
                ended(
                    noted,
                    WatchStatus::Stale,
                    now,
                    "watch became stale; no destructive recovery attempted"@,
                    event_id,
                ),
            )
        } else {
            let wait = backoff_spec(noted.retry, noted.attempt);
            let delay = if wait >= 1 {
                wait
            } else {
                1
            };
            match now.plus_spec(signed_secs_spec(delay as u64)) {
                None => None,
                Some(due) => {
                    let kept = RecordView {
                        status: WatchStatus::Watching,
                        next_check_at: Some(due),
                        ..noted
                    };
                    Some(
                        if obs.runtime_state is OwnershipLost {
                            audited(
                                kept,
                                now,
                                "ownership_lost"@,
                                "owner status unavailable; repository and artifacts inspected"@,
                            )
                        } else {
                            kept
                        },
                    )
                },
            }
        },
    }
}

/// What the job's completion is proved by, the runtime's own word first.
pub open spec fn all_evidence(r: RecordView, obs: ObservationView) -> Seq<Seq<char>> {
    if obs.runtime_state is Completed {
        seq!["runtime reported completion"@] + completion_evidence_spec(r)
    } else {
        completion_evidence_spec(r)
    }
}

/// An active watch after an observation: evidence of completion ends it, a
/// failed worker is tried again or ends it, and else it stays watched until it
/// is stale. None where the calendar cannot hold an instant that this needs.
pub open spec fn reconciled(
    r: RecordView,
    obs: ObservationView,
    around: SurroundingsView,
    event_id: Seq<char>,
) -> Option<RecordView> {
    let now = obs.observed_at;
    let seen = observed(r, obs, around);
    let evidence = all_evidence(seen, obs);
    let after = if evidence.len() > 0 {
        Some(
            ended(
                RecordView { completion_evidence: evidence, ..seen },
                WatchStatus::Completed,
                now,
                "completion reconciled"@,
                event_id,
            ),
        )
    } else if obs.runtime_state is Failed {
        if obs.retries_exhausted {
            Some(
                ended(
                    seen,
                    WatchStatus::Failed,
                    now,
                    "worker failed after exhausting the runtime retry policy"@,
                    event_id,
                ),
            )
        } else {
            retried_or_failed(seen, now, event_id)
        }
    } else {
        kept_or_stale(seen, obs, around, event_id)
    };
    match after {
        Some(after) => Some(RecordView { active_check: None, ..after }),
        None => None,
    }
}

fn observe(record: WatchRecord, obs: &ReconcileObservation, around: &Surroundings) -> (res:
    WatchRecord)
    ensures
        res@ == observed(record@, obs@, around@),
{
    let ghost before = record@;
    let mut record = record;
    record.runtime_state = obs.runtime_state;
    record.repository = match &around.repository {
        Some(repository) => Some(repository.clone()),
        None => None,
    };
    record.artifacts = inspect_artifacts(&record.expected_artifacts, &around.present_artifacts);
    record.updated_at = obs.observed_at;
    if let Some(status) = &obs.swarm_status {
        record.last_swarm_status = Some(status.clone());
        let detail = "swarm status: ".to_string().concat(status.as_str());
        push_audit(&mut record, obs.observed_at, "swarm_observed", detail.as_str());
    }
    assert(record@ =~= observed(before, obs@, around@));
    record
}

fn keep_or_stale(
    record: WatchRecord,
    obs: &ReconcileObservation,
    around: &Surroundings,
    event_id: String,
) -> (res: Option<WatchRecord>)
    ensures
        match res {
            Some(after) => kept_or_stale(record@, obs@, around@, event_id@) == Some(after@),
            None => kept_or_stale(record@, obs@, around@, event_id@) is None,
        },
{
    let ghost before = record@;
    let now = obs.observed_at;
    let mut record = record;
    let running = match obs.process_running {
        Some(running) => running,
        None => record.process_id.is_some() && around.process_running,
    };
    let passed = match &record.deadline {
        Some(deadline) => !now.is_before(deadline) && record.deadline_exceeded_at.is_none(),
        None => false,
    };
    if passed {
        record.deadline_exceeded_at = Some(now);
        push_audit(
            &mut record,
            now,
            "deadline_exceeded",
            "deadline passed; watch remains active for late completion",
        );
    }
    assert(record@ == deadline_noted(before, now));
    let stale_at = match record.created_at.plus(record.stale_after_secs) {
        Some(stale_at) => stale_at,
        None => {
            return None;
        },
    };
    if !now.is_before(&stale_at) && !running && obs.runtime_state != RuntimeState::Running {
        set_terminal(
            &mut record,
            WatchStatus::Stale,
            now,
            "watch became stale; no destructive recovery attempted",
            event_id,
        );
        return Some(record);
    }
    let wait = backoff_secs(&record.retry, record.attempt);
    let delay = if wait >= 1 {
        wait
    } else {
        1
    };
    let due = match now.plus(signed_secs(delay)) {
        Some(due) => due,
        None => {
            return None;
        },
    };
    record.status = WatchStatus::Watching;
    record.next_check_at = Some(due);
    if obs.runtime_state == RuntimeState::OwnershipLost {
        push_audit(
            &mut record,
            now,
            "ownership_lost",
            "owner status unavailable; repository and artifacts inspected",
        );
    }
    Some(record)
}

pub fn reconcile_record(
    record: WatchRecord,
    obs: &ReconcileObservation,
    around: &Surroundings,
    event_id: String,
) -> (res: Option<WatchRecord>)
    ensures
        match res {
            Some(after) => reconciled(record@, obs@, around@, event_id@) == Some(after@),
            None => reconciled(record@, obs@, around@, event_id@) is None,
        },
{
    let now = obs.observed_at;
    let mut record = observe(record, obs, around);
    let ghost seen = record@;
    let mut evidence = completion_evidence(&record);
    let ghost found = evidence@;
    if obs.runtime_state == RuntimeState::Completed {
        let first = "runtime reported completion".to_string();
        let ghost text = first@;
        evidence.insert(0, first);
        assert(views(evidence@) =~= seq![text] + views(found));
    }
    assert(views(evidence@) == all_evidence(seen, obs@));
    if evidence.len() > 0 {
        record.completion_evidence = evidence;
        set_terminal(
            &mut record,
            WatchStatus::Completed,
            now,
            "completion reconciled",
            event_id,
        );
    } else if obs.runtime_state == RuntimeState::Failed {
        if obs.retries_exhausted {
            set_terminal(
                &mut record,
                WatchStatus::Failed,
                now,
                "worker failed after exhausting the runtime retry policy",
                event_id,
            );
        } else {
            record = match schedule_retry_or_fail(record, now, event_id) {
                Some(after) => after,
                None => {
                    return None;
                },
            };
        }
    } else {
        record = match keep_or_stale(record, obs, around, event_id) {
            Some(after) => after,
            None => {
                return None;
            },
        };
    }
    record.active_check = None;
    Some(record)
}

} // verus!
