//! The registry of watches: what each request to it changes and answers.

use vstd::prelude::*;

use crate::clock::Timestamp;
use crate::digest::{fresh_uuid, full_hash, full_hash_spec, is_uuid};
use crate::number::{decimal, decimal_spec};
use crate::paths::{is_absolute, is_absolute_spec, path_join, path_join_spec};
use crate::text::{copy_opt, copy_texts, is_blank, same_text, trim_spec, views};
use crate::watch::model::{
    lease_view, CheckLease, ClaimView, DeliveryClaim, DeliveryState, DeliveryStateView,
    DeliveryView, ErrorView, LeaseView, ObservationView, ReconcileObservation, RecordView,
    RuntimeState, Surroundings, SurroundingsView, TerminalDelivery, WatchError, WatchRecord,
    WatchSpec, WatchSpecView, WatchStatus, WatchUpdate, WatchUpdateView,
};
use crate::watch::store::{lemma_at, lemma_position, lists_all, unexpired, WatchStore};
use crate::watch::transition::{
    artifacts_seen, audited, first_outside, inspect_artifacts, outside_artifact, push_audit,
    reconcile_record, reconciled,
};

verus! {

/// How long the right to check a watch lasts.
pub const CHECK_LEASE_SECS: i64 = 300;

/// How long a claimed delivery stays claimed.
pub const DELIVERY_LEASE_SECS: i64 = 300;

/// The registry: the record of each job.
pub type Registry = Map<Seq<char>, RecordView>;

// ---------------------------------------------------------------------------
// Answers
// ---------------------------------------------------------------------------

pub open spec fn record_answer(r: Result<WatchRecord, WatchError>) -> Result<
    RecordView,
    ErrorView,
> {
    match r {
        Ok(record) => Ok(record@),
        Err(e) => Err(e@),
    }
}

pub open spec fn lease_answer(r: Result<Option<CheckLease>, WatchError>) -> Result<
    Option<LeaseView>,
    ErrorView,
> {
    match r {
        Ok(lease) => Ok(lease_view(lease)),
        Err(e) => Err(e@),
    }
}

pub open spec fn claim_answer(r: Result<Option<DeliveryClaim>, WatchError>) -> Result<
    Option<ClaimView>,
    ErrorView,
> {
    match r {
        Ok(Some(claim)) => Ok(Some(claim@)),
        Ok(None) => Ok(None),
        Err(e) => Err(e@),
    }
}

pub open spec fn unit_answer(r: Result<(), WatchError>) -> Result<(), ErrorView> {
    match r {
        Ok(()) => Ok(()),
        Err(e) => Err(e@),
    }
}

// ---------------------------------------------------------------------------
// Registering and changing
// ---------------------------------------------------------------------------

/// Why a watch cannot be registered.
pub open spec fn spec_problem(spec: WatchSpecView) -> Option<ErrorView> {
    if trim_spec(spec.job_id).len() == 0 {
        Some(ErrorView::BlankJobId)
    } else if trim_spec(spec.dedupe_key).len() == 0 {
        Some(ErrorView::BlankDedupeKey)
    } else if trim_spec(spec.owner_session_id).len() == 0 {
        Some(ErrorView::BlankOwnerSessionId)
    } else if !is_absolute_spec(spec.working_dir) {
        Some(ErrorView::RelativeWorkingDir)
    } else {
        match first_outside(spec.expected_artifacts) {
            Some(path) => Some(ErrorView::ArtifactOutside { path }),
            None => None,
        }
    }
}

pub fn validate_spec(spec: &WatchSpec) -> (res: Result<(), WatchError>)
    ensures
        match res {
            Ok(()) => spec_problem(spec@) is None,
            Err(e) => spec_problem(spec@) == Some(e@),
        },
{
    if is_blank(spec.job_id.as_str()) {
        return Err(WatchError::BlankJobId);
    }
    if is_blank(spec.dedupe_key.as_str()) {
        return Err(WatchError::BlankDedupeKey);
    }
    if is_blank(spec.owner_session_id.as_str()) {
        return Err(WatchError::BlankOwnerSessionId);
    }
    if !is_absolute(spec.working_dir.as_str()) {
        return Err(WatchError::RelativeWorkingDir);
    }
    match outside_artifact(&spec.expected_artifacts) {
        Some(path) => Err(WatchError::ArtifactOutside { path }),
        None => Ok(()),
    }
}

/// A number of seconds, or none where it is negative.
pub open spec fn at_least_zero(secs: i64) -> i64 {
    if secs >= 0 {
        secs
    } else {
        0
    }
}

/// The record of a new watch.
pub open spec fn fresh_record(
    spec: WatchSpecView,
    around: SurroundingsView,
    now: Timestamp,
) -> RecordView {
    audited(
        RecordView {
            job_id: spec.job_id,
            dedupe_key: spec.dedupe_key,
            owner_session_id: spec.owner_session_id,
            worker_session_id: spec.worker_session_id,
            process_id: spec.process_id,
            working_dir: spec.working_dir,
            baseline_sha: match spec.baseline_sha {
                Some(sha) => Some(sha),
                None => match around.repository {
                    Some(repository) => repository.head_sha,
                    None => None,
                },
            },
            expected_sha: spec.expected_sha,
            expected_artifacts: spec.expected_artifacts,
            deadline: spec.deadline,
            deadline_exceeded_at: None,
            stale_after_secs: at_least_zero(spec.stale_after),
            status: WatchStatus::Watching,
            runtime_state: RuntimeState::Running,
            last_swarm_status: None,
            attempt: 1,
            retry: spec.retry,
            next_model: None,
            next_check_at: Some(now),
            active_check: None,
            repository: around.repository,
            artifacts: artifacts_seen(spec.expected_artifacts, around.present_artifacts),
            completion_evidence: Seq::empty(),
            created_at: now,
            updated_at: now,
            terminal_at: None,
            audit: Seq::empty(),
            terminal_delivery: None,
        },
        now,
        "registered"@,
        "durable watch registered"@,
    )
}

fn make_record(spec: WatchSpec, around: Surroundings, now: Timestamp) -> (res: WatchRecord)
    ensures
        res@ == fresh_record(spec@, around@, now),
{
    let baseline_sha = match &spec.baseline_sha {
        Some(sha) => Some(sha.clone()),
        None => match &around.repository {
            Some(repository) => copy_opt(&repository.head_sha),
            None => None,
        },
    };
    let artifacts = inspect_artifacts(&spec.expected_artifacts, &around.present_artifacts);
    let mut record = WatchRecord {
        job_id: spec.job_id,
        dedupe_key: spec.dedupe_key,
        owner_session_id: spec.owner_session_id,
        worker_session_id: spec.worker_session_id,
        process_id: spec.process_id,
        working_dir: spec.working_dir,
        baseline_sha,
        expected_sha: spec.expected_sha,
        expected_artifacts: spec.expected_artifacts,
        deadline: spec.deadline,
        deadline_exceeded_at: None,
        stale_after_secs: if spec.stale_after >= 0 {
            spec.stale_after
        } else {
            0
        },
        status: WatchStatus::Watching,
        runtime_state: RuntimeState::Running,
        last_swarm_status: None,
        attempt: 1,
        retry: spec.retry,
        next_model: None,
        next_check_at: Some(now),
        active_check: None,
        repository: around.repository,
        artifacts,
        completion_evidence: Vec::new(),
        created_at: now,
        updated_at: now,
        terminal_at: None,
        audit: Vec::new(),
        terminal_delivery: None,
    };
    assert(views(record.completion_evidence@) =~= Seq::<Seq<char>>::empty());
    assert(record@.audit =~= Seq::empty());
    push_audit(&mut record, now, "registered", "durable watch registered");
    record
}

/// Whether a record is active and stands for this dedupe key.
pub open spec fn active_for(r: RecordView, key: Seq<char>) -> bool {
    r.dedupe_key == key && !r.status.terminal()
}

/// Whether some active watch stands for this dedupe key.
pub open spec fn key_taken(reg: Registry, key: Seq<char>) -> bool {
    exists|id: Seq<char>| #[trigger] reg.dom().contains(id) && active_for(reg[id], key)
}

/// Whether `r` is the earliest active watch for this dedupe key.
pub open spec fn earliest_for(reg: Registry, key: Seq<char>, r: RecordView) -> bool {
    &&& reg.contains_pair(r.job_id, r)
    &&& active_for(r, key)
    &&& forall|id: Seq<char>| #[trigger]
        reg.dom().contains(id) && active_for(reg[id], key) ==> !reg[id].created_at.before(
            r.created_at,
        )
}

/// What an update makes of a record.
pub open spec fn updated(
    r: RecordView,
    update: WatchUpdateView,
    around: SurroundingsView,
    now: Timestamp,
) -> Result<RecordView, ErrorView> {
    if r.status.terminal() {
        Ok(r)
    } else if update.working_dir is Some && !is_absolute_spec(update.working_dir->0) {
        Err(ErrorView::RelativeWorkingDir)
    } else if update.expected_artifacts is Some && first_outside(
        update.expected_artifacts->0,
    ) is Some {
        Err(ErrorView::ArtifactOutside { path: first_outside(update.expected_artifacts->0)->0 })
    } else {
        let moved = match update.working_dir {
            Some(dir) => RecordView {
                working_dir: dir,
                repository: around.repository,
                baseline_sha: match around.repository {
                    Some(repository) => repository.head_sha,
                    None => None,
                },
                ..r
            },
            None => r,
        };
        let expecting = match update.expected_artifacts {
            Some(expected) => RecordView {
                expected_artifacts: expected,
                artifacts: artifacts_seen(expected, around.present_artifacts),
                ..moved
            },
            None => moved,
        };
        Ok(
            audited(
                RecordView {
                    worker_session_id: if update.worker_session_id is Some {
                        update.worker_session_id
                    } else {
                        r.worker_session_id
                    },
                    process_id: if update.process_id is Some {
                        update.process_id
                    } else {
                        r.process_id
                    },
                    expected_sha: if update.expected_sha is Some {
                        update.expected_sha
                    } else {
                        r.expected_sha
                    },
                    deadline: if update.deadline is Some {
                        update.deadline
                    } else {
                        r.deadline
                    },
                    stale_after_secs: match update.stale_after {
                        Some(secs) => at_least_zero(secs),
                        None => r.stale_after_secs,
                    },
                    retry: match update.retry {
                        Some(retry) => retry,
                        None => r.retry,
                    },
                    updated_at: now,
                    ..expecting
                },
                now,
                "configured"@,
                "watch expectations or retry policy updated"@,
            ),
        )
    }
}

fn apply_update(
    record: WatchRecord,
    update: WatchUpdate,
    around: Surroundings,
    now: Timestamp,
) -> (res: Result<WatchRecord, WatchError>)
    requires
        !record@.status.terminal(),
    ensures
        record_answer(res) == updated(record@, update@, around@, now),
{
    let ghost before = record@;
    if let Some(dir) = &update.working_dir {
        if !is_absolute(dir.as_str()) {
            return Err(WatchError::RelativeWorkingDir);
        }
    }
    if let Some(expected) = &update.expected_artifacts {
        if let Some(path) = outside_artifact(expected) {
            return Err(WatchError::ArtifactOutside { path });
        }
    }
    let mut record = record;
    if let Some(dir) = update.working_dir {
        record.working_dir = dir;
        record.baseline_sha = match &around.repository {
            Some(repository) => copy_opt(&repository.head_sha),
            None => None,
        };
        record.repository = around.repository;
    }
    if let Some(expected) = update.expected_artifacts {
        record.artifacts = inspect_artifacts(&expected, &around.present_artifacts);
        record.expected_artifacts = expected;
    }
    if update.worker_session_id.is_some() {
        record.worker_session_id = update.worker_session_id;
    }
    if update.process_id.is_some() {
        record.process_id = update.process_id;
    }
    if update.expected_sha.is_some() {
        record.expected_sha = update.expected_sha;
    }
    if update.deadline.is_some() {
        record.deadline = update.deadline;
    }
    if let Some(secs) = update.stale_after {
        record.stale_after_secs = if secs >= 0 {
            secs
        } else {
            0
        };
    }
    if let Some(retry) = update.retry {
        record.retry = retry;
    }
    record.updated_at = now;
    push_audit(
        &mut record,
        now,
        "configured",
        "watch expectations or retry policy updated",
    );
    Ok(record)
}

// ---------------------------------------------------------------------------
// Requests
// ---------------------------------------------------------------------------

/// The registry after a request to register a watch: nothing changes where the
/// request is refused or an active watch has the same dedupe key, else the new
/// watch stands under its job.
pub open spec fn after_register(
    reg: Registry,
    spec: WatchSpecView,
    around: SurroundingsView,
    now: Timestamp,
) -> Registry {
    if spec_problem(spec) is Some || key_taken(reg, spec.dedupe_key) {
        reg
    } else {
        reg.insert(spec.job_id, fresh_record(spec, around, now))
    }
}

/// Whether this is the answer to a request to register a watch: the problem,
/// the earliest active watch with the same dedupe key, or the new watch.
pub open spec fn answers_register(
    reg: Registry,
    spec: WatchSpecView,
    around: SurroundingsView,
    now: Timestamp,
    answer: Result<RecordView, ErrorView>,
) -> bool {
    match spec_problem(spec) {
        Some(e) => answer == Err::<RecordView, ErrorView>(e),
        None => if key_taken(reg, spec.dedupe_key) {
            answer matches Ok(r) && earliest_for(reg, spec.dedupe_key, r)
        } else {
            answer == Ok::<RecordView, ErrorView>(fresh_record(spec, around, now))
        },
    }
}

/// The registry and the answer after an update.
pub open spec fn after_update(
    reg: Registry,
    job: Seq<char>,
    update: WatchUpdateView,
    around: SurroundingsView,
    now: Timestamp,
) -> (Registry, Result<RecordView, ErrorView>) {
    match reg.get(job) {
        None => (reg, Err(ErrorView::UnknownWatch { job_id: job })),
        Some(r) => match updated(r, update, around, now) {
            Ok(after) => (reg.insert(job, after), Ok(after)),
            Err(e) => (reg, Err(e)),
        },
    }
}

/// The registry and the answer after an observation. A terminal watch stays as
/// it is.
pub open spec fn after_reconcile(
    reg: Registry,
    job: Seq<char>,
    obs: ObservationView,
    around: SurroundingsView,
    event_id: Seq<char>,
) -> (Registry, Result<RecordView, ErrorView>) {
    match reg.get(job) {
        None => (reg, Err(ErrorView::UnknownWatch { job_id: job })),
        Some(r) => if r.status.terminal() {
            (reg, Ok(r))
        } else {
            match first_outside(r.expected_artifacts) {
                Some(path) => (reg, Err(ErrorView::ArtifactOutside { path })),
                None => match reconciled(r, obs, around, event_id) {
                    Some(after) => (reg.insert(job, after), Ok(after)),
                    None => (reg, Err(ErrorView::TimeOutOfRange)),
                },
            }
        },
    }
}

/// Whether a watch may be checked now: it is active, its next check is due, and
/// nobody holds a lease on it.
pub open spec fn check_is_free(r: RecordView, now: Timestamp) -> bool {
    &&& !r.status.terminal()
    &&& r.next_check_at matches Some(due) ==> !now.before(due)
    &&& r.active_check matches Some(lease) ==> !now.before(lease.expires_at)
}

/// The registry and the answer after a request to check a watch.
pub open spec fn after_check_claim(
    reg: Registry,
    job: Seq<char>,
    claimant: Seq<char>,
    now: Timestamp,
    lease_id: Seq<char>,
) -> (Registry, Result<Option<LeaseView>, ErrorView>) {
    match reg.get(job) {
        None => (reg, Err(ErrorView::UnknownWatch { job_id: job })),
        Some(r) => if !check_is_free(r, now) {
            (reg, Ok(None))
        } else {
            match now.plus_spec(CHECK_LEASE_SECS as int) {
                None => (reg, Err(ErrorView::TimeOutOfRange)),
                Some(expires_at) => {
                    let lease = LeaseView { lease_id, claimant, claimed_at: now, expires_at };
                    let after = audited(
                        RecordView { active_check: Some(lease), updated_at: now, ..r },
                        now,
                        "check_claimed"@,
                        "check claimed by "@ + claimant,
                    );
                    (reg.insert(job, after), Ok(Some(lease)))
                },
            }
        },
    }
}

/// The registry and the answer after the end of a check. Only the lease that
/// was handed out ends it.
pub open spec fn after_check_finish(
    reg: Registry,
    job: Seq<char>,
    lease_id: Seq<char>,
    now: Timestamp,
) -> (Registry, Result<(), ErrorView>) {
    match reg.get(job) {
        None => (reg, Err(ErrorView::UnknownWatch { job_id: job })),
        Some(r) => if r.active_check is Some && r.active_check->0.lease_id == lease_id {
            (reg.insert(job, RecordView { active_check: None, updated_at: now, ..r }), Ok(()))
        } else {
            (reg, Ok(()))
        },
    }
}

/// The record of a watch whose next attempt runs.
pub open spec fn retry_started(
    r: RecordView,
    process_id: Option<u32>,
    now: Timestamp,
) -> RecordView {
    let attempt = if r.attempt < u32::MAX {
        (r.attempt + 1) as u32
    } else {
        r.attempt
    };
    audited(
        RecordView {
            attempt,
            process_id,
            status: WatchStatus::Watching,
            runtime_state: RuntimeState::Running,
            next_check_at: Some(now),
            updated_at: now,
            ..r
        },
        now,
        "retry_started"@,
        "retry attempt "@ + decimal_spec(attempt as nat) + " started"@,
    )
}

/// The registry and the answer after the start of a scheduled retry.
pub open spec fn after_retry_start(
    reg: Registry,
    job: Seq<char>,
    process_id: Option<u32>,
    now: Timestamp,
) -> (Registry, Result<RecordView, ErrorView>) {
    match reg.get(job) {
        None => (reg, Err(ErrorView::UnknownWatch { job_id: job })),
        Some(r) => if r.status is RetryScheduled {
            (
                reg.insert(job, retry_started(r, process_id, now)),
                Ok(retry_started(r, process_id, now)),
            )
        } else {
            (reg, Err(ErrorView::NoScheduledRetry { job_id: job }))
        },
    }
}

/// Whether a notification may be claimed now.
pub open spec fn delivery_is_free(state: DeliveryStateView, now: Timestamp) -> bool {
    match state {
        DeliveryStateView::Pending => true,
        DeliveryStateView::Claimed { expires_at, .. } => !now.before(expires_at),
        DeliveryStateView::Delivered { .. } => false,
    }
}

/// The registry and the answer after a request to deliver a notification.
pub open spec fn after_delivery_claim(
    reg: Registry,
    job: Seq<char>,
    claimant: Seq<char>,
    now: Timestamp,
) -> (Registry, Result<Option<ClaimView>, ErrorView>) {
    match reg.get(job) {
        None => (reg, Err(ErrorView::UnknownWatch { job_id: job })),
        Some(r) => if !r.status.terminal() {
            (reg, Ok(None))
        } else {
            match r.terminal_delivery {
                None => (reg, Err(ErrorView::NoDeliveryEvent { job_id: job })),
                Some(delivery) => if !delivery_is_free(delivery.state, now) {
                    (reg, Ok(None))
                } else {
                    match now.plus_spec(DELIVERY_LEASE_SECS as int) {
                        None => (reg, Err(ErrorView::TimeOutOfRange)),
                        Some(expires_at) => {
                            let after = audited(
                                RecordView {
                                    terminal_delivery: Some(
                                        DeliveryView {
                                            event_id: delivery.event_id,
                                            state: DeliveryStateView::Claimed {
                                                claimant,
                                                claimed_at: now,
                                                expires_at,
                                            },
                                        },
                                    ),
                                    updated_at: now,
                                    ..r
                                },
                                now,
                                "delivery_claimed"@,
                                "terminal delivery claimed by "@ + claimant,
                            );
                            let claim = ClaimView {
                                event_id: delivery.event_id,
                                job_id: r.job_id,
                                owner_session_id: r.owner_session_id,
                                status: r.status,
                                completion_evidence: r.completion_evidence,
                            };
                            (reg.insert(job, after), Ok(Some(claim)))
                        },
                    }
                },
            }
        },
    }
}

/// The record of a watch whose notification has arrived.
pub open spec fn delivered(
    r: RecordView,
    event_id: Seq<char>,
    now: Timestamp,
    detail: Seq<char>,
) -> RecordView {
    audited(
        RecordView {
            terminal_delivery: Some(
                DeliveryView {
                    event_id,
                    state: DeliveryStateView::Delivered { delivered_at: now },
                },
            ),
            updated_at: now,
            ..r
        },
        now,
        "delivered"@,
        detail,
    )
}

/// The registry and the answer after a notification is marked as delivered.
pub open spec fn after_delivery_mark(
    reg: Registry,
    job: Seq<char>,
    event_id: Seq<char>,
    now: Timestamp,
) -> (Registry, Result<(), ErrorView>) {
    match reg.get(job) {
        None => (reg, Err(ErrorView::UnknownWatch { job_id: job })),
        Some(r) => match r.terminal_delivery {
            None => (reg, Err(ErrorView::NoDeliveryEvent { job_id: job })),
            Some(delivery) => if delivery.event_id != event_id {
                (reg, Err(ErrorView::DeliveryMismatch { job_id: job }))
            } else if delivery.state is Delivered {
                (reg, Ok(()))
            } else {
                (
                    reg.insert(
                        job,
                        delivered(r, event_id, now, "terminal notification acknowledged"@),
                    ),
                    Ok(()),
                )
            },
        },
    }
}

/// Whether a claimed notification of this job waits for its acknowledgement.
pub open spec fn awaits_acknowledgement(reg: Registry, job: Seq<char>) -> bool {
    match reg.get(job) {
        Some(r) => match r.terminal_delivery {
            Some(delivery) => delivery.state is Claimed,
            None => false,
        },
        None => false,
    }
}

/// The registry and the answer after the claimed notification is acknowledged.
pub open spec fn after_acknowledge(reg: Registry, job: Seq<char>, now: Timestamp) -> (
    Registry,
    bool,
) {
    if awaits_acknowledgement(reg, job) {
        let r = reg[job];
        (
            reg.insert(
                job,
                delivered(
                    r,
                    r.terminal_delivery->0.event_id,
                    now,
                    "terminal notification acknowledged by server dispatch"@,
                ),
            ),
            true,
        )
    } else {
        (reg, false)
    }
}

/// The file that a record is kept in, below the registry's directory.
pub open spec fn record_path(dir: Seq<char>, job: Seq<char>) -> Seq<char> {
    path_join_spec(dir, full_hash_spec(job) + ".json"@)
}

/// The registry of all watches. Its directory is where the records are kept;
/// reading and writing them there is up to the caller.
pub struct OrchestrationWatchdog {
    root: String,
    store: WatchStore,
}

impl View for OrchestrationWatchdog {
    type V = Registry;

    closed spec fn view(&self) -> Registry {
        self.store@
    }
}

impl OrchestrationWatchdog {
    pub closed spec fn wf(&self) -> bool {
        self.store.wf()
    }

    /// The directory that the records are kept in.
    pub closed spec fn dir(&self) -> Seq<char> {
        self.root@
    }

    /// An empty registry below the directory for durable state.
    pub fn new(state_dir: &str) -> (res: Self)
        ensures
            res.wf(),
            res@ == Registry::empty(),
            res.dir() == path_join_spec(state_dir@, "orchestration-watchdog"@),
    {
        Self::with_root(path_join(state_dir, "orchestration-watchdog").as_str())
    }

    /// An empty registry in this directory.
    pub fn with_root(root: &str) -> (res: Self)
        ensures
            res.wf(),
            res@ == Registry::empty(),
            res.dir() == root@,
    {
        OrchestrationWatchdog { root: root.to_string(), store: WatchStore::new() }
    }

    /// Takes up a record that was kept in the directory.
    pub fn restore(&mut self, record: WatchRecord)
        requires
            old(self).wf(),
        ensures
            final(self).wf(),
            final(self).dir() == old(self).dir(),
            final(self)@ == old(self)@.insert(record@.job_id, record@),
    {
        self.store.put(record);
    }

    pub fn root(&self) -> (res: String)
        ensures
            res@ == self.dir(),
    {
        self.root.clone()
    }

    pub fn path_for(&self, job_id: &str) -> (res: String)
        ensures
            res@ == record_path(self.dir(), job_id@),
    {
        let name = full_hash(job_id).concat(".json");
        path_join(self.root.as_str(), name.as_str())
    }

    pub fn get(&self, job_id: &str) -> (res: Option<WatchRecord>)
        requires
            self.wf(),
        ensures
            match res {
                Some(r) => self@.get(job_id@) == Some(r@),
                None => self@.get(job_id@) is None,
            },
    {
        match self.store.get(job_id) {
            Some(record) => Some(record.clone()),
            None => None,
        }
    }

    /// All records, the earliest first.
    pub fn list(&self) -> (res: Vec<WatchRecord>)
        requires
            self.wf(),
        ensures
            lists_all(res@, self@),
    {
        self.store.list()
    }
}

impl OrchestrationWatchdog {
    /// The earliest active watch for a dedupe key.
    fn find_active(&self, key: &str) -> (res: Option<WatchRecord>)
        requires
            self.wf(),
        ensures
            match res {
                Some(r) => key_taken(self@, key@) && earliest_for(self@, key@, r@),
                None => !key_taken(self@, key@),
            },
    {
        let records = self.store.list();
        let mut i: usize = 0;
        while i < records.len()
            invariant
                lists_all(records@, self@),
                i <= records@.len(),
                forall|k: int| 0 <= k < i ==> !active_for((#[trigger] records@[k])@, key@),
            decreases records@.len() - i,
        {
            if same_text(records[i].dedupe_key.as_str(), key) && !records[i].status.is_terminal() {
                proof {
                    lemma_at(records@, i as int);
                    let found = records@[i as int]@;
                    assert forall|id: Seq<char>| #[trigger]
                        self@.dom().contains(id) && active_for(
                            self@[id],
                            key@,
                        ) implies !self@[id].created_at.before(found.created_at) by {
                        let j = lemma_position(records@, id);
                        assert(records@[j]@ == self@[id]);
                        if j == i as int {
                            assert(!found.created_at.before(found.created_at));
                        } else {
                            assert(j > i);
                            assert(!records@[j]@.created_at.before(records@[i as int]@.created_at));
                        }
                    }
                }
                return Some(records[i].clone());
            }
            i += 1;
        }
        proof {
            assert forall|id: Seq<char>| #[trigger]
                self@.dom().contains(id) implies !active_for(self@[id], key@) by {
                let j = lemma_position(records@, id);
                assert(records@[j]@ == self@[id]);
            }
        }
        None
    }

    /// Registers a watch at this instant.
    pub fn register_at(&mut self, spec: WatchSpec, around: Surroundings, now: Timestamp) -> (res:
        Result<WatchRecord, WatchError>)
        requires
            old(self).wf(),
        ensures
            final(self).wf(),
            final(self).dir() == old(self).dir(),
            final(self)@ == after_register(old(self)@, spec@, around@, now),
            answers_register(old(self)@, spec@, around@, now, record_answer(res)),
    {
        if let Err(e) = validate_spec(&spec) {
            return Err(e);
        }
        if let Some(existing) = self.find_active(spec.dedupe_key.as_str()) {
            return Ok(existing);
        }
        let record = make_record(spec, around, now);
        self.store.put(record.clone());
        Ok(record)
    }

    /// Registers a watch now.
    pub fn register(&mut self, spec: WatchSpec, around: Surroundings) -> (res: Result<
        WatchRecord,
        WatchError,
    >)
        requires
            old(self).wf(),
        ensures
            final(self).wf(),
            final(self).dir() == old(self).dir(),
            exists|now: Timestamp|
                now.valid() && final(self)@ == #[trigger] after_register(
                    old(self)@,
                    spec@,
                    around@,
                    now,
                ) && answers_register(old(self)@, spec@, around@, now, record_answer(res)),
    {
        let now = Timestamp::now();
        self.register_at(spec, around, now)
    }

    /// Changes what is expected of a watch, at this instant.
    pub fn update_at(
        &mut self,
        job_id: &str,
        update: WatchUpdate,
        around: Surroundings,
        now: Timestamp,
    ) -> (res: Result<WatchRecord, WatchError>)
        requires
            old(self).wf(),
        ensures
            final(self).wf(),
            final(self).dir() == old(self).dir(),
            (final(self)@, record_answer(res)) == after_update(
                old(self)@,
                job_id@,
                update@,
                around@,
                now,
            ),
    {
        let record = match self.store.get(job_id) {
            Some(record) => record.clone(),
            None => {
                return Err(WatchError::UnknownWatch { job_id: job_id.to_string() });
            },
        };
        if record.status.is_terminal() {
            assert(self@ =~= self@.insert(job_id@, record@));
            return Ok(record);
        }
        match apply_update(record, update, around, now) {
            Ok(after) => {
                self.store.put(after.clone());
                Ok(after)
            },
            Err(e) => Err(e),
        }
    }

    /// Changes what is expected of a watch, now.
    pub fn update(&mut self, job_id: &str, update: WatchUpdate, around: Surroundings) -> (res:
        Result<WatchRecord, WatchError>)
        requires
            old(self).wf(),
        ensures
            final(self).wf(),
            final(self).dir() == old(self).dir(),
            exists|now: Timestamp|
                now.valid() && (final(self)@, record_answer(res)) == #[trigger] after_update(
                    old(self)@,
                    job_id@,
                    update@,
                    around@,
                    now,
                ),
    {
        let now = Timestamp::now();
        self.update_at(job_id, update, around, now)
    }

    /// Takes in what was observed of a watch. A notification that becomes due
    /// gets this identifier.
    pub fn reconcile_with(
        &mut self,
        job_id: &str,
        observation: &ReconcileObservation,
        around: &Surroundings,
        event_id: String,
    ) -> (res: Result<WatchRecord, WatchError>)
        requires
            old(self).wf(),
        ensures
            final(self).wf(),
            final(self).dir() == old(self).dir(),
            (final(self)@, record_answer(res)) == after_reconcile(
                old(self)@,
                job_id@,
                observation@,
                around@,
                event_id@,
            ),
    {
        let record = match self.store.get(job_id) {
            Some(record) => record.clone(),
            None => {
                return Err(WatchError::UnknownWatch { job_id: job_id.to_string() });
            },
        };
        if record.status.is_terminal() {
            return Ok(record);
        }
        if let Some(path) = outside_artifact(&record.expected_artifacts) {
            return Err(WatchError::ArtifactOutside { path });
        }
        match reconcile_record(record, observation, around, event_id) {
            Some(after) => {
                self.store.put(after.clone());
                Ok(after)
            },
            None => Err(WatchError::TimeOutOfRange),
        }
    }

    /// Takes in what was observed of a watch. A notification that becomes due
    /// gets a fresh identifier.
    pub fn reconcile(
        &mut self,
        job_id: &str,
        observation: &ReconcileObservation,
        around: &Surroundings,
    ) -> (res: Result<WatchRecord, WatchError>)
        requires
            old(self).wf(),
        ensures
            final(self).wf(),
            final(self).dir() == old(self).dir(),
            exists|event_id: Seq<char>|
                is_uuid(event_id) && (final(self)@, record_answer(res)) == #[trigger] after_reconcile(
                    old(self)@,
                    job_id@,
                    observation@,
                    around@,
                    event_id,
                ),
    {
        let event_id = fresh_uuid();
        self.reconcile_with(job_id, observation, around, event_id)
    }

    /// Asks for the right to check a watch, at this instant.
    pub fn claim_due_check_at(
        &mut self,
        job_id: &str,
        claimant: &str,
        now: Timestamp,
        lease_id: String,
    ) -> (res: Result<Option<CheckLease>, WatchError>)
        requires
            old(self).wf(),
        ensures
            final(self).wf(),
            final(self).dir() == old(self).dir(),
            (final(self)@, lease_answer(res)) == after_check_claim(
                old(self)@,
                job_id@,
                claimant@,
                now,
                lease_id@,
            ),
    {
        let mut record = match self.store.get(job_id) {
            Some(record) => record.clone(),
            None => {
                return Err(WatchError::UnknownWatch { job_id: job_id.to_string() });
            },
        };
        if record.status.is_terminal() {
            return Ok(None);
        }
        if let Some(due) = &record.next_check_at {
            if now.is_before(due) {
                return Ok(None);
            }
        }
        if let Some(lease) = &record.active_check {
            if now.is_before(&lease.expires_at) {
                return Ok(None);
            }
        }
        let expires_at = match now.plus(CHECK_LEASE_SECS) {
            Some(expires_at) => expires_at,
            None => {
                return Err(WatchError::TimeOutOfRange);
            },
        };
        let lease = CheckLease {
            lease_id,
            claimant: claimant.to_string(),
            claimed_at: now,
            expires_at,
        };
        record.active_check = Some(lease.clone());
        record.updated_at = now;
        let detail = "check claimed by ".to_string().concat(claimant);
        push_audit(&mut record, now, "check_claimed", detail.as_str());
        self.store.put(record);
        Ok(Some(lease))
    }

    /// Asks for the right to check a watch, now.
    pub fn claim_due_check(&mut self, job_id: &str, claimant: &str) -> (res: Result<
        Option<CheckLease>,
        WatchError,
    >)
        requires
            old(self).wf(),
        ensures
            final(self).wf(),
            final(self).dir() == old(self).dir(),
            exists|now: Timestamp, lease_id: Seq<char>|
                now.valid() && is_uuid(lease_id) && (final(self)@, lease_answer(res))
                    == #[trigger] after_check_claim(
                    old(self)@,
                    job_id@,
                    claimant@,
                    now,
                    lease_id,
                ),
    {
        let now = Timestamp::now();
        let lease_id = fresh_uuid();
        self.claim_due_check_at(job_id, claimant, now, lease_id)
    }

    /// Gives the right to check a watch back, at this instant.
    pub fn finish_check_at(&mut self, job_id: &str, lease_id: &str, now: Timestamp) -> (res: Result<
        (),
        WatchError,
    >)
        requires
            old(self).wf(),
        ensures
            final(self).wf(),
            final(self).dir() == old(self).dir(),
            (final(self)@, unit_answer(res)) == after_check_finish(
                old(self)@,
                job_id@,
                lease_id@,
                now,
            ),
    {
        let mut record = match self.store.get(job_id) {
            Some(record) => record.clone(),
            None => {
                return Err(WatchError::UnknownWatch { job_id: job_id.to_string() });
            },
        };
        let held = match &record.active_check {
            Some(lease) => same_text(lease.lease_id.as_str(), lease_id),
            None => false,
        };
        if held {
            record.active_check = None;
            record.updated_at = now;
            self.store.put(record);
        }
        Ok(())
    }

    /// Gives the right to check a watch back, now.
    pub fn finish_check(&mut self, job_id: &str, lease_id: &str) -> (res: Result<(), WatchError>)
        requires
            old(self).wf(),
        ensures
            final(self).wf(),
            final(self).dir() == old(self).dir(),
            exists|now: Timestamp|
                now.valid() && (final(self)@, unit_answer(res)) == #[trigger] after_check_finish(
                    old(self)@,
                    job_id@,
                    lease_id@,
                    now,
                ),
    {
        let now = Timestamp::now();
        self.finish_check_at(job_id, lease_id, now)
    }

    /// Notes that the scheduled attempt runs, at this instant.
    pub fn mark_retry_started_at(
        &mut self,
        job_id: &str,
        process_id: Option<u32>,
        now: Timestamp,
    ) -> (res: Result<WatchRecord, WatchError>)
        requires
            old(self).wf(),
        ensures
            final(self).wf(),
            final(self).dir() == old(self).dir(),
            (final(self)@, record_answer(res)) == after_retry_start(
                old(self)@,
                job_id@,
                process_id,
                now,
            ),
    {
        let mut record = match self.store.get(job_id) {
            Some(record) => record.clone(),
            None => {
                return Err(WatchError::UnknownWatch { job_id: job_id.to_string() });
            },
        };
        if record.status != WatchStatus::RetryScheduled {
            return Err(WatchError::NoScheduledRetry { job_id: job_id.to_string() });
        }
        let attempt: u32 = if record.attempt < u32::MAX {
            record.attempt + 1
        } else {
            record.attempt
        };
        record.attempt = attempt;
        record.process_id = process_id;
        record.status = WatchStatus::Watching;
        record.runtime_state = RuntimeState::Running;
        record.next_check_at = Some(now);
        record.updated_at = now;
        let detail = "retry attempt ".to_string().concat(decimal(attempt as u64).as_str()).concat(
            " started",
        );
        push_audit(&mut record, now, "retry_started", detail.as_str());
        self.store.put(record.clone());
        Ok(record)
    }

    /// Notes that the scheduled attempt runs, now.
    pub fn mark_retry_started(&mut self, job_id: &str, process_id: Option<u32>) -> (res: Result<
        WatchRecord,
        WatchError,
    >)
        requires
            old(self).wf(),
        ensures
            final(self).wf(),
            final(self).dir() == old(self).dir(),
            exists|now: Timestamp|
                now.valid() && (final(self)@, record_answer(res)) == #[trigger] after_retry_start(
                    old(self)@,
                    job_id@,
                    process_id,
                    now,
                ),
    {
        let now = Timestamp::now();
        self.mark_retry_started_at(job_id, process_id, now)
    }

    /// Asks for the right to deliver a notification, at this instant.
    pub fn claim_terminal_delivery_at(&mut self, job_id: &str, claimant: &str, now: Timestamp) -> (
    res: Result<Option<DeliveryClaim>, WatchError>)
        requires
            old(self).wf(),
        ensures
            final(self).wf(),
            final(self).dir() == old(self).dir(),
            (final(self)@, claim_answer(res)) == after_delivery_claim(
                old(self)@,
                job_id@,
                claimant@,
                now,
            ),
    {
        let mut record = match self.store.get(job_id) {
            Some(record) => record.clone(),
            None => {
                return Err(WatchError::UnknownWatch { job_id: job_id.to_string() });
            },
        };
        if !record.status.is_terminal() {
            return Ok(None);
        }
        let event_id = match &record.terminal_delivery {
            Some(delivery) => {
                let free = match &delivery.state {
                    DeliveryState::Pending => true,
                    DeliveryState::Claimed { expires_at, .. } => !now.is_before(expires_at),
                    DeliveryState::Delivered { .. } => false,
                };
                if !free {
                    return Ok(None);
                }
                delivery.event_id.clone()
            },
            None => {
                return Err(WatchError::NoDeliveryEvent { job_id: job_id.to_string() });
            },
        };
        let expires_at = match now.plus(DELIVERY_LEASE_SECS) {
            Some(expires_at) => expires_at,
            None => {
                return Err(WatchError::TimeOutOfRange);
            },
        };
        let claim = DeliveryClaim {
            event_id: event_id.clone(),
            job_id: record.job_id.clone(),
            owner_session_id: record.owner_session_id.clone(),
            status: record.status,
            completion_evidence: copy_texts(&record.completion_evidence),
        };
        record.terminal_delivery = Some(
            TerminalDelivery {
                event_id,
                state: DeliveryState::Claimed {
                    claimant: claimant.to_string(),
                    claimed_at: now,
                    expires_at,
                },
            },
        );
        record.updated_at = now;
        let detail = "terminal delivery claimed by ".to_string().concat(claimant);
        push_audit(&mut record, now, "delivery_claimed", detail.as_str());
        self.store.put(record);
        Ok(Some(claim))
    }

    /// Asks for the right to deliver a notification, now.
    pub fn claim_terminal_delivery(&mut self, job_id: &str, claimant: &str) -> (res: Result<
        Option<DeliveryClaim>,
        WatchError,
    >)
        requires
            old(self).wf(),
        ensures
            final(self).wf(),
            final(self).dir() == old(self).dir(),
            exists|now: Timestamp|
                now.valid() && (final(self)@, claim_answer(res)) == #[trigger] after_delivery_claim(
                    old(self)@,
                    job_id@,
                    claimant@,
                    now,
                ),
    {
        let now = Timestamp::now();
        self.claim_terminal_delivery_at(job_id, claimant, now)
    }

    /// Notes that this notification has arrived, at this instant.
    pub fn mark_terminal_delivered_at(&mut self, job_id: &str, event_id: &str, now: Timestamp) -> (
    res: Result<(), WatchError>)
        requires
            old(self).wf(),
        ensures
            final(self).wf(),
            final(self).dir() == old(self).dir(),
            (final(self)@, unit_answer(res)) == after_delivery_mark(
                old(self)@,
                job_id@,
                event_id@,
                now,
            ),
    {
        let mut record = match self.store.get(job_id) {
            Some(record) => record.clone(),
            None => {
                return Err(WatchError::UnknownWatch { job_id: job_id.to_string() });
            },
        };
        match &record.terminal_delivery {
            Some(delivery) => {
                if !same_text(delivery.event_id.as_str(), event_id) {
                    return Err(WatchError::DeliveryMismatch { job_id: job_id.to_string() });
                }
                if matches!(delivery.state, DeliveryState::Delivered { .. }) {
                    return Ok(());
                }
            },
            None => {
                return Err(WatchError::NoDeliveryEvent { job_id: job_id.to_string() });
            },
        }
        record.terminal_delivery = Some(
            TerminalDelivery {
                event_id: event_id.to_string(),
                state: DeliveryState::Delivered { delivered_at: now },
            },
        );
        record.updated_at = now;
        push_audit(&mut record, now, "delivered", "terminal notification acknowledged");
        self.store.put(record);
        Ok(())
    }

    /// Notes that this notification has arrived, now.
    pub fn mark_terminal_delivered(&mut self, job_id: &str, event_id: &str) -> (res: Result<
        (),
        WatchError,
    >)
        requires
            old(self).wf(),
        ensures
            final(self).wf(),
            final(self).dir() == old(self).dir(),
            exists|now: Timestamp|
                now.valid() && (final(self)@, unit_answer(res)) == #[trigger] after_delivery_mark(
                    old(self)@,
                    job_id@,
                    event_id@,
                    now,
                ),
    {
        let now = Timestamp::now();
        self.mark_terminal_delivered_at(job_id, event_id, now)
    }

    /// Acknowledges the claimed notification of a job, at this instant. Says
    /// whether there was one.
    pub fn acknowledge_claimed_delivery_at(&mut self, job_id: &str, now: Timestamp) -> (res: bool)
        requires
            old(self).wf(),
        ensures
            final(self).wf(),
            final(self).dir() == old(self).dir(),
            (final(self)@, res) == after_acknowledge(old(self)@, job_id@, now),
    {
        let mut record = match self.store.get(job_id) {
            Some(record) => record.clone(),
            None => {
                return false;
            },
        };
        let event_id = match &record.terminal_delivery {
            Some(delivery) => {
                if !matches!(delivery.state, DeliveryState::Claimed { .. }) {
                    return false;
                }
                delivery.event_id.clone()
            },
            None => {
                return false;
            },
        };
        record.terminal_delivery = Some(
            TerminalDelivery { event_id, state: DeliveryState::Delivered { delivered_at: now } },
        );
        record.updated_at = now;
        push_audit(
            &mut record,
            now,
            "delivered",
            "terminal notification acknowledged by server dispatch",
        );
        self.store.put(record);
        true
    }

    /// Acknowledges the claimed notification of a job after the server has
    /// handed it on. Says whether there was one.
    pub fn acknowledge_claimed_delivery(&mut self, job_id: &str) -> (res: bool)
        requires
            old(self).wf(),
        ensures
            final(self).wf(),
            final(self).dir() == old(self).dir(),
            exists|now: Timestamp|
                now.valid() && (final(self)@, res) == #[trigger] after_acknowledge(
                    old(self)@,
                    job_id@,
                    now,
                ),
    {
        let now = Timestamp::now();
        self.acknowledge_claimed_delivery_at(job_id, now)
    }

    /// Drops the terminal watches that were not touched since the cutoff, and
    /// counts them.
    pub fn cleanup_terminal_before(&mut self, cutoff: Timestamp) -> (res: usize)
        requires
            old(self).wf(),
        ensures
            final(self).wf(),
            final(self).dir() == old(self).dir(),
            final(self)@ == unexpired(old(self)@, cutoff),
            res == old(self)@.dom().len() - final(self)@.dom().len(),
    {
        self.store.remove_expired(cutoff).len()
    }
}

} // verus!
