//! What a watch is made of, and the mathematical view of each part.

use vstd::prelude::*;

use crate::clock::Timestamp;
use crate::text::{copy_opt, copy_texts, opt_view, views};

verus! {

/// How far a watch has come.
#[derive(Debug, Clone, Copy, PartialEq, Eq, Structural)]
pub enum WatchStatus {
    Watching,
    RetryScheduled,
    Completed,
    Failed,
    Stale,
}

impl WatchStatus {
    pub open spec fn terminal(self) -> bool {
        self is Completed || self is Failed || self is Stale
    }

    pub fn is_terminal(&self) -> (res: bool)
        ensures
            res == self.terminal(),
    {
        matches!(self, WatchStatus::Completed | WatchStatus::Failed | WatchStatus::Stale)
    }
}

/// What the runtime reports of a worker.
#[derive(Debug, Clone, Copy, PartialEq, Eq, Structural)]
pub enum RuntimeState {
    Running,
    Completed,
    Failed,
    Unknown,
    OwnershipLost,
}

/// A file that a job is expected to leave below its working directory.
#[derive(Debug)]
pub struct ArtifactExpectation {
    pub path: String,
    pub required: bool,
}

#[verifier::ext_equal]
pub struct ExpectationView {
    pub path: Seq<char>,
    pub required: bool,
}

impl View for ArtifactExpectation {
    type V = ExpectationView;

    open spec fn view(&self) -> ExpectationView {
        ExpectationView { path: self.path@, required: self.required }
    }
}

pub open spec fn expectation_views(v: Seq<ArtifactExpectation>) -> Seq<ExpectationView> {
    v.map_values(|e: ArtifactExpectation| e@)
}

impl Clone for ArtifactExpectation {
    fn clone(&self) -> (res: Self)
        ensures
            res == *self,
    {
        ArtifactExpectation { path: self.path.clone(), required: self.required }
    }
}

impl ArtifactExpectation {
    pub fn required(path: &str) -> (res: Self)
        ensures
            res@ == (ExpectationView { path: path@, required: true }),
    {
        ArtifactExpectation { path: path.to_string(), required: true }
    }

    pub fn optional(path: &str) -> (res: Self)
        ensures
            res@ == (ExpectationView { path: path@, required: false }),
    {
        ArtifactExpectation { path: path.to_string(), required: false }
    }
}

/// When and how often a failed job is tried again.
#[derive(Debug)]
pub struct RetryPolicy {
    pub max_attempts: u32,
    pub initial_backoff_secs: u64,
    pub max_backoff_secs: u64,
    pub model_fallbacks: Vec<String>,
}

#[verifier::ext_equal]
pub struct RetryView {
    pub max_attempts: u32,
    pub initial_backoff_secs: u64,
    pub max_backoff_secs: u64,
    pub model_fallbacks: Seq<Seq<char>>,
}

impl View for RetryPolicy {
    type V = RetryView;

    open spec fn view(&self) -> RetryView {
        RetryView {
            max_attempts: self.max_attempts,
            initial_backoff_secs: self.initial_backoff_secs,
            max_backoff_secs: self.max_backoff_secs,
            model_fallbacks: views(self.model_fallbacks@),
        }
    }
}

impl Clone for RetryPolicy {
    fn clone(&self) -> (res: Self)
        ensures
            res@ == self@,
    {
        RetryPolicy {
            max_attempts: self.max_attempts,
            initial_backoff_secs: self.initial_backoff_secs,
            max_backoff_secs: self.max_backoff_secs,
            model_fallbacks: copy_texts(&self.model_fallbacks),
        }
    }
}

/// One attempt, thirty seconds of backoff up to a quarter of an hour, and no
/// other model.
pub open spec fn default_retry() -> RetryView {
    RetryView {
        max_attempts: 1,
        initial_backoff_secs: 30,
        max_backoff_secs: 900,
        model_fallbacks: Seq::empty(),
    }
}

impl Default for RetryPolicy {
    fn default() -> (res: Self)
        ensures
            res@ == default_retry(),
    {
        let res = RetryPolicy {
            max_attempts: 1,
            initial_backoff_secs: 30,
            max_backoff_secs: 900,
            model_fallbacks: Vec::new(),
        };
        assert(res@ =~= default_retry());
        res
    }
}

/// What a caller asks to have watched. `stale_after` counts whole seconds.
#[derive(Debug)]
pub struct WatchSpec {
    pub job_id: String,
    pub dedupe_key: String,
    pub owner_session_id: String,
    pub worker_session_id: Option<String>,
    pub process_id: Option<u32>,
    pub working_dir: String,
    pub baseline_sha: Option<String>,
    pub expected_sha: Option<String>,
    pub expected_artifacts: Vec<ArtifactExpectation>,
    pub deadline: Option<Timestamp>,
    pub stale_after: i64,
    pub retry: RetryPolicy,
}

#[verifier::ext_equal]
pub struct WatchSpecView {
    pub job_id: Seq<char>,
    pub dedupe_key: Seq<char>,
    pub owner_session_id: Seq<char>,
    pub worker_session_id: Option<Seq<char>>,
    pub process_id: Option<u32>,
    pub working_dir: Seq<char>,
    pub baseline_sha: Option<Seq<char>>,
    pub expected_sha: Option<Seq<char>>,
    pub expected_artifacts: Seq<ExpectationView>,
    pub deadline: Option<Timestamp>,
    pub stale_after: i64,
    pub retry: RetryView,
}

impl View for WatchSpec {
    type V = WatchSpecView;

    open spec fn view(&self) -> WatchSpecView {
        WatchSpecView {
            job_id: self.job_id@,
            dedupe_key: self.dedupe_key@,
            owner_session_id: self.owner_session_id@,
            worker_session_id: opt_view(self.worker_session_id),
            process_id: self.process_id,
            working_dir: self.working_dir@,
            baseline_sha: opt_view(self.baseline_sha),
            expected_sha: opt_view(self.expected_sha),
            expected_artifacts: expectation_views(self.expected_artifacts@),
            deadline: self.deadline,
            stale_after: self.stale_after,
            retry: self.retry@,
        }
    }
}

/// What a caller changes of a watch: each field that is given.
#[derive(Debug)]
pub struct WatchUpdate {
    pub worker_session_id: Option<String>,
    pub process_id: Option<u32>,
    pub working_dir: Option<String>,
    pub expected_sha: Option<String>,
    pub expected_artifacts: Option<Vec<ArtifactExpectation>>,
    pub deadline: Option<Timestamp>,
    pub stale_after: Option<i64>,
    pub retry: Option<RetryPolicy>,
}

#[verifier::ext_equal]
pub struct WatchUpdateView {
    pub worker_session_id: Option<Seq<char>>,
    pub process_id: Option<u32>,
    pub working_dir: Option<Seq<char>>,
    pub expected_sha: Option<Seq<char>>,
    pub expected_artifacts: Option<Seq<ExpectationView>>,
    pub deadline: Option<Timestamp>,
    pub stale_after: Option<i64>,
    pub retry: Option<RetryView>,
}

impl View for WatchUpdate {
    type V = WatchUpdateView;

    open spec fn view(&self) -> WatchUpdateView {
        WatchUpdateView {
            worker_session_id: opt_view(self.worker_session_id),
            process_id: self.process_id,
            working_dir: opt_view(self.working_dir),
            expected_sha: opt_view(self.expected_sha),
            expected_artifacts: match self.expected_artifacts {
                Some(list) => Some(expectation_views(list@)),
                None => None,
            },
            deadline: self.deadline,
            stale_after: self.stale_after,
            retry: match self.retry {
                Some(retry) => Some(retry@),
                None => None,
            },
        }
    }
}

/// An update that changes nothing.
pub open spec fn no_update() -> WatchUpdateView {
    WatchUpdateView {
        worker_session_id: None,
        process_id: None,
        working_dir: None,
        expected_sha: None,
        expected_artifacts: None,
        deadline: None,
        stale_after: None,
        retry: None,
    }
}

impl Default for WatchUpdate {
    fn default() -> (res: Self)
        ensures
            res@ == no_update(),
    {
        WatchUpdate {
            worker_session_id: None,
            process_id: None,
            working_dir: None,
            expected_sha: None,
            expected_artifacts: None,
            deadline: None,
            stale_after: None,
            retry: None,
        }
    }
}

/// What a look at the repository showed.
#[derive(Debug)]
pub struct RepositorySnapshot {
    pub head_sha: Option<String>,
    pub dirty: bool,
    pub status_summary: String,
}

#[verifier::ext_equal]
pub struct RepositoryView {
    pub head_sha: Option<Seq<char>>,
    pub dirty: bool,
    pub status_summary: Seq<char>,
}

impl View for RepositorySnapshot {
    type V = RepositoryView;

    open spec fn view(&self) -> RepositoryView {
        RepositoryView {
            head_sha: opt_view(self.head_sha),
            dirty: self.dirty,
            status_summary: self.status_summary@,
        }
    }
}

pub open spec fn repository_view(r: Option<RepositorySnapshot>) -> Option<RepositoryView> {
    match r {
        Some(r) => Some(r@),
        None => None,
    }
}

impl Clone for RepositorySnapshot {
    fn clone(&self) -> (res: Self)
        ensures
            res == *self,
    {
        RepositorySnapshot {
            head_sha: copy_opt(&self.head_sha),
            dirty: self.dirty,
            status_summary: self.status_summary.clone(),
        }
    }
}

/// What a look for one expected file showed.
#[derive(Debug)]
pub struct ArtifactSnapshot {
    pub path: String,
    pub required: bool,
    pub exists: bool,
}

#[verifier::ext_equal]
pub struct ArtifactView {
    pub path: Seq<char>,
    pub required: bool,
    pub exists: bool,
}

impl View for ArtifactSnapshot {
    type V = ArtifactView;

    open spec fn view(&self) -> ArtifactView {
        ArtifactView { path: self.path@, required: self.required, exists: self.exists }
    }
}

pub open spec fn artifact_views(v: Seq<ArtifactSnapshot>) -> Seq<ArtifactView> {
    v.map_values(|a: ArtifactSnapshot| a@)
}

impl Clone for ArtifactSnapshot {
    fn clone(&self) -> (res: Self)
        ensures
            res == *self,
    {
        ArtifactSnapshot {
            path: self.path.clone(),
            required: self.required,
            exists: self.exists,
        }
    }
}

/// One entry of a watch's history.
#[derive(Debug)]
pub struct AuditEvent {
    pub at: Timestamp,
    pub kind: String,
    pub detail: String,
}

#[verifier::ext_equal]
pub struct AuditView {
    pub at: Timestamp,
    pub kind: Seq<char>,
    pub detail: Seq<char>,
}

impl View for AuditEvent {
    type V = AuditView;

    open spec fn view(&self) -> AuditView {
        AuditView { at: self.at, kind: self.kind@, detail: self.detail@ }
    }
}

pub open spec fn audit_views(v: Seq<AuditEvent>) -> Seq<AuditView> {
    v.map_values(|e: AuditEvent| e@)
}

impl Clone for AuditEvent {
    fn clone(&self) -> (res: Self)
        ensures
            res == *self,
    {
        AuditEvent { at: self.at, kind: self.kind.clone(), detail: self.detail.clone() }
    }
}

/// The right to check a watch, until it expires.
#[derive(Debug)]
pub struct CheckLease {
    pub lease_id: String,
    pub claimant: String,
    pub claimed_at: Timestamp,
    pub expires_at: Timestamp,
}

#[verifier::ext_equal]
pub struct LeaseView {
    pub lease_id: Seq<char>,
    pub claimant: Seq<char>,
    pub claimed_at: Timestamp,
    pub expires_at: Timestamp,
}

impl View for CheckLease {
    type V = LeaseView;

    open spec fn view(&self) -> LeaseView {
        LeaseView {
            lease_id: self.lease_id@,
            claimant: self.claimant@,
            claimed_at: self.claimed_at,
            expires_at: self.expires_at,
        }
    }
}

pub open spec fn lease_view(l: Option<CheckLease>) -> Option<LeaseView> {
    match l {
        Some(l) => Some(l@),
        None => None,
    }
}

impl Clone for CheckLease {
    fn clone(&self) -> (res: Self)
        ensures
            res == *self,
    {
        CheckLease {
            lease_id: self.lease_id.clone(),
            claimant: self.claimant.clone(),
            claimed_at: self.claimed_at,
            expires_at: self.expires_at,
        }
    }
}

/// Where the notification of a terminal watch stands.
#[derive(Debug)]
pub enum DeliveryState {
    Pending,
    Claimed { claimant: String, claimed_at: Timestamp, expires_at: Timestamp },
    Delivered { delivered_at: Timestamp },
}

#[verifier::ext_equal]
pub enum DeliveryStateView {
    Pending,
    Claimed { claimant: Seq<char>, claimed_at: Timestamp, expires_at: Timestamp },
    Delivered { delivered_at: Timestamp },
}

impl View for DeliveryState {
    type V = DeliveryStateView;

    open spec fn view(&self) -> DeliveryStateView {
        match self {
            DeliveryState::Pending => DeliveryStateView::Pending,
            DeliveryState::Claimed { claimant, claimed_at, expires_at } =>
                DeliveryStateView::Claimed {
                    claimant: claimant@,
                    claimed_at: *claimed_at,
                    expires_at: *expires_at,
                },
            DeliveryState::Delivered { delivered_at } => DeliveryStateView::Delivered {
                delivered_at: *delivered_at,
            },
        }
    }
}

impl Clone for DeliveryState {
    fn clone(&self) -> (res: Self)
        ensures
            res == *self,
    {
        match self {
            DeliveryState::Pending => DeliveryState::Pending,
            DeliveryState::Claimed { claimant, claimed_at, expires_at } => DeliveryState::Claimed {
                claimant: claimant.clone(),
                claimed_at: *claimed_at,
                expires_at: *expires_at,
            },
            DeliveryState::Delivered { delivered_at } => DeliveryState::Delivered {
                delivered_at: *delivered_at,
            },
        }
    }
}

/// The notification that a terminal watch owes its owner.
#[derive(Debug)]
pub struct TerminalDelivery {
    pub event_id: String,
    pub state: DeliveryState,
}

#[verifier::ext_equal]
pub struct DeliveryView {
    pub event_id: Seq<char>,
    pub state: DeliveryStateView,
}

impl View for TerminalDelivery {
    type V = DeliveryView;

    open spec fn view(&self) -> DeliveryView {
        DeliveryView { event_id: self.event_id@, state: self.state@ }
    }
}

pub open spec fn delivery_view(d: Option<TerminalDelivery>) -> Option<DeliveryView> {
    match d {
        Some(d) => Some(d@),
        None => None,
    }
}

impl Clone for TerminalDelivery {
    fn clone(&self) -> (res: Self)
        ensures
            res == *self,
    {
        TerminalDelivery { event_id: self.event_id.clone(), state: self.state.clone() }
    }
}

/// Everything that is known of one watched job.
#[derive(Debug)]
pub struct WatchRecord {
    pub job_id: String,
    pub dedupe_key: String,
    pub owner_session_id: String,
    pub worker_session_id: Option<String>,
    pub process_id: Option<u32>,
    pub working_dir: String,
    pub baseline_sha: Option<String>,
    pub expected_sha: Option<String>,
    pub expected_artifacts: Vec<ArtifactExpectation>,
    pub deadline: Option<Timestamp>,
    pub deadline_exceeded_at: Option<Timestamp>,
    pub stale_after_secs: i64,
    pub status: WatchStatus,
    pub runtime_state: RuntimeState,
    pub last_swarm_status: Option<String>,
    pub attempt: u32,
    pub retry: RetryPolicy,
    pub next_model: Option<String>,
    pub next_check_at: Option<Timestamp>,
    pub active_check: Option<CheckLease>,
    pub repository: Option<RepositorySnapshot>,
    pub artifacts: Vec<ArtifactSnapshot>,
    pub completion_evidence: Vec<String>,
    pub created_at: Timestamp,
    pub updated_at: Timestamp,
    pub terminal_at: Option<Timestamp>,
    pub audit: Vec<AuditEvent>,
    pub terminal_delivery: Option<TerminalDelivery>,
}

#[verifier::ext_equal]
pub struct RecordView {
    pub job_id: Seq<char>,
    pub dedupe_key: Seq<char>,
    pub owner_session_id: Seq<char>,
    pub worker_session_id: Option<Seq<char>>,
    pub process_id: Option<u32>,
    pub working_dir: Seq<char>,
    pub baseline_sha: Option<Seq<char>>,
    pub expected_sha: Option<Seq<char>>,
    pub expected_artifacts: Seq<ExpectationView>,
    pub deadline: Option<Timestamp>,
    pub deadline_exceeded_at: Option<Timestamp>,
    pub stale_after_secs: i64,
    pub status: WatchStatus,
    pub runtime_state: RuntimeState,
    pub last_swarm_status: Option<Seq<char>>,
    pub attempt: u32,
    pub retry: RetryView,
    pub next_model: Option<Seq<char>>,
    pub next_check_at: Option<Timestamp>,
    pub active_check: Option<LeaseView>,
    pub repository: Option<RepositoryView>,
    pub artifacts: Seq<ArtifactView>,
    pub completion_evidence: Seq<Seq<char>>,
    pub created_at: Timestamp,
    pub updated_at: Timestamp,
    pub terminal_at: Option<Timestamp>,
    pub audit: Seq<AuditView>,
    pub terminal_delivery: Option<DeliveryView>,
}

impl View for WatchRecord {
    type V = RecordView;

    open spec fn view(&self) -> RecordView {
        RecordView {
            job_id: self.job_id@,
            dedupe_key: self.dedupe_key@,
            owner_session_id: self.owner_session_id@,
            worker_session_id: opt_view(self.worker_session_id),
            process_id: self.process_id,
            working_dir: self.working_dir@,
            baseline_sha: opt_view(self.baseline_sha),
            expected_sha: opt_view(self.expected_sha),
            expected_artifacts: expectation_views(self.expected_artifacts@),
            deadline: self.deadline,
            deadline_exceeded_at: self.deadline_exceeded_at,
            stale_after_secs: self.stale_after_secs,
            status: self.status,
            runtime_state: self.runtime_state,
            last_swarm_status: opt_view(self.last_swarm_status),
            attempt: self.attempt,
            retry: self.retry@,
            next_model: opt_view(self.next_model),
            next_check_at: self.next_check_at,
            active_check: lease_view(self.active_check),
            repository: repository_view(self.repository),
            artifacts: artifact_views(self.artifacts@),
            completion_evidence: views(self.completion_evidence@),
            created_at: self.created_at,
            updated_at: self.updated_at,
            terminal_at: self.terminal_at,
            audit: audit_views(self.audit@),
            terminal_delivery: delivery_view(self.terminal_delivery),
        }
    }
}

impl Clone for WatchRecord {
    fn clone(&self) -> (res: Self)
        ensures
            res@ == self@,
    {
        let res = WatchRecord {
            job_id: self.job_id.clone(),
            dedupe_key: self.dedupe_key.clone(),
            owner_session_id: self.owner_session_id.clone(),
            worker_session_id: copy_opt(&self.worker_session_id),
            process_id: self.process_id,
            working_dir: self.working_dir.clone(),
            baseline_sha: copy_opt(&self.baseline_sha),
            expected_sha: copy_opt(&self.expected_sha),
            expected_artifacts: self.expected_artifacts.clone(),
            deadline: self.deadline,
            deadline_exceeded_at: self.deadline_exceeded_at,
            stale_after_secs: self.stale_after_secs,
            status: self.status,
            runtime_state: self.runtime_state,
            last_swarm_status: copy_opt(&self.last_swarm_status),
            attempt: self.attempt,
            retry: self.retry.clone(),
            next_model: copy_opt(&self.next_model),
            next_check_at: self.next_check_at,
            active_check: match &self.active_check {
                Some(lease) => Some(lease.clone()),
                None => None,
            },
            repository: match &self.repository {
                Some(repository) => Some(repository.clone()),
                None => None,
            },
            artifacts: self.artifacts.clone(),
            completion_evidence: copy_texts(&self.completion_evidence),
            created_at: self.created_at,
            updated_at: self.updated_at,
            terminal_at: self.terminal_at,
            audit: self.audit.clone(),
            terminal_delivery: match &self.terminal_delivery {
                Some(delivery) => Some(delivery.clone()),
                None => None,
            },
        };
        assert(res.expected_artifacts@ =~= self.expected_artifacts@);
        assert(res.artifacts@ =~= self.artifacts@);
        assert(res.audit@ =~= self.audit@);
        res
    }
}

/// What one look at a running job showed.
#[derive(Debug)]
pub struct ReconcileObservation {
    pub runtime_state: RuntimeState,
    pub process_running: Option<bool>,
    pub swarm_status: Option<String>,
    pub retries_exhausted: bool,
    pub observed_at: Timestamp,
}

#[verifier::ext_equal]
pub struct ObservationView {
    pub runtime_state: RuntimeState,
    pub process_running: Option<bool>,
    pub swarm_status: Option<Seq<char>>,
    pub retries_exhausted: bool,
    pub observed_at: Timestamp,
}

impl View for ReconcileObservation {
    type V = ObservationView;

    open spec fn view(&self) -> ObservationView {
        ObservationView {
            runtime_state: self.runtime_state,
            process_running: self.process_running,
            swarm_status: opt_view(self.swarm_status),
            retries_exhausted: self.retries_exhausted,
            observed_at: self.observed_at,
        }
    }
}

impl ReconcileObservation {
    /// An observation of the runtime alone, at this moment.
    pub fn runtime(runtime_state: RuntimeState) -> (res: Self)
        ensures
            res@ == (ObservationView {
                runtime_state,
                process_running: None,
                swarm_status: None,
                retries_exhausted: false,
                observed_at: res.observed_at,
            }),
            res.observed_at.valid(),
            res.observed_at.nanos < 1_000_000_000,
    {
        ReconcileObservation {
            runtime_state,
            process_running: None,
            swarm_status: None,
            retries_exhausted: false,
            observed_at: Timestamp::now(),
        }
    }
}

/// What the machine around a watch shows: its repository, those of its
/// expected files that exist, and whether its recorded process runs.
#[derive(Debug)]
pub struct Surroundings {
    pub repository: Option<RepositorySnapshot>,
    pub present_artifacts: Vec<String>,
    pub process_running: bool,
}

#[verifier::ext_equal]
pub struct SurroundingsView {
    pub repository: Option<RepositoryView>,
    pub present_artifacts: Seq<Seq<char>>,
    pub process_running: bool,
}

impl View for Surroundings {
    type V = SurroundingsView;

    open spec fn view(&self) -> SurroundingsView {
        SurroundingsView {
            repository: repository_view(self.repository),
            present_artifacts: views(self.present_artifacts@),
            process_running: self.process_running,
        }
    }
}

/// What the holder of a delivery claim is to tell the owner.
#[derive(Debug)]
pub struct DeliveryClaim {
    pub event_id: String,
    pub job_id: String,
    pub owner_session_id: String,
    pub status: WatchStatus,
    pub completion_evidence: Vec<String>,
}

#[verifier::ext_equal]
pub struct ClaimView {
    pub event_id: Seq<char>,
    pub job_id: Seq<char>,
    pub owner_session_id: Seq<char>,
    pub status: WatchStatus,
    pub completion_evidence: Seq<Seq<char>>,
}

impl View for DeliveryClaim {
    type V = ClaimView;

    open spec fn view(&self) -> ClaimView {
        ClaimView {
            event_id: self.event_id@,
            job_id: self.job_id@,
            owner_session_id: self.owner_session_id@,
            status: self.status,
            completion_evidence: views(self.completion_evidence@),
        }
    }
}

/// Why a request to the registry was refused.
#[derive(Debug)]
pub enum WatchError {
    BlankJobId,
    BlankDedupeKey,
    BlankOwnerSessionId,
    RelativeWorkingDir,
    ArtifactOutside { path: String },
    UnknownWatch { job_id: String },
    NoScheduledRetry { job_id: String },
    NoDeliveryEvent { job_id: String },
    DeliveryMismatch { job_id: String },
    /// An instant that the request needs lies outside the calendar.
    TimeOutOfRange,
}

#[verifier::ext_equal]
pub enum ErrorView {
    BlankJobId,
    BlankDedupeKey,
    BlankOwnerSessionId,
    RelativeWorkingDir,
    ArtifactOutside { path: Seq<char> },
    UnknownWatch { job_id: Seq<char> },
    NoScheduledRetry { job_id: Seq<char> },
    NoDeliveryEvent { job_id: Seq<char> },
    DeliveryMismatch { job_id: Seq<char> },
    TimeOutOfRange,
}

impl View for WatchError {
    type V = ErrorView;

    open spec fn view(&self) -> ErrorView {
        match self {
            WatchError::BlankJobId => ErrorView::BlankJobId,
            WatchError::BlankDedupeKey => ErrorView::BlankDedupeKey,
            WatchError::BlankOwnerSessionId => ErrorView::BlankOwnerSessionId,
            WatchError::RelativeWorkingDir => ErrorView::RelativeWorkingDir,
            WatchError::ArtifactOutside { path } => ErrorView::ArtifactOutside { path: path@ },
            WatchError::UnknownWatch { job_id } => ErrorView::UnknownWatch { job_id: job_id@ },
            WatchError::NoScheduledRetry { job_id } => ErrorView::NoScheduledRetry {
                job_id: job_id@,
            },
            WatchError::NoDeliveryEvent { job_id } => ErrorView::NoDeliveryEvent {
                job_id: job_id@,
            },
            WatchError::DeliveryMismatch { job_id } => ErrorView::DeliveryMismatch {
                job_id: job_id@,
            },
            WatchError::TimeOutOfRange => ErrorView::TimeOutOfRange,
        }
    }
}

/// What an error tells the reader.
pub open spec fn error_text(e: ErrorView) -> Seq<char> {
    match e {
        ErrorView::BlankJobId => "watch job_id must not be blank"@,
        ErrorView::BlankDedupeKey => "watch dedupe_key must not be blank"@,
        ErrorView::BlankOwnerSessionId => "watch owner_session_id must not be blank"@,
        ErrorView::RelativeWorkingDir => "watch working_dir must be absolute"@,
        ErrorView::ArtifactOutside { path } =>
            "expected artifact must stay inside the watched working directory: "@ + path,
        ErrorView::UnknownWatch { job_id } => "unknown orchestration watch "@ + job_id,
        ErrorView::NoScheduledRetry { job_id } => "watch "@ + job_id + " has no scheduled retry"@,
        ErrorView::NoDeliveryEvent { job_id } => "terminal watch "@ + job_id
            + " has no delivery event"@,
        ErrorView::DeliveryMismatch { job_id } => "delivery event mismatch for watch "@ + job_id,
        ErrorView::TimeOutOfRange => "watch needs an instant outside the calendar"@,
    }
}

impl WatchError {
    pub fn message(&self) -> (res: String)
        ensures
            res@ == error_text(self@),
    {
        match self {
            WatchError::BlankJobId => "watch job_id must not be blank".to_string(),
            WatchError::BlankDedupeKey => "watch dedupe_key must not be blank".to_string(),
            WatchError::BlankOwnerSessionId =>
                "watch owner_session_id must not be blank".to_string(),
            WatchError::RelativeWorkingDir => "watch working_dir must be absolute".to_string(),
            WatchError::ArtifactOutside { path } =>
                "expected artifact must stay inside the watched working directory: ".to_string()
                .concat(path.as_str()),
            WatchError::UnknownWatch { job_id } => "unknown orchestration watch ".to_string()
                .concat(job_id.as_str()),
            WatchError::NoScheduledRetry { job_id } => "watch ".to_string().concat(
                job_id.as_str(),
            ).concat(" has no scheduled retry"),
            WatchError::NoDeliveryEvent { job_id } => "terminal watch ".to_string().concat(
                job_id.as_str(),
            ).concat(" has no delivery event"),
            WatchError::DeliveryMismatch { job_id } =>
                "delivery event mismatch for watch ".to_string().concat(job_id.as_str()),
            WatchError::TimeOutOfRange =>
                "watch needs an instant outside the calendar".to_string(),
        }
    }
}

} // verus!
