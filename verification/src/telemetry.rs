//! When telemetry is sent, and when it is given up.

use vstd::prelude::*;

verus! {

/// How many events wait for delivery at most.
pub const BACKGROUND_QUEUE_CAPACITY: usize = 2048;

/// How many transcripts wait for delivery at most.
pub const TRANSCRIPT_QUEUE_CAPACITY: usize = 64;

/// Whether an answer means that the payload will never be taken: the request is
/// at fault, and it is not a matter of time.
pub open spec fn permanent(status: u16) -> bool {
    400 <= status < 500 && status != 408 && status != 425 && status != 429
}

pub fn telemetry_status_is_permanent(status: u16) -> (res: bool)
    ensures
        res == permanent(status),
{
    status >= 400 && status < 500 && !matches!(status, 408 | 425 | 429)
}

/// What came of a request.
#[derive(Debug, Clone, Copy, PartialEq, Eq, Structural)]
pub enum PostOutcome {
    /// The endpoint answered with this status.
    Answered { status: u16 },
    /// No answer came.
    Failed,
}

/// What the outcome means.
#[derive(Debug, Clone, Copy, PartialEq, Eq, Structural)]
pub enum PostVerdict {
    Delivered,
    RejectedForGood,
    RejectedForNow,
    Failed,
}

/// What came of an attempt to queue a payload.
#[derive(Debug, Clone, Copy, PartialEq, Eq, Structural)]
pub enum QueueOutcome {
    Queued,
    Full,
    Stopped,
}

/// What the outcome of a request means.
pub open spec fn verdict(outcome: PostOutcome) -> PostVerdict {
    match outcome {
        PostOutcome::Answered { status } => if 200 <= status < 300 {
            PostVerdict::Delivered
        } else if permanent(status) {
            PostVerdict::RejectedForGood
        } else {
            PostVerdict::RejectedForNow
        },
        PostOutcome::Failed => PostVerdict::Failed,
    }
}

/// Tells what the outcome of a request means.
pub fn judge_post(outcome: PostOutcome) -> (res: PostVerdict)
    ensures
        res == verdict(outcome),
{
    match outcome {
        PostOutcome::Answered { status } => if status >= 200 && status < 300 {
            PostVerdict::Delivered
        } else if telemetry_status_is_permanent(status) {
            PostVerdict::RejectedForGood
        } else {
            PostVerdict::RejectedForNow
        },
        PostOutcome::Failed => PostVerdict::Failed,
    }
}

/// What is remembered of earlier deliveries: whether the endpoint has refused
/// for good, and whether a full queue was already told of.
#[derive(Debug, Clone, Copy, PartialEq, Eq, Structural)]
pub struct TelemetryState {
    pub permanently_rejected: bool,
    pub overflow_warned: bool,
}

/// The state after a request.
pub open spec fn state_after_post(state: TelemetryState, outcome: PostOutcome) -> TelemetryState {
    TelemetryState {
        permanently_rejected: state.permanently_rejected || verdict(outcome) is RejectedForGood,
        ..state
    }
}

/// The state after an attempt to queue a payload.
pub open spec fn state_after_queue(state: TelemetryState, outcome: QueueOutcome) -> TelemetryState {
    TelemetryState {
        overflow_warned: match outcome {
            QueueOutcome::Queued => false,
            QueueOutcome::Full => true,
            QueueOutcome::Stopped => state.overflow_warned,
        },
        ..state
    }
}

impl TelemetryState {
    pub fn new() -> (res: Self)
        ensures
            res == (TelemetryState { permanently_rejected: false, overflow_warned: false }),
    {
        TelemetryState { permanently_rejected: false, overflow_warned: false }
    }

    /// Whether anything is sent at all.
    pub fn is_open(&self) -> (res: bool)
        ensures
            res == !self.permanently_rejected,
    {
        !self.permanently_rejected
    }

    /// Notes the outcome of a request. After a rejection for good nothing more
    /// is sent.
    pub fn posted(&mut self, outcome: PostOutcome) -> (res: PostVerdict)
        ensures
            res == verdict(outcome),
            *final(self) == state_after_post(*old(self), outcome),
    {
        let verdict = judge_post(outcome);
        if verdict == PostVerdict::RejectedForGood {
            self.permanently_rejected = true;
        }
        verdict
    }

    /// Notes whether a payload could be queued. Answers whether a warning is
    /// due: once for each time that the queue runs full.
    pub fn queued(&mut self, outcome: QueueOutcome) -> (res: bool)
        ensures
            *final(self) == state_after_queue(*old(self), outcome),
            res == (match outcome {
                QueueOutcome::Queued => false,
                QueueOutcome::Full => !old(self).overflow_warned,
                QueueOutcome::Stopped => true,
            }),
    {
        match outcome {
            QueueOutcome::Queued => {
                self.overflow_warned = false;
                false
            },
            QueueOutcome::Full => {
                let first = !self.overflow_warned;
                self.overflow_warned = true;
                first
            },
            QueueOutcome::Stopped => true,
        }
    }
}

/// What was rejected for good stays rejected, whatever comes.
pub proof fn law_rejection_is_for_good(
    state: TelemetryState,
    post: PostOutcome,
    queue: QueueOutcome,
)
    requires
        state.permanently_rejected,
    ensures
        state_after_post(state, post).permanently_rejected,
        state_after_queue(state, queue).permanently_rejected,
{
}

/// A queue that stays full is told of once.
pub proof fn law_overflow_is_told_once(state: TelemetryState)
    ensures
        state_after_queue(state, QueueOutcome::Full).overflow_warned,
        !state_after_queue(
            state_after_queue(state, QueueOutcome::Full),
            QueueOutcome::Queued,
        ).overflow_warned,
{
}

/// Waiting helps after a timeout, a request that came too early, or too many
/// requests, and after every fault of the server.
pub proof fn law_passing_faults_are_not_permanent(status: u16)
    requires
        status == 408 || status == 425 || status == 429 || status >= 500,
    ensures
        !permanent(status),
{
}

/// What an answer means is told by its status: two hundreds are a delivery,
/// four hundreds a rejection for good, but for a timeout, a request that came
/// too early and too many requests, and everything else a rejection for now.
pub proof fn law_answers_are_told_by_their_status(status: u16)
    ensures
        ({
            let told = verdict(PostOutcome::Answered { status });
            let for_good = 400 <= status <= 499 && status != 408 && status != 425 && status != 429;
            &&& permanent(status) <==> for_good
            &&& told == PostVerdict::Delivered <==> 200 <= status <= 299
            &&& told == PostVerdict::RejectedForGood <==> for_good
            &&& told == PostVerdict::RejectedForNow <==> !(200 <= status <= 299) && !for_good
        }),
        verdict(PostOutcome::Failed) == PostVerdict::Failed,
{
}

/// Nothing but a rejection for good closes the endpoint, and a request says
/// nothing of the queue. A queue that takes a payload is not full any more, one
/// that is full was told of, and neither says anything of the endpoint.
pub proof fn law_states_change_for_a_reason(
    state: TelemetryState,
    post: PostOutcome,
    queue: QueueOutcome,
)
    ensures
        state_after_post(state, post).permanently_rejected <==> state.permanently_rejected
            || verdict(post) == PostVerdict::RejectedForGood,
        state_after_post(state, post).overflow_warned == state.overflow_warned,
        state_after_queue(state, queue).permanently_rejected == state.permanently_rejected,
        queue == QueueOutcome::Queued ==> !state_after_queue(state, queue).overflow_warned,
        queue == QueueOutcome::Full ==> state_after_queue(state, queue).overflow_warned,
        queue == QueueOutcome::Stopped ==> state_after_queue(state, queue) == state,
{
}

} // verus!
