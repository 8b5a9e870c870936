//! What the watch of a plan and its driver decide, said of the plan, the
//! members and the request.

use vstd::arithmetic::power2::{lemma2_to64, lemma_pow2_pos, lemma_pow2_unfold, pow2};
use vstd::prelude::*;

use crate::clock::Timestamp;
use crate::number::{decimal_spec, law_decimals_are_read_back};
use crate::swarm::driver::{
    after_failure, driver_watch, options_of, retry_delay, RunPlanOptions, RunPlanRequest, StepView,
};
use crate::swarm::plan::{in_flight_count, interval_spec, plan_runtime, SwarmMember};
use crate::text::{opt_view, views};
use crate::watch::model::RuntimeState;

verus! {

// ---------------------------------------------------------------------------
// Plans
// ---------------------------------------------------------------------------

/// A plan without items tells nothing. Otherwise it is over once every item is
/// completed or failed, or once nothing is active, ready or in flight. It then
/// failed exactly where an item failed, and until then it runs.
pub proof fn law_plans_are_over_when_nothing_is_left(
    item_count: nat,
    completed: nat,
    failed: nat,
    active: nat,
    ready: nat,
    in_flight_workers: nat,
)
    ensures
        ({
            let seen = plan_runtime(
                item_count,
                completed,
                failed,
                active,
                ready,
                in_flight_workers,
            );
            let over = completed + failed >= item_count || active + ready + in_flight_workers == 0;
            &&& seen == RuntimeState::Unknown <==> item_count == 0
            &&& seen == RuntimeState::Completed <==> item_count > 0 && over && failed == 0
            &&& seen == RuntimeState::Failed <==> item_count > 0 && over && failed > 0
            &&& seen == RuntimeState::Running <==> item_count > 0 && !over
        }),
{
}

/// Whether a member works for the owner of the plan: in the same swarm, as
/// another session, queued or running, and either without a head or reporting
/// to the owner.
pub open spec fn works_for(member: SwarmMember, swarm_id: Seq<char>, owner: Seq<char>) -> bool {
    &&& member.swarm_id is Some && member.swarm_id->0@ == swarm_id
    &&& member.session_id@ != owner
    &&& member.status@ == "queued"@ || member.status@ == "running"@ || member.status@
        == "running_stale"@
    &&& member.is_headless || member.report_back_to_session_id is Some
        && member.report_back_to_session_id->0@ == owner
}

/// What is in flight are the members that work for the owner, each counted
/// once.
pub proof fn law_workers_in_flight_are_counted(
    members: Seq<SwarmMember>,
    swarm_id: Seq<char>,
    owner: Seq<char>,
)
    ensures
        in_flight_count(members, swarm_id, owner) == members.filter(
            |m: SwarmMember| works_for(m, swarm_id, owner),
        ).len(),
    decreases members.len(),
{
    reveal(Seq::filter);
    if members.len() > 0 {
        law_workers_in_flight_are_counted(members.drop_last(), swarm_id, owner);
    }
}

/// A setting that is a positive number of seconds is the interval. Without one,
/// and with zero, it is thirty seconds.
pub proof fn law_intervals(secs: nat)
    requires
        secs <= u64::MAX,
    ensures
        secs > 0 ==> interval_spec(Some(decimal_spec(secs))) == secs,
        secs == 0 ==> interval_spec(Some(decimal_spec(secs))) == 30,
        interval_spec(None) == 30,
{
    law_decimals_are_read_back(secs, u64::MAX as nat);
}

// ---------------------------------------------------------------------------
// Drivers
// ---------------------------------------------------------------------------

/// What a request leaves out has its default: the session is notified and
/// woken, there are as many retries as fallback models, the first wait is half
/// a minute, and the plan has an hour. A wait and a time limit are one at least.
pub proof fn law_requests_have_defaults(request: RunPlanRequest, options: RunPlanOptions)
    requires
        options_of(request, options),
    ensures
        options.notify == (request.notify is None || request.notify->0),
        options.wake == (request.wake is None || request.wake->0),
        opt_view(options.model) == opt_view(request.model),
        request.model_fallbacks is Some ==> views(options.model_fallbacks@) == views(
            request.model_fallbacks->0@,
        ),
        request.model_fallbacks is None ==> options.model_fallbacks@.len() == 0,
        request.max_retries is Some ==> options.max_retries == request.max_retries->0,
        request.max_retries is None && options.model_fallbacks@.len() <= u32::MAX
            ==> options.max_retries == options.model_fallbacks@.len(),
        request.retry_backoff_secs is None ==> options.retry_backoff_secs == 30,
        request.retry_backoff_secs is Some && request.retry_backoff_secs->0 > 0
            ==> options.retry_backoff_secs == request.retry_backoff_secs->0,
        request.retry_backoff_secs == Some(0u64) ==> options.retry_backoff_secs == 1,
        opt_view(options.expected_sha) == opt_view(request.expected_sha),
        request.expected_artifacts is Some ==> views(options.expected_artifacts@) == views(
            request.expected_artifacts->0@,
        ),
        request.expected_artifacts is None ==> options.expected_artifacts@.len() == 0,
        request.timeout_minutes is None ==> options.timeout_minutes == 60,
        request.timeout_minutes is Some && request.timeout_minutes->0 > 0
            ==> options.timeout_minutes == request.timeout_minutes->0,
        request.timeout_minutes == Some(0u64) ==> options.timeout_minutes == 1,
{
    assert(views(options.model_fallbacks@).len() == options.model_fallbacks@.len());
    assert(views(options.expected_artifacts@).len() == options.expected_artifacts@.len());
}

/// The first wait is the one asked for, and each wait is twice the one before,
/// up to half an hour. It stops growing after thirty-one doublings.
pub proof fn law_driver_waits_double(backoff_secs: u64, retries: u32)
    requires
        retries < u32::MAX,
    ensures
        ({
            let wait = retry_delay(backoff_secs, retries);
            let next = retry_delay(backoff_secs, (retries + 1) as u32);
            &&& retries == 0 && backoff_secs <= 1800 ==> wait == backoff_secs
            &&& retries == 0 && backoff_secs > 1800 ==> wait == 1800
            &&& wait <= 1800
            &&& retries < 31 && 2 * wait <= 1800 ==> next == 2 * wait
            &&& retries < 31 && 2 * wait > 1800 ==> next == 1800
            &&& retries >= 31 ==> next == wait
        }),
{
    let first = backoff_secs as nat;
    lemma2_to64();
    assert(first * pow2(0) == first) by (nonlinear_arith)
        requires
            pow2(0) == 1,
    ;
    if retries < 31 {
        let n = retries as nat;
        let p = pow2(n);
        lemma_pow2_unfold(n + 1);
        assert(pow2(n + 1) == 2 * p);
        assert(first * (2 * p) == 2 * (first * p)) by (nonlinear_arith);
        lemma_pow2_pos(n);
    }
}

/// A driver that failed tries again while retries are left, with the fallback
/// model at the place of the retry, or the one it had where the list is over.
/// It says so, with the error, the wait and the model. Then it gives up and
/// tells the error.
pub proof fn law_failed_drivers_try_again(
    retries: u32,
    model: Option<Seq<char>>,
    fallbacks: Seq<Seq<char>>,
    max_retries: u32,
    backoff_secs: u64,
    error: Seq<char>,
)
    ensures
        ({
            let (after, next, step) = after_failure(
                retries,
                model,
                fallbacks,
                max_retries,
                backoff_secs,
                error,
            );
            let wait = retry_delay(backoff_secs, retries);
            let note = "run_plan driver failed: "@ + error + ". Retrying attempt "@ + decimal_spec(
                (retries + 1) as nat,
            ) + "/"@ + decimal_spec(max_retries as nat) + " in "@ + decimal_spec(wait) + "s"@;
            &&& retries < max_retries ==> {
                &&& after == retries + 1
                &&& retries < fallbacks.len() ==> next == Some(fallbacks[retries as int]) && step
                    == (StepView::Retry {
                    note: note + (" with model "@ + fallbacks[retries as int]) + "."@,
                    delay_secs: wait,
                })
                &&& retries >= fallbacks.len() ==> next == model && step == (StepView::Retry {
                    note: note + "."@,
                    delay_secs: wait,
                })
            }
            &&& retries >= max_retries ==> {
                &&& after == retries
                &&& next == model
                &&& step == (StepView::GiveUp { note: "run_plan failed: "@ + error })
            }
        }),
{
    let wait = retry_delay(backoff_secs, retries);
    let note = "run_plan driver failed: "@ + error + ". Retrying attempt "@ + decimal_spec(
        (retries + 1) as nat,
    ) + "/"@ + decimal_spec(max_retries as nat) + " in "@ + decimal_spec(wait) + "s"@;
    assert(note + Seq::<char>::empty() =~= note);
}

/// A driver's watch expects what the request expects, every artifact required.
/// Its deadline is the time limit from now, it goes stale after a day, and it
/// allows one attempt more than there are retries, with the first model before
/// the fallbacks.
pub proof fn law_driver_watches(
    working_dir: Option<Seq<char>>,
    model: Option<Seq<char>>,
    fallbacks: Seq<Seq<char>>,
    max_retries: u32,
    backoff_secs: u64,
    expected_sha: Option<Seq<char>>,
    artifacts: Seq<Seq<char>>,
    timeout_minutes: u64,
    now: Timestamp,
)
    requires
        timeout_minutes <= i64::MAX,
    ensures
        ({
            let answer = driver_watch(
                working_dir,
                model,
                fallbacks,
                max_retries,
                backoff_secs,
                expected_sha,
                artifacts,
                timeout_minutes,
                now,
            );
            let deadline = now.plus_spec(timeout_minutes * 60);
            &&& answer is Some <==> deadline is Some
            &&& answer is Some ==> {
                let update = answer->0;
                let retry = update.retry->0;
                &&& update.deadline == deadline
                &&& update.working_dir == working_dir
                &&& update.expected_sha == expected_sha
                &&& update.worker_session_id is None
                &&& update.process_id is None
                &&& update.stale_after == Some(86400i64)
                &&& update.expected_artifacts is Some
                &&& update.expected_artifacts->0.len() == artifacts.len()
                &&& forall|i: int|
                    0 <= i < artifacts.len() ==> {
                        let e = #[trigger] update.expected_artifacts->0[i];
                        e.path == artifacts[i] && e.required
                    }
                &&& update.retry is Some
                &&& max_retries < u32::MAX ==> retry.max_attempts == max_retries + 1
                &&& max_retries == u32::MAX ==> retry.max_attempts == u32::MAX
                &&& retry.initial_backoff_secs == backoff_secs
                &&& retry.max_backoff_secs == 1800
                &&& retry.model_fallbacks.len() == fallbacks.len() + 1
                &&& model is Some ==> retry.model_fallbacks[0] == model->0
                &&& model is None ==> retry.model_fallbacks[0] == "<inherited>"@
                &&& forall|i: int|
                    0 <= i < fallbacks.len() ==> retry.model_fallbacks[i + 1]
                        == #[trigger] fallbacks[i]
            }
        }),
{
}

} // verus!
