//! What the watch sees of a swarm plan.

use vstd::prelude::*;

use crate::number::{decimal, decimal_spec, parse, parse_spec};
use crate::text::{opt_view, same_text};
use crate::watch::model::RuntimeState;

verus! {

/// How often the watches are looked at, in seconds, unless it is set otherwise.
pub const DEFAULT_INTERVAL_SECS: u64 = 30;

/// The state of a swarm's plan.
#[derive(Debug)]
pub struct PlanGraphStatus {
    pub version: u64,
    pub item_count: usize,
    pub mode: String,
    pub completed_ids: Vec<String>,
    pub failed_ids: Vec<String>,
    pub active_ids: Vec<String>,
    pub next_ready_ids: Vec<String>,
}

/// One member of a swarm.
#[derive(Debug)]
pub struct SwarmMember {
    pub session_id: String,
    pub swarm_id: Option<String>,
    pub status: String,
    pub is_headless: bool,
    pub report_back_to_session_id: Option<String>,
}

/// The runtime state that a plan stands for. A plan is over once every item has
/// ended or nothing in it can run any more, and it failed where an item did.
pub open spec fn plan_runtime(
    item_count: nat,
    completed: nat,
    failed: nat,
    active: nat,
    ready: nat,
    in_flight_workers: nat,
) -> RuntimeState {
    if item_count == 0 {
        RuntimeState::Unknown
    } else if completed + failed >= item_count || (active == 0 && ready == 0 && in_flight_workers
        == 0) {
        if failed == 0 {
            RuntimeState::Completed
        } else {
            RuntimeState::Failed
        }
    } else {
        RuntimeState::Running
    }
}

pub fn swarm_watch_runtime(summary: &PlanGraphStatus, in_flight_workers: usize) -> (res:
    RuntimeState)
    ensures
        res == plan_runtime(
            summary.item_count as nat,
            summary.completed_ids@.len(),
            summary.failed_ids@.len(),
            summary.active_ids@.len(),
            summary.next_ready_ids@.len(),
            in_flight_workers as nat,
        ),
{
    if summary.item_count == 0 {
        return RuntimeState::Unknown;
    }
    let ended = summary.completed_ids.len() as u128 + summary.failed_ids.len() as u128;
    let nothing_runs = summary.active_ids.len() == 0 && summary.next_ready_ids.len() == 0
        && in_flight_workers == 0;
    if ended >= summary.item_count as u128 || nothing_runs {
        if summary.failed_ids.len() == 0 {
            RuntimeState::Completed
        } else {
            RuntimeState::Failed
        }
    } else {
        RuntimeState::Running
    }
}

/// The line that tells the state of a plan.
pub open spec fn plan_line(
    swarm_id: Seq<char>,
    version: nat,
    completed: nat,
    failed: nat,
    active: nat,
    ready: nat,
    in_flight_workers: nat,
) -> Seq<char> {
    "swarm="@ + swarm_id + " version="@ + decimal_spec(version) + " completed="@ + decimal_spec(
        completed,
    ) + " failed="@ + decimal_spec(failed) + " active="@ + decimal_spec(active) + " ready="@
        + decimal_spec(ready) + " in_flight="@ + decimal_spec(in_flight_workers)
}

pub fn swarm_watch_status(swarm_id: &str, summary: &PlanGraphStatus, in_flight_workers: usize) -> (
res: String)
    ensures
        res@ == plan_line(
            swarm_id@,
            summary.version as nat,
            summary.completed_ids@.len(),
            summary.failed_ids@.len(),
            summary.active_ids@.len(),
            summary.next_ready_ids@.len(),
            in_flight_workers as nat,
        ),
{
    "swarm=".to_string().concat(swarm_id).concat(" version=").concat(
        decimal(summary.version).as_str(),
    ).concat(" completed=").concat(decimal(summary.completed_ids.len() as u64).as_str()).concat(
        " failed=",
    ).concat(decimal(summary.failed_ids.len() as u64).as_str()).concat(" active=").concat(
        decimal(summary.active_ids.len() as u64).as_str(),
    ).concat(" ready=").concat(decimal(summary.next_ready_ids.len() as u64).as_str()).concat(
        " in_flight=",
    ).concat(decimal(in_flight_workers as u64).as_str())
}

/// Whether a member works for this swarm's owner: it belongs to the swarm, is
/// not the owner, is queued or runs, and answers to nobody else.
pub open spec fn in_flight(member: SwarmMember, swarm_id: Seq<char>, owner: Seq<char>) -> bool {
    &&& opt_view(member.swarm_id) == Some(swarm_id)
    &&& member.session_id@ != owner
    &&& member.status@ == "queued"@ || member.status@ == "running"@ || member.status@
        == "running_stale"@
    &&& member.is_headless || opt_view(member.report_back_to_session_id) == Some(owner)
}

/// How many members work for this swarm's owner.
pub open spec fn in_flight_count(
    members: Seq<SwarmMember>,
    swarm_id: Seq<char>,
    owner: Seq<char>,
) -> nat
    decreases members.len(),
{
    if members.len() == 0 {
        0
    } else {
        in_flight_count(members.drop_last(), swarm_id, owner) + if in_flight(
            members.last(),
            swarm_id,
            owner,
        ) {
            1nat
        } else {
            0nat
        }
    }
}

fn is_text(o: &Option<String>, text: &str) -> (res: bool)
    ensures
        res == (opt_view(*o) == Some(text@)),
{
    match o {
        Some(s) => same_text(s.as_str(), text),
        None => false,
    }
}

pub fn in_flight_workers(members: &Vec<SwarmMember>, swarm_id: &str, owner_session_id: &str) -> (
res: usize)
    ensures
        res == in_flight_count(members@, swarm_id@, owner_session_id@),
{
    let mut count: usize = 0;
    let mut i: usize = 0;
    assert(members@.take(0) =~= Seq::<SwarmMember>::empty());
    while i < members.len()
        invariant
            count <= i <= members@.len(),
            count == in_flight_count(members@.take(i as int), swarm_id@, owner_session_id@),
        decreases members@.len() - i,
    {
        let member = &members[i];
        assert(members@.take(i + 1).drop_last() =~= members@.take(i as int));
        let status = member.status.as_str();
        if is_text(&member.swarm_id, swarm_id) && !same_text(
            member.session_id.as_str(),
            owner_session_id,
        ) && (same_text(status, "queued") || same_text(status, "running") || same_text(
            status,
            "running_stale",
        )) && (member.is_headless || is_text(
            &member.report_back_to_session_id,
            owner_session_id,
        )) {
            count += 1;
        }
        i += 1;
    }
    assert(members@.take(i as int) =~= members@);
    count
}

/// What the watches of a swarm's owner are told of its plan.
#[derive(Debug)]
pub struct SwarmObservation {
    pub owner_session_id: String,
    pub runtime: RuntimeState,
    pub status: String,
}

/// What the watches are told of a plan. A swarm without a coordinator tells
/// nothing.
pub fn observe_plan(
    swarm_id: &str,
    coordinator: &Option<String>,
    summary: &PlanGraphStatus,
    members: &Vec<SwarmMember>,
) -> (res: Option<SwarmObservation>)
    ensures
        res is Some <==> coordinator is Some,
        res matches Some(seen) ==> {
            let owner = coordinator->0@;
            let workers = in_flight_count(members@, swarm_id@, owner);
            &&& seen.owner_session_id@ == owner
            &&& seen.runtime == plan_runtime(
                summary.item_count as nat,
                summary.completed_ids@.len(),
                summary.failed_ids@.len(),
                summary.active_ids@.len(),
                summary.next_ready_ids@.len(),
                workers,
            )
            &&& seen.status@ == plan_line(
                swarm_id@,
                summary.version as nat,
                summary.completed_ids@.len(),
                summary.failed_ids@.len(),
                summary.active_ids@.len(),
                summary.next_ready_ids@.len(),
                workers,
            )
        },
{
    match coordinator {
        Some(owner) => {
            let workers = in_flight_workers(members, swarm_id, owner.as_str());
            Some(
                SwarmObservation {
                    owner_session_id: owner.clone(),
                    runtime: swarm_watch_runtime(summary, workers),
                    status: swarm_watch_status(swarm_id, summary, workers),
                },
            )
        },
        None => None,
    }
}

/// The interval that a text gives: a number of seconds above zero.
pub open spec fn interval_of(text: Seq<char>) -> Option<nat> {
    match parse_spec(text, u64::MAX as nat) {
        Some(secs) => if secs > 0 {
            Some(secs)
        } else {
            None
        },
        None => None,
    }
}

/// Reads an interval. None where the text is no number above zero.
pub fn read_interval(text: &str) -> (res: Option<u64>)
    ensures
        match res {
            Some(secs) => interval_of(text@) == Some(secs as nat),
            None => interval_of(text@) is None,
        },
{
    match parse(text, u64::MAX) {
        Some(secs) => if secs > 0 {
            Some(secs)
        } else {
            None
        },
        None => None,
    }
}

/// The interval that a setting stands for: the default where it is missing or
/// gives none.
pub open spec fn interval_spec(setting: Option<Seq<char>>) -> nat {
    match setting {
        Some(text) => match interval_of(text) {
            Some(secs) => secs,
            None => DEFAULT_INTERVAL_SECS as nat,
        },
        None => DEFAULT_INTERVAL_SECS as nat,
    }
}

pub fn watchdog_interval_secs(setting: &Option<String>) -> (res: u64)
    ensures
        res == interval_spec(opt_view(*setting)),
        res > 0,
{
    match setting {
        Some(text) => match read_interval(text.as_str()) {
            Some(secs) => secs,
            None => DEFAULT_INTERVAL_SECS,
        },
        None => DEFAULT_INTERVAL_SECS,
    }
}

/// A plan counts as completed or failed only where nothing in it can run any
/// more or every item has ended, and as failed exactly where an item failed.
pub proof fn law_plans_end_when_nothing_runs(
    item_count: nat,
    completed: nat,
    failed: nat,
    active: nat,
    ready: nat,
    in_flight_workers: nat,
)
    ensures
        ({
            let state = plan_runtime(
                item_count,
                completed,
                failed,
                active,
                ready,
                in_flight_workers,
            );
            &&& state is Unknown <==> item_count == 0
            &&& state is Completed || state is Failed ==> completed + failed >= item_count || (
            active == 0 && ready == 0 && in_flight_workers == 0)
            &&& state is Completed ==> failed == 0
            &&& state is Failed ==> failed > 0
            &&& !(state is OwnershipLost)
        }),
{
}

} // verus!
