//! What each request does to a watch, said of the fields of its record.

use vstd::arithmetic::power2::{lemma2_to64, lemma_pow2_pos, lemma_pow2_unfold, pow2};
use vstd::prelude::*;

use crate::clock::{signed_secs_spec, Timestamp};
use crate::digest::full_hash_spec;
use crate::number::decimal_spec;
use crate::paths::stays_inside_spec;
use crate::text::{has_infix, is_white, trim_spec, CharClass};
use crate::text_laws::{law_middle_stands_inside, law_trimmed};
use crate::watch::model::{
    error_text, ArtifactView, AuditView, ClaimView, DeliveryStateView, DeliveryView, ErrorView,
    ExpectationView, LeaseView, ObservationView, RecordView, RetryView, RuntimeState,
    SurroundingsView, WatchRecord, WatchSpecView, WatchStatus, WatchUpdateView,
};
use crate::watch::registry::{
    active_for, after_acknowledge, after_check_claim, after_check_finish, after_delivery_claim,
    after_delivery_mark, after_reconcile, after_register, after_retry_start, after_update,
    answers_register, key_taken, record_path, Registry,
};
use crate::watch::store::{by_job, job_ids, lists_all, unexpired};
use crate::watch::transition::{
    all_evidence, artifact_evidence, artifact_note, artifacts_seen, audit_pushed, backoff_spec,
    each_exists, first_outside, observed, reconciled, repository_evidence, repository_spec,
    required_all_exist, required_artifacts,
};

verus! {

/// Whether a watch still goes on.
pub open spec fn goes_on(r: RecordView) -> bool {
    r.status is Watching || r.status is RetryScheduled
}

/// Whether no artifact that is expected lies outside the working directory.
pub open spec fn stays_home(expected: Seq<ExpectationView>) -> bool {
    forall|i: int| 0 <= i < expected.len() ==> stays_inside_spec((#[trigger] expected[i]).path)
}

pub(crate) proof fn lemma_first_outside(expected: Seq<ExpectationView>)
    ensures
        first_outside(expected) is None <==> stays_home(expected),
        first_outside(expected) matches Some(path) ==> exists|i: int|
            {
                &&& 0 <= i < expected.len()
                &&& (#[trigger] expected[i]).path == path
                &&& !stays_inside_spec(path)
                &&& forall|j: int| 0 <= j < i ==> stays_inside_spec((#[trigger] expected[j]).path)
            },
    decreases expected.len(),
{
    if expected.len() > 0 {
        let rest = expected.drop_first();
        lemma_first_outside(rest);
        if stays_inside_spec(expected[0].path) {
            if stays_home(rest) {
                assert forall|i: int| 0 <= i < expected.len() implies stays_inside_spec(
                    (#[trigger] expected[i]).path,
                ) by {
                    if i > 0 {
                        assert(expected[i] == rest[i - 1]);
                    }
                }
            }
            if stays_home(expected) {
                assert forall|i: int| 0 <= i < rest.len() implies stays_inside_spec(
                    (#[trigger] rest[i]).path,
                ) by {
                    assert(rest[i] == expected[i + 1]);
                }
            }
            if first_outside(rest) is Some {
                let path = first_outside(rest)->0;
                let i = choose|i: int|
                    {
                        &&& 0 <= i < rest.len()
                        &&& (#[trigger] rest[i]).path == path
                        &&& !stays_inside_spec(path)
                        &&& forall|j: int|
                            0 <= j < i ==> stays_inside_spec((#[trigger] rest[j]).path)
                    };
                assert(expected[i + 1] == rest[i]);
                assert forall|j: int| 0 <= j < i + 1 implies stays_inside_spec(
                    (#[trigger] expected[j]).path,
                ) by {
                    if j > 0 {
                        assert(expected[j] == rest[j - 1]);
                    }
                }
            }
        } else {
            assert(expected[0].path == first_outside(expected)->0);
        }
    }
}

// ---------------------------------------------------------------------------
// Evidence
// ---------------------------------------------------------------------------

/// The commit that the repository stands at.
pub open spec fn head_seen(around: SurroundingsView) -> Option<Seq<char>> {
    match around.repository {
        Some(repository) => repository.head_sha,
        None => None,
    }
}

/// Whether the repository stands at the commit that is expected.
pub open spec fn head_is_expected(r: RecordView, around: SurroundingsView) -> bool {
    head_seen(around) is Some && r.expected_sha is Some && r.expected_sha->0 == head_seen(around)->0
}

/// Whether the repository has left the commit that it stood at.
pub open spec fn head_has_moved(r: RecordView, around: SurroundingsView) -> bool {
    head_seen(around) is Some && r.baseline_sha is Some && r.baseline_sha->0 != head_seen(around)->0
}

/// Whether an artifact is required, and every required one is there.
pub open spec fn artifacts_are_there(r: RecordView, around: SurroundingsView) -> bool {
    &&& exists|i: int|
        0 <= i < r.expected_artifacts.len() && (#[trigger] r.expected_artifacts[i]).required
    &&& forall|i: int|
        0 <= i < r.expected_artifacts.len() && (#[trigger] r.expected_artifacts[i]).required
            ==> around.present_artifacts.contains(r.expected_artifacts[i].path)
}

/// Whether anything shows that the job is done.
pub open spec fn is_done(r: RecordView, obs: ObservationView, around: SurroundingsView) -> bool {
    ||| obs.runtime_state is Completed
    ||| head_is_expected(r, around)
    ||| head_has_moved(r, around)
    ||| artifacts_are_there(r, around)
}

proof fn lemma_required_seen(expected: Seq<ExpectationView>, present: Seq<Seq<char>>)
    ensures
        ({
            let wanted = expected.filter(|e: ExpectationView| e.required);
            let found = required_artifacts(artifacts_seen(expected, present));
            &&& found.len() == wanted.len()
            &&& forall|k: int|
                0 <= k < wanted.len() ==> (#[trigger] found[k]) == (ArtifactView {
                    path: wanted[k].path,
                    required: true,
                    exists: present.contains(wanted[k].path),
                })
        }),
    decreases expected.len(),
{
    reveal(Seq::filter);
    if expected.len() > 0 {
        let front = expected.drop_last();
        lemma_required_seen(front, present);
        assert(artifacts_seen(expected, present).drop_last() =~= artifacts_seen(front, present));
    }
}

proof fn lemma_wanted(expected: Seq<ExpectationView>)
    ensures
        ({
            let wanted = expected.filter(|e: ExpectationView| e.required);
            &&& forall|k: int|
                0 <= k < wanted.len() ==> (#[trigger] wanted[k]).required && expected.contains(
                    wanted[k],
                )
            &&& forall|i: int|
                0 <= i < expected.len() && (#[trigger] expected[i]).required ==> wanted.contains(
                    expected[i],
                )
        }),
    decreases expected.len(),
{
    reveal(Seq::filter);
    if expected.len() > 0 {
        let front = expected.drop_last();
        lemma_wanted(front);
        let f = |e: ExpectationView| e.required;
        let before = front.filter(f);
        let after = expected.filter(f);
        assert forall|k: int| 0 <= k < after.len() implies (#[trigger] after[k]).required
            && expected.contains(after[k]) by {
            if k < before.len() {
                assert(after[k] == before[k]);
                assert(front.contains(before[k]));
                let i = choose|i: int| 0 <= i < front.len() && front[i] == before[k];
                assert(expected[i] == after[k]);
            } else {
                assert(expected[expected.len() - 1] == after[k]);
            }
        }
        assert forall|i: int|
            0 <= i < expected.len() && (#[trigger] expected[i]).required implies after.contains(
            expected[i],
        ) by {
            if i < front.len() {
                assert(front[i] == expected[i]);
                assert(before.contains(front[i]));
                let k = choose|k: int| 0 <= k < before.len() && before[k] == front[i];
                assert(after[k] == expected[i]);
            } else {
                assert(after[before.len() as int] == expected[i]);
            }
        }
    }
}

proof fn lemma_artifacts_there(r: RecordView, around: SurroundingsView)
    ensures
        required_all_exist(artifacts_seen(r.expected_artifacts, around.present_artifacts))
            <==> artifacts_are_there(r, around),
{
    let expected = r.expected_artifacts;
    let present = around.present_artifacts;
    let wanted = expected.filter(|e: ExpectationView| e.required);
    let found = required_artifacts(artifacts_seen(expected, present));
    lemma_required_seen(expected, present);
    lemma_wanted(expected);
    if required_all_exist(artifacts_seen(expected, present)) {
        assert(wanted[0].required && expected.contains(wanted[0]));
        let i = choose|i: int| 0 <= i < expected.len() && expected[i] == wanted[0];
        assert(expected[i].required);
        assert forall|i: int|
            0 <= i < expected.len() && (#[trigger] expected[i]).required implies present.contains(
            expected[i].path,
        ) by {
            assert(wanted.contains(expected[i]));
            let k = choose|k: int| 0 <= k < wanted.len() && wanted[k] == expected[i];
            assert(found[k].exists);
        }
    }
    if artifacts_are_there(r, around) {
        let i = choose|i: int| 0 <= i < expected.len() && (#[trigger] expected[i]).required;
        assert(wanted.contains(expected[i]));
        assert forall|k: int| 0 <= k < found.len() implies (#[trigger] found[k]).exists by {
            assert(wanted[k].required && expected.contains(wanted[k]));
            let j = choose|j: int| 0 <= j < expected.len() && expected[j] == wanted[k];
            assert(expected[j].required);
        }
        assert(each_exists(found));
    }
}

pub(crate) proof fn lemma_done(r: RecordView, obs: ObservationView, around: SurroundingsView)
    ensures
        all_evidence(observed(r, obs, around), obs).len() > 0 <==> is_done(r, obs, around),
{
    lemma_artifacts_there(r, around);
}

/// A watch that goes on ends as completed exactly where something shows that
/// the job is done: the runtime says so, the repository stands at the expected
/// commit or has left the one it stood at, or every required artifact is there.
/// It does so whatever else the runtime says, and a notification is owed.
pub proof fn law_done_jobs_complete(
    reg: Registry,
    job: Seq<char>,
    obs: ObservationView,
    around: SurroundingsView,
    event_id: Seq<char>,
)
    requires
        reg.dom().contains(job),
        goes_on(reg[job]),
        stays_home(reg[job].expected_artifacts),
    ensures
        ({
            let r = reg[job];
            let (after, answer) = after_reconcile(reg, job, obs, around, event_id);
            &&& is_done(r, obs, around) ==> {
                &&& answer == Ok::<RecordView, ErrorView>(after[job])
                &&& after == reg.insert(job, after[job])
                &&& after[job].status == WatchStatus::Completed
                &&& after[job].terminal_at == Some(obs.observed_at)
                &&& after[job].next_check_at is None
                &&& after[job].completion_evidence.len() > 0
                &&& r.terminal_delivery is None ==> after[job].terminal_delivery == Some(
                    DeliveryView { event_id, state: DeliveryStateView::Pending },
                )
                &&& after[job].audit.last().kind == "terminal"@
                &&& after[job].audit.last().detail == "completion reconciled"@
            }
            &&& !is_done(r, obs, around) ==> after[job].status != WatchStatus::Completed
        }),
{
    let r = reg[job];
    lemma_first_outside(r.expected_artifacts);
    lemma_done(r, obs, around);
}

/// What a completed watch keeps as evidence: the runtime's word, then what the
/// repository shows, then every required artifact in the order in which they
/// were asked for.
pub proof fn law_evidence_is_complete(
    reg: Registry,
    job: Seq<char>,
    obs: ObservationView,
    around: SurroundingsView,
    event_id: Seq<char>,
)
    requires
        reg.dom().contains(job),
        goes_on(reg[job]),
        stays_home(reg[job].expected_artifacts),
        is_done(reg[job], obs, around),
    ensures
        ({
            let r = reg[job];
            let evidence = after_reconcile(reg, job, obs, around, event_id).0[job].completion_evidence;
            let said: int = if obs.runtime_state is Completed {
                1
            } else {
                0
            };
            let moved: int = if head_is_expected(r, around) || head_has_moved(r, around) {
                1
            } else {
                0
            };
            let wanted = r.expected_artifacts.filter(|e: ExpectationView| e.required);
            &&& said == 1 ==> evidence[0] == "runtime reported completion"@
            &&& head_is_expected(r, around) ==> evidence[said]
                == "repository HEAD matches expected SHA "@ + head_seen(around)->0
            &&& !head_is_expected(r, around) && head_has_moved(r, around) ==> evidence[said]
                == "repository HEAD advanced from "@ + r.baseline_sha->0 + " to "@ + head_seen(
                around,
            )->0
            &&& artifacts_are_there(r, around) ==> {
                &&& evidence.len() == said + moved + wanted.len()
                &&& forall|k: int|
                    0 <= k < wanted.len() ==> evidence[said + moved + k]
                        == "required artifact exists: "@ + (#[trigger] wanted[k]).path
            }
            &&& !artifacts_are_there(r, around) ==> evidence.len() == said + moved
        }),
{
    let r = reg[job];
    lemma_first_outside(r.expected_artifacts);
    lemma_done(r, obs, around);
    lemma_artifacts_there(r, around);
    lemma_required_seen(r.expected_artifacts, around.present_artifacts);
    let seen = observed(r, obs, around);
    let evidence = all_evidence(seen, obs);
    assert(after_reconcile(reg, job, obs, around, event_id).0[job].completion_evidence == evidence);
    let first = if obs.runtime_state is Completed {
        seq!["runtime reported completion"@]
    } else {
        Seq::empty()
    };
    assert(evidence =~= first + repository_evidence(seen) + artifact_evidence(seen.artifacts));
    let found = required_artifacts(seen.artifacts);
    let wanted = r.expected_artifacts.filter(|e: ExpectationView| e.required);
    if artifacts_are_there(r, around) {
        assert forall|k: int| 0 <= k < wanted.len() implies artifact_evidence(seen.artifacts)[k]
            == "required artifact exists: "@ + (#[trigger] wanted[k]).path by {
            assert(artifact_evidence(seen.artifacts)[k] == artifact_note(found[k]));
        }
        let before = first + repository_evidence(seen);
        assert forall|k: int| 0 <= k < wanted.len() implies evidence[before.len() + k]
            == "required artifact exists: "@ + (#[trigger] wanted[k]).path by {
            assert(evidence[before.len() + k] == artifact_evidence(seen.artifacts)[k]);
        }
    }
}

// ---------------------------------------------------------------------------
// Observation
// ---------------------------------------------------------------------------

/// Whether what was asked of the watch stays as it was.
pub open spec fn keeps_terms(r: RecordView, after: RecordView) -> bool {
    &&& after.job_id == r.job_id
    &&& after.dedupe_key == r.dedupe_key
    &&& after.owner_session_id == r.owner_session_id
    &&& after.worker_session_id == r.worker_session_id
    &&& after.working_dir == r.working_dir
    &&& after.baseline_sha == r.baseline_sha
    &&& after.expected_sha == r.expected_sha
    &&& after.expected_artifacts == r.expected_artifacts
    &&& after.deadline == r.deadline
    &&& after.stale_after_secs == r.stale_after_secs
    &&& after.retry == r.retry
    &&& after.created_at == r.created_at
}

/// Whether a watch says of each expected artifact whether it is there.
pub open spec fn tells_artifacts(after: RecordView, around: SurroundingsView) -> bool {
    &&& after.artifacts.len() == after.expected_artifacts.len()
    &&& forall|i: int|
        0 <= i < after.artifacts.len() ==> {
            let a = #[trigger] after.artifacts[i];
            let e = after.expected_artifacts[i];
            &&& a.path == e.path
            &&& a.required == e.required
            &&& a.exists <==> around.present_artifacts.contains(e.path)
        }
}

/// An observation changes nothing of what was asked, and the watch tells what
/// was seen: the runtime's state, the repository, the artifacts and the status
/// of the swarm, where one came. It gives the check back.
pub proof fn law_observations_are_kept(
    reg: Registry,
    job: Seq<char>,
    obs: ObservationView,
    around: SurroundingsView,
    event_id: Seq<char>,
)
    requires
        reg.dom().contains(job),
        goes_on(reg[job]),
        after_reconcile(reg, job, obs, around, event_id).1 is Ok,
    ensures
        ({
            let r = reg[job];
            let (changed, answer) = after_reconcile(reg, job, obs, around, event_id);
            let after = changed[job];
            &&& answer == Ok::<RecordView, ErrorView>(after)
            &&& changed == reg.insert(job, after)
            &&& keeps_terms(r, after)
            &&& after.attempt == r.attempt
            &&& after.process_id == r.process_id
            &&& after.runtime_state == obs.runtime_state
            &&& after.repository == around.repository
            &&& tells_artifacts(after, around)
            &&& after.last_swarm_status == if obs.swarm_status is Some {
                obs.swarm_status
            } else {
                r.last_swarm_status
            }
            &&& after.updated_at == obs.observed_at
            &&& after.active_check is None
            &&& after.status != WatchStatus::Completed ==> after.completion_evidence
                == r.completion_evidence
            &&& after.status != WatchStatus::RetryScheduled ==> after.next_model == r.next_model
        }),
{
}

/// A worker that failed, with nothing to show that the job is done, is tried
/// again while attempts are left and its runtime has not given up. The next
/// attempt is due after the wait, with the model that stands at its place in
/// the list, or the last one. Otherwise the watch ends as failed.
pub proof fn law_failed_workers_are_tried_again(
    reg: Registry,
    job: Seq<char>,
    obs: ObservationView,
    around: SurroundingsView,
    event_id: Seq<char>,
)
    requires
        reg.dom().contains(job),
        goes_on(reg[job]),
        stays_home(reg[job].expected_artifacts),
        !is_done(reg[job], obs, around),
        obs.runtime_state is Failed,
    ensures
        ({
            let r = reg[job];
            let (changed, answer) = after_reconcile(reg, job, obs, around, event_id);
            let after = changed[job];
            let models = r.retry.model_fallbacks;
            let due = obs.observed_at.plus_spec(
                signed_secs_spec(backoff_spec(r.retry, r.attempt) as u64),
            );
            &&& r.attempt < r.retry.max_attempts && !obs.retries_exhausted && due is Some ==> {
                &&& answer == Ok::<RecordView, ErrorView>(after)
                &&& after.status == WatchStatus::RetryScheduled
                &&& after.next_check_at == due
                &&& r.attempt < models.len() ==> after.next_model == Some(models[r.attempt as int])
                &&& r.attempt >= models.len() && models.len() > 0 ==> after.next_model == Some(
                    models.last(),
                )
                &&& models.len() == 0 ==> after.next_model is None
                &&& after.terminal_at == r.terminal_at
                &&& after.terminal_delivery == r.terminal_delivery
                &&& after.deadline_exceeded_at == r.deadline_exceeded_at
            }
            &&& r.attempt < r.retry.max_attempts && !obs.retries_exhausted && due is None ==> answer
                == Err::<RecordView, ErrorView>(ErrorView::TimeOutOfRange) && changed == reg
            &&& r.attempt >= r.retry.max_attempts || obs.retries_exhausted ==> {
                &&& answer == Ok::<RecordView, ErrorView>(after)
                &&& after.status == WatchStatus::Failed
                &&& after.terminal_at == Some(obs.observed_at)
                &&& after.next_check_at is None
                &&& after.deadline_exceeded_at == r.deadline_exceeded_at
                &&& r.terminal_delivery is None ==> after.terminal_delivery == Some(
                    DeliveryView { event_id, state: DeliveryStateView::Pending },
                )
            }
        }),
{
    let r = reg[job];
    lemma_first_outside(r.expected_artifacts);
    lemma_done(r, obs, around);
}

/// A job that is neither done nor failed stays watched, and is looked at again
/// after the wait, of a second at least. It goes stale only once its time is
/// over while neither its runtime nor its process is known to run. A deadline
/// that has passed is noted once and ends nothing.
pub proof fn law_quiet_watches_go_on(
    reg: Registry,
    job: Seq<char>,
    obs: ObservationView,
    around: SurroundingsView,
    event_id: Seq<char>,
)
    requires
        reg.dom().contains(job),
        goes_on(reg[job]),
        stays_home(reg[job].expected_artifacts),
        !is_done(reg[job], obs, around),
        !(obs.runtime_state is Failed),
        reg[job].created_at.plus_spec(reg[job].stale_after_secs as int) is Some,
    ensures
        ({
            let r = reg[job];
            let now = obs.observed_at;
            let (changed, answer) = after_reconcile(reg, job, obs, around, event_id);
            let after = changed[job];
            let over = !now.before(r.created_at.plus_spec(r.stale_after_secs as int)->0);
            let process_runs = obs.process_running == Some(true) || obs.process_running is None
                && r.process_id is Some && around.process_running;
            let goes_stale = over && !process_runs && !(obs.runtime_state is Running);
            let wait = backoff_spec(r.retry, r.attempt);
            let due = now.plus_spec(
                signed_secs_spec(
                    if wait >= 1 {
                        wait as u64
                    } else {
                        1
                    },
                ),
            );
            let passed = r.deadline is Some && !now.before(r.deadline->0) && r.deadline_exceeded_at
                is None;
            &&& goes_stale ==> {
                &&& answer == Ok::<RecordView, ErrorView>(after)
                &&& after.status == WatchStatus::Stale
                &&& after.terminal_at == Some(now)
                &&& after.next_check_at is None
                &&& r.terminal_delivery is None ==> after.terminal_delivery == Some(
                    DeliveryView { event_id, state: DeliveryStateView::Pending },
                )
            }
            &&& !goes_stale && due is Some ==> {
                &&& answer == Ok::<RecordView, ErrorView>(after)
                &&& after.status == WatchStatus::Watching
                &&& after.next_check_at == due
                &&& after.terminal_at == r.terminal_at
                &&& after.terminal_delivery == r.terminal_delivery
            }
            &&& !goes_stale && due is None ==> answer == Err::<RecordView, ErrorView>(
                ErrorView::TimeOutOfRange,
            ) && changed == reg
            &&& answer is Ok && passed ==> after.deadline_exceeded_at == Some(now)
            &&& answer is Ok && !passed ==> after.deadline_exceeded_at == r.deadline_exceeded_at
        }),
{
    let r = reg[job];
    lemma_first_outside(r.expected_artifacts);
    lemma_done(r, obs, around);
}

/// What cannot be observed: a job that is not watched, one whose watch has
/// ended, and one that expects an artifact outside its directory. The first
/// such artifact is named, and nothing changes.
pub proof fn law_what_is_not_observed(
    reg: Registry,
    job: Seq<char>,
    obs: ObservationView,
    around: SurroundingsView,
    event_id: Seq<char>,
)
    ensures
        ({
            let (changed, answer) = after_reconcile(reg, job, obs, around, event_id);
            &&& !reg.dom().contains(job) ==> changed == reg && answer == Err::<
                RecordView,
                ErrorView,
            >(ErrorView::UnknownWatch { job_id: job })
            &&& reg.dom().contains(job) && !goes_on(reg[job]) ==> changed == reg && answer == Ok::<
                RecordView,
                ErrorView,
            >(reg[job])
            &&& reg.dom().contains(job) && goes_on(reg[job]) && !stays_home(
                reg[job].expected_artifacts,
            ) ==> changed == reg && exists|i: int|
                {
                    &&& 0 <= i < reg[job].expected_artifacts.len()
                    &&& !stays_inside_spec((#[trigger] reg[job].expected_artifacts[i]).path)
                    &&& answer == Err::<RecordView, ErrorView>(
                        ErrorView::ArtifactOutside { path: reg[job].expected_artifacts[i].path },
                    )
                    &&& forall|j: int|
                        0 <= j < i ==> stays_inside_spec(
                            (#[trigger] reg[job].expected_artifacts[j]).path,
                        )
                }
        }),
{
    if reg.dom().contains(job) {
        lemma_first_outside(reg[job].expected_artifacts);
    }
}

// ---------------------------------------------------------------------------
// Registration
// ---------------------------------------------------------------------------

/// Whether a text holds more than white space.
pub open spec fn is_filled(text: Seq<char>) -> bool {
    exists|k: int| 0 <= k < text.len() && !is_white(#[trigger] text[k])
}

proof fn lemma_filled(text: Seq<char>)
    ensures
        trim_spec(text).len() > 0 <==> is_filled(text),
{
    law_trimmed(text, CharClass::White);
    if trim_spec(text).len() > 0 {
        let k = choose|k: int| 0 <= k < text.len() && !CharClass::White.has(#[trigger] text[k]);
        assert(!is_white(text[k]));
    }
    if is_filled(text) {
        let k = choose|k: int| 0 <= k < text.len() && !is_white(#[trigger] text[k]);
        assert(!CharClass::White.has(text[k]));
    }
}

/// Whether a watch can be asked for: it names its job, its key and its owner,
/// its directory starts at the root, and no artifact lies outside of that.
pub open spec fn can_be_asked(spec: WatchSpecView) -> bool {
    &&& is_filled(spec.job_id)
    &&& is_filled(spec.dedupe_key)
    &&& is_filled(spec.owner_session_id)
    &&& spec.working_dir.len() > 0 && spec.working_dir[0] == '/'
    &&& stays_home(spec.expected_artifacts)
}

/// Whether a watch that goes on has this key.
pub open spec fn is_watched(reg: Registry, key: Seq<char>) -> bool {
    exists|id: Seq<char>| #[trigger]
        reg.dom().contains(id) && reg[id].dedupe_key == key && goes_on(reg[id])
}

/// A watch is refused exactly where it cannot be asked for, with the first
/// thing that is wrong. Nothing is registered then.
pub proof fn law_registration_is_refused(
    reg: Registry,
    spec: WatchSpecView,
    around: SurroundingsView,
    now: Timestamp,
    answer: Result<RecordView, ErrorView>,
)
    requires
        answers_register(reg, spec, around, now, answer),
    ensures
        answer is Err <==> !can_be_asked(spec),
        answer is Err ==> after_register(reg, spec, around, now) == reg,
        !is_filled(spec.job_id) ==> answer == Err::<RecordView, ErrorView>(ErrorView::BlankJobId),
        is_filled(spec.job_id) && !is_filled(spec.dedupe_key) ==> answer == Err::<
            RecordView,
            ErrorView,
        >(ErrorView::BlankDedupeKey),
        is_filled(spec.job_id) && is_filled(spec.dedupe_key) && !is_filled(spec.owner_session_id)
            ==> answer == Err::<RecordView, ErrorView>(ErrorView::BlankOwnerSessionId),
        is_filled(spec.job_id) && is_filled(spec.dedupe_key) && is_filled(spec.owner_session_id)
            && (spec.working_dir.len() == 0 || spec.working_dir[0] != '/') ==> answer == Err::<
            RecordView,
            ErrorView,
        >(ErrorView::RelativeWorkingDir),
{
    lemma_filled(spec.job_id);
    lemma_filled(spec.dedupe_key);
    lemma_filled(spec.owner_session_id);
    lemma_first_outside(spec.expected_artifacts);
}

proof fn lemma_watched(reg: Registry, key: Seq<char>)
    ensures
        key_taken(reg, key) <==> is_watched(reg, key),
{
    if key_taken(reg, key) {
        let id = choose|id: Seq<char>| #[trigger]
            reg.dom().contains(id) && active_for(reg[id], key);
        assert(reg.dom().contains(id) && reg[id].dedupe_key == key && goes_on(reg[id]));
    }
    if is_watched(reg, key) {
        let id = choose|id: Seq<char>| #[trigger]
            reg.dom().contains(id) && reg[id].dedupe_key == key && goes_on(reg[id]);
        assert(reg.dom().contains(id) && active_for(reg[id], key));
    }
}

/// A new watch holds what was asked for, and nothing has come of it yet: it is
/// watched from now on and due at once, in its first attempt. Where no commit
/// was named to start from, it starts from the one the repository stands at.
pub proof fn law_new_watches_hold_what_was_asked(
    reg: Registry,
    spec: WatchSpecView,
    around: SurroundingsView,
    now: Timestamp,
    answer: Result<RecordView, ErrorView>,
)
    requires
        answers_register(reg, spec, around, now, answer),
        can_be_asked(spec),
        !is_watched(reg, spec.dedupe_key),
    ensures
        ({
            let after = after_register(reg, spec, around, now);
            let r = after[spec.job_id];
            &&& answer == Ok::<RecordView, ErrorView>(r)
            &&& after == reg.insert(spec.job_id, r)
            &&& r.job_id == spec.job_id
            &&& r.dedupe_key == spec.dedupe_key
            &&& r.owner_session_id == spec.owner_session_id
            &&& r.worker_session_id == spec.worker_session_id
            &&& r.process_id == spec.process_id
            &&& r.working_dir == spec.working_dir
            &&& spec.baseline_sha is Some ==> r.baseline_sha == spec.baseline_sha
            &&& spec.baseline_sha is None ==> r.baseline_sha == head_seen(around)
            &&& r.expected_sha == spec.expected_sha
            &&& r.expected_artifacts == spec.expected_artifacts
            &&& r.deadline == spec.deadline
            &&& r.deadline_exceeded_at is None
            &&& spec.stale_after >= 0 ==> r.stale_after_secs == spec.stale_after
            &&& spec.stale_after < 0 ==> r.stale_after_secs == 0
            &&& r.status == WatchStatus::Watching
            &&& r.runtime_state == RuntimeState::Running
            &&& r.last_swarm_status is None
            &&& r.attempt == 1
            &&& r.retry == spec.retry
            &&& r.next_model is None
            &&& r.next_check_at == Some(now)
            &&& r.active_check is None
            &&& r.repository == around.repository
            &&& tells_artifacts(r, around)
            &&& r.completion_evidence.len() == 0
            &&& r.created_at == now && r.updated_at == now
            &&& r.terminal_at is None
            &&& r.terminal_delivery is None
            &&& r.audit.len() == 1
            &&& r.audit[0] == (AuditView {
                at: now,
                kind: "registered"@,
                detail: "durable watch registered"@,
            })
        }),
{
    law_registration_is_refused(reg, spec, around, now, answer);
    lemma_watched(reg, spec.dedupe_key);
}

/// A key that is watched already registers nothing: the watch that goes on
/// under it comes back, the earliest one where there are several.
pub proof fn law_watched_keys_come_back(
    reg: Registry,
    spec: WatchSpecView,
    around: SurroundingsView,
    now: Timestamp,
    answer: Result<RecordView, ErrorView>,
)
    requires
        answers_register(reg, spec, around, now, answer),
        can_be_asked(spec),
        is_watched(reg, spec.dedupe_key),
    ensures
        after_register(reg, spec, around, now) == reg,
        answer matches Ok(r) && reg.dom().contains(r.job_id) && reg[r.job_id] == r && r.dedupe_key
            == spec.dedupe_key && goes_on(r) && forall|id: Seq<char>| #[trigger]
            reg.dom().contains(id) && reg[id].dedupe_key == spec.dedupe_key && goes_on(reg[id])
                ==> !reg[id].created_at.before(r.created_at),
{
    law_registration_is_refused(reg, spec, around, now, answer);
    lemma_watched(reg, spec.dedupe_key);
    let r = answer->Ok_0;
    assert forall|id: Seq<char>| #[trigger]
        reg.dom().contains(id) && reg[id].dedupe_key == spec.dedupe_key && goes_on(
            reg[id],
        ) implies !reg[id].created_at.before(r.created_at) by {
        assert(active_for(reg[id], spec.dedupe_key));
    }
}

// ---------------------------------------------------------------------------
// Changes
// ---------------------------------------------------------------------------

/// Whether a change can be made: the directory that it names starts at the
/// root, and the artifacts that it names stay inside.
pub open spec fn can_be_changed(update: WatchUpdateView) -> bool {
    &&& update.working_dir is Some ==> update.working_dir->0.len() > 0 && update.working_dir->0[0]
        == '/'
    &&& update.expected_artifacts is Some ==> stays_home(update.expected_artifacts->0)
}

/// A change replaces what it names and leaves the rest. With the directory, the
/// repository and the commit to start from are taken anew, and with the
/// artifacts, which of them are there.
pub proof fn law_changes_replace_what_they_name(
    reg: Registry,
    job: Seq<char>,
    update: WatchUpdateView,
    around: SurroundingsView,
    now: Timestamp,
)
    requires
        reg.dom().contains(job),
        goes_on(reg[job]),
        can_be_changed(update),
    ensures
        ({
            let r = reg[job];
            let (changed, answer) = after_update(reg, job, update, around, now);
            let after = changed[job];
            &&& answer == Ok::<RecordView, ErrorView>(after)
            &&& changed == reg.insert(job, after)
            &&& after.worker_session_id == if update.worker_session_id is Some {
                update.worker_session_id
            } else {
                r.worker_session_id
            }
            &&& after.process_id == if update.process_id is Some {
                update.process_id
            } else {
                r.process_id
            }
            &&& update.working_dir is Some ==> after.working_dir == update.working_dir->0
                && after.repository == around.repository && after.baseline_sha == head_seen(around)
            &&& update.working_dir is None ==> after.working_dir == r.working_dir
                && after.repository == r.repository && after.baseline_sha == r.baseline_sha
            &&& after.expected_sha == if update.expected_sha is Some {
                update.expected_sha
            } else {
                r.expected_sha
            }
            &&& update.expected_artifacts is Some ==> after.expected_artifacts
                == update.expected_artifacts->0 && tells_artifacts(after, around)
            &&& update.expected_artifacts is None ==> after.expected_artifacts
                == r.expected_artifacts && after.artifacts == r.artifacts
            &&& after.deadline == if update.deadline is Some {
                update.deadline
            } else {
                r.deadline
            }
            &&& update.stale_after is Some && update.stale_after->0 >= 0 ==> after.stale_after_secs
                == update.stale_after->0
            &&& update.stale_after is Some && update.stale_after->0 < 0 ==> after.stale_after_secs
                == 0
            &&& update.stale_after is None ==> after.stale_after_secs == r.stale_after_secs
            &&& after.retry == if update.retry is Some {
                update.retry->0
            } else {
                r.retry
            }
            &&& after.updated_at == now
            &&& after.job_id == r.job_id && after.dedupe_key == r.dedupe_key
            &&& after.owner_session_id == r.owner_session_id
            &&& after.deadline_exceeded_at == r.deadline_exceeded_at
            &&& after.status == r.status && after.runtime_state == r.runtime_state
            &&& after.last_swarm_status == r.last_swarm_status
            &&& after.attempt == r.attempt && after.next_model == r.next_model
            &&& after.next_check_at == r.next_check_at && after.active_check == r.active_check
            &&& after.completion_evidence == r.completion_evidence
            &&& after.created_at == r.created_at && after.terminal_at == r.terminal_at
            &&& after.terminal_delivery == r.terminal_delivery
            &&& is_told(
                r.audit,
                after.audit,
                now,
                "configured"@,
                "watch expectations or retry policy updated"@,
            )
        }),
{
    if update.expected_artifacts is Some {
        lemma_first_outside(update.expected_artifacts->0);
    }
    law_histories_grow_by_one(
        reg[job].audit,
        now,
        "configured"@,
        "watch expectations or retry policy updated"@,
    );
}

/// A change is refused where it cannot be made, or where there is no such
/// watch. Nothing changes then, nor where the watch has ended.
pub proof fn law_changes_are_refused(
    reg: Registry,
    job: Seq<char>,
    update: WatchUpdateView,
    around: SurroundingsView,
    now: Timestamp,
)
    ensures
        ({
            let (changed, answer) = after_update(reg, job, update, around, now);
            let rooted = update.working_dir is Some ==> update.working_dir->0.len() > 0
                && update.working_dir->0[0] == '/';
            &&& !reg.dom().contains(job) ==> changed == reg && answer == Err::<
                RecordView,
                ErrorView,
            >(ErrorView::UnknownWatch { job_id: job })
            &&& reg.dom().contains(job) && !goes_on(reg[job]) ==> changed == reg.insert(
                job,
                reg[job],
            ) && answer == Ok::<RecordView, ErrorView>(reg[job])
            &&& reg.dom().contains(job) && goes_on(reg[job]) && !can_be_changed(update) ==> changed
                == reg && answer is Err
            &&& reg.dom().contains(job) && goes_on(reg[job]) && !rooted ==> answer == Err::<
                RecordView,
                ErrorView,
            >(ErrorView::RelativeWorkingDir)
        }),
{
    if update.expected_artifacts is Some {
        lemma_first_outside(update.expected_artifacts->0);
    }
}

// ---------------------------------------------------------------------------
// Histories
// ---------------------------------------------------------------------------

/// Whether an event was added to a history: it stands last, unless the last
/// event says the same. The latest 256 events are kept, in their order.
pub open spec fn is_told(
    before: Seq<AuditView>,
    after: Seq<AuditView>,
    at: Timestamp,
    kind: Seq<char>,
    detail: Seq<char>,
) -> bool {
    if before.len() > 0 && before.last().kind == kind && before.last().detail == detail {
        after == before
    } else {
        &&& after.len() == if before.len() < 256 {
            before.len() + 1
        } else {
            256
        }
        &&& after.last() == AuditView { at, kind, detail }
        &&& forall|k: int|
            0 <= k < after.len() - 1 ==> #[trigger] after[k] == before[k + before.len() + 1
                - after.len()]
    }
}

/// A history grows by the event that is added to it.
pub proof fn law_histories_grow_by_one(
    audit: Seq<AuditView>,
    at: Timestamp,
    kind: Seq<char>,
    detail: Seq<char>,
)
    ensures
        is_told(
            audit,
            audit_pushed(audit, AuditView { at, kind, detail }),
            at,
            kind,
            detail,
        ),
{
}

// ---------------------------------------------------------------------------
// Checks and retries
// ---------------------------------------------------------------------------

/// The right to check a watch is given exactly where the watch goes on, its
/// check is due and nobody else holds the right. It lasts five minutes, and
/// only the right and the history change.
pub proof fn law_checks_are_given_when_due(
    reg: Registry,
    job: Seq<char>,
    claimant: Seq<char>,
    now: Timestamp,
    lease_id: Seq<char>,
)
    requires
        reg.dom().contains(job),
    ensures
        ({
            let r = reg[job];
            let (changed, answer) = after_check_claim(reg, job, claimant, now, lease_id);
            let after = changed[job];
            let due = r.next_check_at is Some ==> !now.before(r.next_check_at->0);
            let held = r.active_check is Some && now.before(r.active_check->0.expires_at);
            let ends = now.plus_spec(300);
            let free = goes_on(r) && due && !held;
            &&& !free ==> changed == reg && answer == Ok::<Option<LeaseView>, ErrorView>(None)
            &&& free && ends is None ==> changed == reg && answer == Err::<
                Option<LeaseView>,
                ErrorView,
            >(ErrorView::TimeOutOfRange)
            &&& free && ends is Some ==> {
                &&& answer == Ok::<Option<LeaseView>, ErrorView>(after.active_check)
                &&& after.active_check == Some(
                    LeaseView { lease_id, claimant, claimed_at: now, expires_at: ends->0 },
                )
                &&& changed == reg.insert(job, after)
                &&& after == (RecordView {
                    active_check: after.active_check,
                    updated_at: now,
                    audit: after.audit,
                    ..r
                })
                &&& is_told(r.audit, after.audit, now, "check_claimed"@, "check claimed by "@
                    + claimant)
            }
        }),
{
    law_histories_grow_by_one(reg[job].audit, now, "check_claimed"@, "check claimed by "@ + claimant);
}

/// A check is given back by whoever holds it, and by nobody else.
pub proof fn law_checks_are_given_back(
    reg: Registry,
    job: Seq<char>,
    lease_id: Seq<char>,
    now: Timestamp,
)
    ensures
        ({
            let (changed, answer) = after_check_finish(reg, job, lease_id, now);
            let holds = reg.dom().contains(job) && reg[job].active_check is Some
                && reg[job].active_check->0.lease_id == lease_id;
            &&& holds ==> changed == reg.insert(
                job,
                RecordView { active_check: None, updated_at: now, ..reg[job] },
            )
            &&& !holds ==> changed == reg
            &&& reg.dom().contains(job) ==> answer == Ok::<(), ErrorView>(())
            &&& !reg.dom().contains(job) ==> answer == Err::<(), ErrorView>(
                ErrorView::UnknownWatch { job_id: job },
            )
        }),
{
}

/// A scheduled retry starts the next attempt, with the process that it is told
/// of, and the watch goes on from now. Nothing else can be started.
pub proof fn law_retries_start_the_next_attempt(
    reg: Registry,
    job: Seq<char>,
    process_id: Option<u32>,
    now: Timestamp,
)
    ensures
        ({
            let (changed, answer) = after_retry_start(reg, job, process_id, now);
            let after = changed[job];
            &&& !reg.dom().contains(job) ==> changed == reg && answer == Err::<
                RecordView,
                ErrorView,
            >(ErrorView::UnknownWatch { job_id: job })
            &&& reg.dom().contains(job) && !(reg[job].status is RetryScheduled) ==> changed == reg
                && answer == Err::<RecordView, ErrorView>(
                ErrorView::NoScheduledRetry { job_id: job },
            )
            &&& reg.dom().contains(job) && reg[job].status is RetryScheduled ==> {
                let r = reg[job];
                &&& answer == Ok::<RecordView, ErrorView>(after)
                &&& changed == reg.insert(job, after)
                &&& r.attempt < u32::MAX ==> after.attempt == r.attempt + 1
                &&& r.attempt == u32::MAX ==> after.attempt == r.attempt
                &&& after == (RecordView {
                    attempt: after.attempt,
                    process_id,
                    status: WatchStatus::Watching,
                    runtime_state: RuntimeState::Running,
                    next_check_at: Some(now),
                    updated_at: now,
                    audit: after.audit,
                    ..r
                })
                &&& is_told(r.audit, after.audit, now, "retry_started"@, "retry attempt "@
                    + decimal_spec(after.attempt as nat) + " started"@)
            }
        }),
{
    if reg.dom().contains(job) {
        let attempt = if reg[job].attempt < u32::MAX {
            (reg[job].attempt + 1) as u32
        } else {
            reg[job].attempt
        };
        law_histories_grow_by_one(
            reg[job].audit,
            now,
            "retry_started"@,
            "retry attempt "@ + decimal_spec(attempt as nat) + " started"@,
        );
    }
}

/// The first wait is the initial one, and each wait is twice the one before
/// until the limit is reached. It stops growing after thirty-one doublings.
pub proof fn law_waits_double(policy: RetryView, attempt: u32)
    requires
        attempt < u32::MAX,
    ensures
        ({
            let limit = if policy.max_backoff_secs >= policy.initial_backoff_secs {
                policy.max_backoff_secs
            } else {
                policy.initial_backoff_secs
            };
            let wait = backoff_spec(policy, attempt);
            let next = backoff_spec(policy, (attempt + 1) as u32);
            &&& attempt <= 1 ==> wait == policy.initial_backoff_secs
            &&& 1 <= attempt <= 31 && 2 * wait <= limit ==> next == 2 * wait
            &&& 1 <= attempt <= 31 && 2 * wait > limit ==> next == limit
            &&& attempt > 31 ==> next == wait
            &&& wait <= limit
        }),
{
    let first = policy.initial_backoff_secs as nat;
    lemma2_to64();
    assert(first * pow2(0) == first) by (nonlinear_arith)
        requires
            pow2(0) == 1,
    ;
    if 1 <= attempt <= 31 {
        let n = (attempt - 1) as nat;
        let p = pow2(n);
        lemma_pow2_unfold(n + 1);
        assert(pow2(n + 1) == 2 * p);
        assert(first * (2 * p) == 2 * (first * p)) by (nonlinear_arith);
        lemma_pow2_pos(n);
        assert(first <= first * p) by (nonlinear_arith)
            requires
                p >= 1,
        ;
    }
}

// ---------------------------------------------------------------------------
// Notifications
// ---------------------------------------------------------------------------

/// A notification is given to whoever asks first once the watch has ended: it
/// is handed out while nobody holds it, or once whoever held it has let five
/// minutes pass. It tells the watch's job, owner, end and evidence.
pub proof fn law_notifications_are_given_out(
    reg: Registry,
    job: Seq<char>,
    claimant: Seq<char>,
    now: Timestamp,
)
    requires
        reg.dom().contains(job),
    ensures
        ({
            let r = reg[job];
            let (changed, answer) = after_delivery_claim(reg, job, claimant, now);
            let after = changed[job];
            let ends = now.plus_spec(300);
            &&& goes_on(r) ==> changed == reg && answer == Ok::<Option<ClaimView>, ErrorView>(None)
            &&& !goes_on(r) && r.terminal_delivery is None ==> changed == reg && answer == Err::<
                Option<ClaimView>,
                ErrorView,
            >(ErrorView::NoDeliveryEvent { job_id: job })
            &&& !goes_on(r) && r.terminal_delivery is Some ==> {
                let free = match r.terminal_delivery->0.state {
                    DeliveryStateView::Pending => true,
                    DeliveryStateView::Claimed { expires_at, .. } => !now.before(expires_at),
                    DeliveryStateView::Delivered { .. } => false,
                };
                &&& !free ==> changed == reg && answer == Ok::<Option<ClaimView>, ErrorView>(None)
                &&& free && ends is None ==> changed == reg && answer == Err::<
                    Option<ClaimView>,
                    ErrorView,
                >(ErrorView::TimeOutOfRange)
                &&& free && ends is Some ==> {
                    &&& answer == Ok::<Option<ClaimView>, ErrorView>(
                        Some(
                            ClaimView {
                                event_id: r.terminal_delivery->0.event_id,
                                job_id: r.job_id,
                                owner_session_id: r.owner_session_id,
                                status: r.status,
                                completion_evidence: r.completion_evidence,
                            },
                        ),
                    )
                    &&& changed == reg.insert(job, after)
                    &&& after == (RecordView {
                        terminal_delivery: Some(
                            DeliveryView {
                                event_id: r.terminal_delivery->0.event_id,
                                state: DeliveryStateView::Claimed {
                                    claimant,
                                    claimed_at: now,
                                    expires_at: ends->0,
                                },
                            },
                        ),
                        updated_at: now,
                        audit: after.audit,
                        ..r
                    })
                }
            }
        }),
{
}

/// A notification is delivered by its own identifier, once. Another identifier
/// is refused, and so is a watch that owes no notification.
pub proof fn law_notifications_are_delivered(
    reg: Registry,
    job: Seq<char>,
    event_id: Seq<char>,
    now: Timestamp,
)
    requires
        reg.dom().contains(job),
    ensures
        ({
            let r = reg[job];
            let (changed, answer) = after_delivery_mark(reg, job, event_id, now);
            let after = changed[job];
            &&& r.terminal_delivery is None ==> changed == reg && answer == Err::<(), ErrorView>(
                ErrorView::NoDeliveryEvent { job_id: job },
            )
            &&& r.terminal_delivery is Some && r.terminal_delivery->0.event_id != event_id
                ==> changed == reg && answer == Err::<(), ErrorView>(
                ErrorView::DeliveryMismatch { job_id: job },
            )
            &&& r.terminal_delivery is Some && r.terminal_delivery->0.event_id == event_id ==> {
                &&& answer == Ok::<(), ErrorView>(())
                &&& r.terminal_delivery->0.state is Delivered ==> changed == reg
                &&& !(r.terminal_delivery->0.state is Delivered) ==> {
                    &&& changed == reg.insert(job, after)
                    &&& after == (RecordView {
                        terminal_delivery: Some(
                            DeliveryView {
                                event_id,
                                state: DeliveryStateView::Delivered { delivered_at: now },
                            },
                        ),
                        updated_at: now,
                        audit: after.audit,
                        ..r
                    })
                }
            }
        }),
{
}

/// A notification that somebody holds, and no other, can be acknowledged: it is
/// then delivered.
pub proof fn law_held_notifications_are_acknowledged(
    reg: Registry,
    job: Seq<char>,
    now: Timestamp,
)
    ensures
        ({
            let (changed, done) = after_acknowledge(reg, job, now);
            let after = changed[job];
            let held = reg.dom().contains(job) && reg[job].terminal_delivery is Some
                && reg[job].terminal_delivery->0.state is Claimed;
            &&& done <==> held
            &&& !held ==> changed == reg
            &&& held ==> {
                &&& changed == reg.insert(job, after)
                &&& after == (RecordView {
                    terminal_delivery: Some(
                        DeliveryView {
                            event_id: reg[job].terminal_delivery->0.event_id,
                            state: DeliveryStateView::Delivered { delivered_at: now },
                        },
                    ),
                    updated_at: now,
                    audit: after.audit,
                    ..reg[job]
                })
            }
        }),
{
}

// ---------------------------------------------------------------------------
// The whole registry
// ---------------------------------------------------------------------------

/// A cleanup keeps a watch, as it is, exactly where it goes on or was touched
/// since the cutoff.
pub proof fn law_cleanups_drop_old_ends(reg: Registry, cutoff: Timestamp, id: Seq<char>)
    ensures
        unexpired(reg, cutoff).dom().contains(id) <==> reg.dom().contains(id) && (goes_on(reg[id])
            || !reg[id].updated_at.before(cutoff)),
        unexpired(reg, cutoff).dom().contains(id) ==> unexpired(reg, cutoff)[id] == reg[id],
{
}

/// A list of all watches has each of them once, the earliest first.
pub proof fn law_lists_are_complete(records: Seq<WatchRecord>, reg: Registry)
    requires
        lists_all(records, reg),
    ensures
        forall|i: int|
            0 <= i < records.len() ==> reg.dom().contains((#[trigger] records[i])@.job_id)
                && reg[records[i]@.job_id] == records[i]@,
        forall|id: Seq<char>| #[trigger]
            reg.dom().contains(id) ==> exists|i: int|
                0 <= i < records.len() && (#[trigger] records[i])@ == reg[id],
        forall|i: int, j: int|
            #![trigger records[i], records[j]]
            0 <= i < j < records.len() ==> records[i]@.job_id != records[j]@.job_id
                && !records[j]@.created_at.before(records[i]@.created_at),
{
    let ids = job_ids(records);
    assert forall|i: int| 0 <= i < records.len() implies reg.dom().contains(
        (#[trigger] records[i])@.job_id,
    ) && reg[records[i]@.job_id] == records[i]@ by {
        assert(ids[i] == records[i]@.job_id);
        assert(ids.contains(ids[i]));
        assert(by_job(records).dom().contains(ids[i]));
        let k = ids.index_of(ids[i]);
        assert(ids[k] == ids[i]);
        assert(k == i);
    }
    assert forall|id: Seq<char>| #[trigger] reg.dom().contains(id) implies exists|i: int|
        0 <= i < records.len() && (#[trigger] records[i])@ == reg[id] by {
        assert(by_job(records).dom().contains(id));
        assert(ids.contains(id));
        let k = ids.index_of(id);
        assert(ids[k] == id);
        assert(records[k]@ == reg[id]);
    }
    assert forall|i: int, j: int|
        #![trigger records[i], records[j]]
        0 <= i < j < records.len() implies records[i]@.job_id != records[j]@.job_id
        && !records[j]@.created_at.before(records[i]@.created_at) by {
        assert(ids[i] == records[i]@.job_id);
        assert(ids[j] == records[j]@.job_id);
    }
}

// ---------------------------------------------------------------------------
// What histories tell
// ---------------------------------------------------------------------------

/// A retry that was scheduled is told with its number, its wait and its model,
/// and a failure with whether the runtime or the policy has no attempts left.
pub proof fn law_histories_tell_of_failures(
    reg: Registry,
    job: Seq<char>,
    obs: ObservationView,
    around: SurroundingsView,
    event_id: Seq<char>,
)
    requires
        reg.dom().contains(job),
        goes_on(reg[job]),
        stays_home(reg[job].expected_artifacts),
        !is_done(reg[job], obs, around),
        obs.runtime_state is Failed,
        after_reconcile(reg, job, obs, around, event_id).1 is Ok,
    ensures
        ({
            let r = reg[job];
            let after = after_reconcile(reg, job, obs, around, event_id).0[job];
            let last = after.audit.last();
            let line = "retry attempt "@ + decimal_spec((r.attempt + 1) as nat)
                + " scheduled after "@ + decimal_spec(backoff_spec(r.retry, r.attempt)) + "s"@;
            &&& obs.retries_exhausted ==> last.kind == "terminal"@ && last.detail
                == "worker failed after exhausting the runtime retry policy"@
            &&& !obs.retries_exhausted && r.attempt >= r.retry.max_attempts ==> last.kind
                == "terminal"@ && last.detail == "worker failed and retry budget is exhausted"@
            &&& !obs.retries_exhausted && r.attempt < r.retry.max_attempts && after.next_model
                is None ==> last.kind == "retry_scheduled"@ && last.detail == line
            &&& !obs.retries_exhausted && r.attempt < r.retry.max_attempts && after.next_model
                is Some ==> last.kind == "retry_scheduled"@ && last.detail == line
                + " using model "@ + after.next_model->0
        }),
{
    let r = reg[job];
    lemma_first_outside(r.expected_artifacts);
    lemma_done(r, obs, around);
}

/// What becomes of a quiet watch is told: that it went stale, that its owner is
/// gone, that its deadline has passed, and otherwise what its swarm said. Where
/// there is nothing to tell, nothing is told.
pub proof fn law_histories_tell_of_quiet_watches(
    reg: Registry,
    job: Seq<char>,
    obs: ObservationView,
    around: SurroundingsView,
    event_id: Seq<char>,
)
    requires
        reg.dom().contains(job),
        goes_on(reg[job]),
        stays_home(reg[job].expected_artifacts),
        !is_done(reg[job], obs, around),
        !(obs.runtime_state is Failed),
        after_reconcile(reg, job, obs, around, event_id).1 is Ok,
    ensures
        ({
            let r = reg[job];
            let after = after_reconcile(reg, job, obs, around, event_id).0[job];
            let last = after.audit.last();
            let passed = r.deadline is Some && !obs.observed_at.before(r.deadline->0)
                && r.deadline_exceeded_at is None;
            let lost = obs.runtime_state is OwnershipLost;
            &&& after.status == WatchStatus::Stale ==> last.kind == "terminal"@ && last.detail
                == "watch became stale; no destructive recovery attempted"@
            &&& after.status == WatchStatus::Watching && lost ==> last.kind == "ownership_lost"@
                && last.detail == "owner status unavailable; repository and artifacts inspected"@
            &&& after.status == WatchStatus::Watching && !lost && passed ==> last.kind
                == "deadline_exceeded"@ && last.detail
                == "deadline passed; watch remains active for late completion"@
            &&& after.status == WatchStatus::Watching && !lost && !passed && obs.swarm_status
                is Some ==> is_told(
                r.audit,
                after.audit,
                obs.observed_at,
                "swarm_observed"@,
                "swarm status: "@ + obs.swarm_status->0,
            )
            &&& after.status == WatchStatus::Watching && !lost && !passed && obs.swarm_status
                is None ==> after.audit == r.audit
        }),
{
    let r = reg[job];
    lemma_first_outside(r.expected_artifacts);
    lemma_done(r, obs, around);
    if obs.swarm_status is Some {
        law_histories_grow_by_one(
            r.audit,
            obs.observed_at,
            "swarm_observed"@,
            "swarm status: "@ + obs.swarm_status->0,
        );
    }
}

/// That a notification was handed out is told with who got it, and that it was
/// delivered with who says so.
pub proof fn law_histories_tell_of_notifications(
    reg: Registry,
    job: Seq<char>,
    claimant: Seq<char>,
    event_id: Seq<char>,
    now: Timestamp,
)
    requires
        reg.dom().contains(job),
    ensures
        ({
            let claimed = after_delivery_claim(reg, job, claimant, now);
            let marked = after_delivery_mark(reg, job, event_id, now);
            let acknowledged = after_acknowledge(reg, job, now);
            &&& claimed.1 matches Ok(Some(_)) ==> is_told(
                reg[job].audit,
                claimed.0[job].audit,
                now,
                "delivery_claimed"@,
                "terminal delivery claimed by "@ + claimant,
            )
            &&& marked.1 is Ok && !(reg[job].terminal_delivery->0.state is Delivered) ==> is_told(
                reg[job].audit,
                marked.0[job].audit,
                now,
                "delivered"@,
                "terminal notification acknowledged"@,
            )
            &&& acknowledged.1 ==> is_told(
                reg[job].audit,
                acknowledged.0[job].audit,
                now,
                "delivered"@,
                "terminal notification acknowledged by server dispatch"@,
            )
        }),
{
    let audit = reg[job].audit;
    law_histories_grow_by_one(
        audit,
        now,
        "delivery_claimed"@,
        "terminal delivery claimed by "@ + claimant,
    );
    law_histories_grow_by_one(audit, now, "delivered"@, "terminal notification acknowledged"@);
    law_histories_grow_by_one(
        audit,
        now,
        "delivered"@,
        "terminal notification acknowledged by server dispatch"@,
    );
}

/// A repository is seen exactly where its commit could be told. The commit and
/// the status are kept without white space around them, and there are changes
/// exactly where the status says anything.
pub proof fn law_repositories_are_seen(found: bool, head: Seq<char>, status: Seq<char>)
    ensures
        repository_spec(found, head, status) is Some <==> found,
        repository_spec(found, head, status) matches Some(seen) ==> {
            &&& seen.head_sha == Some(trim_spec(head))
            &&& seen.status_summary == trim_spec(status)
            &&& seen.dirty <==> is_filled(status)
        },
{
    lemma_filled(status);
}

/// A record is kept under the whole digest of its job, so that no job's name
/// leads out of the directory.
pub proof fn law_records_are_kept_in_the_directory(dir: Seq<char>, job: Seq<char>)
    requires
        dir.len() > 0,
        dir.last() != '/',
        full_hash_spec(job).len() > 0,
        full_hash_spec(job)[0] != '/',
    ensures
        record_path(dir, job) == dir + "/"@ + (full_hash_spec(job) + ".json"@),
{
    let name = full_hash_spec(job) + ".json"@;
    assert(name[0] == full_hash_spec(job)[0]);
}

/// An error about a watch names its job, and one about an artifact its path.
pub proof fn law_errors_name_what_they_are_about(name: Seq<char>)
    ensures
        has_infix(error_text(ErrorView::UnknownWatch { job_id: name }), name),
        has_infix(error_text(ErrorView::NoScheduledRetry { job_id: name }), name),
        has_infix(error_text(ErrorView::NoDeliveryEvent { job_id: name }), name),
        has_infix(error_text(ErrorView::DeliveryMismatch { job_id: name }), name),
        has_infix(error_text(ErrorView::ArtifactOutside { path: name }), name),
{
    let none = Seq::<char>::empty();
    law_middle_stands_inside("unknown orchestration watch "@, name, none);
    assert("unknown orchestration watch "@ + name + none =~= "unknown orchestration watch "@ + name);
    law_middle_stands_inside("watch "@, name, " has no scheduled retry"@);
    law_middle_stands_inside("terminal watch "@, name, " has no delivery event"@);
    law_middle_stands_inside("delivery event mismatch for watch "@, name, none);
    assert("delivery event mismatch for watch "@ + name + none
        =~= "delivery event mismatch for watch "@ + name);
    law_middle_stands_inside(
        "expected artifact must stay inside the watched working directory: "@,
        name,
        none,
    );
    assert("expected artifact must stay inside the watched working directory: "@ + name + none
        =~= "expected artifact must stay inside the watched working directory: "@ + name);
}

} // verus!
