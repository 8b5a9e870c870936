//! The driver that runs a swarm plan in the background.

use vstd::arithmetic::power2::{lemma_pow2_pos, lemma_pow2_strictly_increases, pow2};
use vstd::prelude::*;

use crate::clock::{signed_secs, signed_secs_spec, Timestamp};
use crate::number::{decimal, decimal_spec, times_pow2};
use crate::text::{copy_opt, copy_texts, opt_view, views};
use crate::watch::model::{
    expectation_views, no_update, ArtifactExpectation, ExpectationView, RetryPolicy, RetryView,
    WatchUpdate, WatchUpdateView,
};

verus! {

/// The longest wait between two attempts, in seconds: half an hour.
pub const MAX_RETRY_DELAY_SECS: u64 = 1800;

/// How long a driven plan without a sign of life is not stale, in seconds: a
/// day.
pub const DRIVER_STALE_SECS: i64 = 86400;

/// What a caller asks of a run.
#[derive(Debug)]
pub struct RunPlanRequest {
    pub notify: Option<bool>,
    pub wake: Option<bool>,
    pub model: Option<String>,
    pub model_fallbacks: Option<Vec<String>>,
    pub max_retries: Option<u32>,
    pub retry_backoff_secs: Option<u64>,
    pub expected_sha: Option<String>,
    pub expected_artifacts: Option<Vec<String>>,
    pub timeout_minutes: Option<u64>,
}

/// The settings of a run.
#[derive(Debug)]
pub struct RunPlanOptions {
    pub notify: bool,
    pub wake: bool,
    pub model: Option<String>,
    pub model_fallbacks: Vec<String>,
    pub max_retries: u32,
    pub retry_backoff_secs: u64,
    pub expected_sha: Option<String>,
    pub expected_artifacts: Vec<String>,
    pub timeout_minutes: u64,
}

pub open spec fn list_or_empty(o: Option<Vec<String>>) -> Seq<Seq<char>> {
    match o {
        Some(v) => views(v@),
        None => Seq::empty(),
    }
}

/// `n` as a number of 32 bits: what is above wraps round.
pub open spec fn wrap32(n: nat) -> u32 {
    (n % 0x1_0000_0000) as u32
}

/// The settings that a request stands for: its owner is notified and woken, a
/// failed run is tried once for each other model, and the first wait is thirty
/// seconds, unless the request says otherwise.
pub open spec fn options_of(request: RunPlanRequest, options: RunPlanOptions) -> bool {
    &&& options.notify == (match request.notify {
        Some(b) => b,
        None => true,
    })
    &&& options.wake == (match request.wake {
        Some(b) => b,
        None => true,
    })
    &&& opt_view(options.model) == opt_view(request.model)
    &&& views(options.model_fallbacks@) == list_or_empty(request.model_fallbacks)
    &&& options.max_retries == (match request.max_retries {
        Some(n) => n,
        None => wrap32(list_or_empty(request.model_fallbacks).len()),
    })
    &&& options.retry_backoff_secs == (match request.retry_backoff_secs {
        Some(n) => if n >= 1 {
            n
        } else {
            1
        },
        None => 30,
    })
    &&& opt_view(options.expected_sha) == opt_view(request.expected_sha)
    &&& views(options.expected_artifacts@) == list_or_empty(request.expected_artifacts)
    &&& options.timeout_minutes == (match request.timeout_minutes {
        Some(n) => if n >= 1 {
            n
        } else {
            1
        },
        None => 60,
    })
}

fn texts_or_empty(o: &Option<Vec<String>>) -> (res: Vec<String>)
    ensures
        views(res@) == list_or_empty(*o),
{
    match o {
        Some(v) => copy_texts(v),
        None => {
            let res: Vec<String> = Vec::new();
            assert(views(res@) =~= Seq::empty());
            res
        },
    }
}

pub fn run_plan_options(request: &RunPlanRequest) -> (res: RunPlanOptions)
    ensures
        options_of(*request, res),
{
    let model_fallbacks = texts_or_empty(&request.model_fallbacks);
    assert(model_fallbacks@.len() == list_or_empty(request.model_fallbacks).len());
    let max_retries: u32 = match request.max_retries {
        Some(n) => n,
        None => (model_fallbacks.len() as u64 % 0x1_0000_0000) as u32,
    };
    RunPlanOptions {
        notify: match request.notify {
            Some(b) => b,
            None => true,
        },
        wake: match request.wake {
            Some(b) => b,
            None => true,
        },
        model: copy_opt(&request.model),
        model_fallbacks,
        max_retries,
        retry_backoff_secs: match request.retry_backoff_secs {
            Some(n) => if n >= 1 {
                n
            } else {
                1
            },
            None => 30,
        },
        expected_sha: copy_opt(&request.expected_sha),
        expected_artifacts: texts_or_empty(&request.expected_artifacts),
        timeout_minutes: match request.timeout_minutes {
            Some(n) => if n >= 1 {
                n
            } else {
                1
            },
            None => 60,
        },
    }
}

// ---------------------------------------------------------------------------
// Attempts
// ---------------------------------------------------------------------------

/// How long to wait after this many retries: twice as long after each, up to
/// half an hour.
pub open spec fn retry_delay(backoff_secs: u64, retries: u32) -> nat {
    let doublings: nat = if retries > 31 {
        31
    } else {
        retries as nat
    };
    let wait = backoff_secs as nat * pow2(doublings);
    if wait <= MAX_RETRY_DELAY_SECS {
        wait
    } else {
        MAX_RETRY_DELAY_SECS as nat
    }
}

pub fn retry_delay_secs(backoff_secs: u64, retries: u32) -> (res: u64)
    ensures
        res == retry_delay(backoff_secs, retries),
        res <= MAX_RETRY_DELAY_SECS,
{
    let doublings: u32 = if retries > 31 {
        31
    } else {
        retries
    };
    let wait = times_pow2(backoff_secs, doublings);
    if wait <= MAX_RETRY_DELAY_SECS as u128 {
        wait as u64
    } else {
        MAX_RETRY_DELAY_SECS
    }
}

/// Where a run stands: how often it was tried again, and with which model.
#[derive(Debug)]
pub struct RunPlanDriver {
    pub retries: u32,
    pub model: Option<String>,
}

/// What the driver does after a failed attempt.
#[derive(Debug)]
pub enum RunPlanStep {
    /// Say this, wait so many seconds, and try again.
    Retry { note: String, delay_secs: u64 },
    /// Say this and give up.
    GiveUp { note: String },
}

#[verifier::ext_equal]
pub enum StepView {
    Retry { note: Seq<char>, delay_secs: nat },
    GiveUp { note: Seq<char> },
}

impl View for RunPlanStep {
    type V = StepView;

    open spec fn view(&self) -> StepView {
        match self {
            RunPlanStep::Retry { note, delay_secs } => StepView::Retry {
                note: note@,
                delay_secs: *delay_secs as nat,
            },
            RunPlanStep::GiveUp { note } => StepView::GiveUp { note: note@ },
        }
    }
}

/// The model for the next attempt, where the list has one for it.
pub open spec fn next_model(fallbacks: Seq<Seq<char>>, retries: u32) -> Option<Seq<char>> {
    if retries < fallbacks.len() {
        Some(fallbacks[retries as int])
    } else {
        None
    }
}

/// What is said of the next attempt.
pub open spec fn retry_note(
    error: Seq<char>,
    attempt: nat,
    max_retries: nat,
    delay: nat,
    model: Option<Seq<char>>,
) -> Seq<char> {
    "run_plan driver failed: "@ + error + ". Retrying attempt "@ + decimal_spec(attempt) + "/"@
        + decimal_spec(max_retries) + " in "@ + decimal_spec(delay) + "s"@ + (match model {
        Some(model) => " with model "@ + model,
        None => Seq::empty(),
    }) + "."@
}

/// A failed attempt: while the policy allows another one, the driver waits and
/// tries again with the next model; else it gives up.
pub open spec fn after_failure(
    retries: u32,
    model: Option<Seq<char>>,
    fallbacks: Seq<Seq<char>>,
    max_retries: u32,
    backoff_secs: u64,
    error: Seq<char>,
) -> (u32, Option<Seq<char>>, StepView) {
    if retries < max_retries {
        let next = next_model(fallbacks, retries);
        let delay = retry_delay(backoff_secs, retries);
        (
            (retries + 1) as u32,
            if next is Some {
                next
            } else {
                model
            },
            StepView::Retry {
                note: retry_note(
                    error,
                    (retries + 1) as nat,
                    max_retries as nat,
                    delay,
                    next,
                ),
                delay_secs: delay,
            },
        )
    } else {
        (retries, model, StepView::GiveUp { note: "run_plan failed: "@ + error })
    }
}

impl RunPlanDriver {
    /// A driver before its first attempt.
    pub fn start(options: &RunPlanOptions) -> (res: Self)
        ensures
            res.retries == 0,
            opt_view(res.model) == opt_view(options.model),
    {
        RunPlanDriver { retries: 0, model: copy_opt(&options.model) }
    }

    /// Decides what to do after a failed attempt.
    pub fn failed(&mut self, options: &RunPlanOptions, error: &str) -> (res: RunPlanStep)
        ensures
            (final(self).retries, opt_view(final(self).model), res@) == after_failure(
                old(self).retries,
                opt_view(old(self).model),
                views(options.model_fallbacks@),
                options.max_retries,
                options.retry_backoff_secs,
                error@,
            ),
    {
        if self.retries < options.max_retries {
            let delay_secs = retry_delay_secs(options.retry_backoff_secs, self.retries);
            let fallbacks = &options.model_fallbacks;
            let next = if (self.retries as usize) < fallbacks.len() {
                Some(fallbacks[self.retries as usize].clone())
            } else {
                None
            };
            let suffix = match &next {
                Some(model) => " with model ".to_string().concat(model.as_str()),
                None => String::new(),
            };
            self.retries = self.retries + 1;
            let note = "run_plan driver failed: ".to_string().concat(error).concat(
                ". Retrying attempt ",
            ).concat(decimal(self.retries as u64).as_str()).concat("/").concat(
                decimal(options.max_retries as u64).as_str(),
            ).concat(" in ").concat(decimal(delay_secs).as_str()).concat("s").concat(
                suffix.as_str(),
            ).concat(".");
            if next.is_some() {
                self.model = next;
            }
            assert(note@ =~= retry_note(
                error@,
                self.retries as nat,
                options.max_retries as nat,
                delay_secs as nat,
                next_model(views(fallbacks@), old(self).retries),
            ));
            RunPlanStep::Retry { note, delay_secs }
        } else {
            RunPlanStep::GiveUp { note: "run_plan failed: ".to_string().concat(error) }
        }
    }
}

// ---------------------------------------------------------------------------
// The watch on a run
// ---------------------------------------------------------------------------

/// The number of attempts that so many retries make.
pub open spec fn attempts(max_retries: u32) -> u32 {
    if max_retries < u32::MAX {
        (max_retries + 1) as u32
    } else {
        max_retries
    }
}

/// What the watch on a run expects. There is none where the calendar cannot
/// hold the deadline.
pub open spec fn driver_watch(
    working_dir: Option<Seq<char>>,
    model: Option<Seq<char>>,
    fallbacks: Seq<Seq<char>>,
    max_retries: u32,
    backoff_secs: u64,
    expected_sha: Option<Seq<char>>,
    artifacts: Seq<Seq<char>>,
    timeout_minutes: u64,
    now: Timestamp,
) -> Option<WatchUpdateView> {
    match now.plus_spec(signed_secs_spec(timeout_minutes) * 60) {
        None => None,
        Some(deadline) => Some(
            WatchUpdateView {
                working_dir,
                expected_sha,
                expected_artifacts: Some(
                    artifacts.map_values(
                        |path: Seq<char>| ExpectationView { path, required: true },
                    ),
                ),
                deadline: Some(deadline),
                stale_after: Some(DRIVER_STALE_SECS),
                retry: Some(
                    RetryView {
                        max_attempts: attempts(max_retries),
                        initial_backoff_secs: backoff_secs,
                        max_backoff_secs: MAX_RETRY_DELAY_SECS,
                        model_fallbacks: seq![
                            match model {
                                Some(model) => model,
                                None => "<inherited>"@,
                            },
                        ] + fallbacks,
                    },
                ),
                ..no_update()
            },
        ),
    }
}

pub open spec fn update_view(o: Option<WatchUpdate>) -> Option<WatchUpdateView> {
    match o {
        Some(update) => Some(update@),
        None => None,
    }
}

fn required_artifacts(paths: &Vec<String>) -> (res: Vec<ArtifactExpectation>)
    ensures
        expectation_views(res@) == views(paths@).map_values(
            |path: Seq<char>| ExpectationView { path, required: true },
        ),
{
    let ghost all = views(paths@).map_values(
        |path: Seq<char>| ExpectationView { path, required: true },
    );
    let mut res: Vec<ArtifactExpectation> = Vec::new();
    let mut i: usize = 0;
    while i < paths.len()
        invariant
            i <= paths@.len(),
            all == views(paths@).map_values(
                |path: Seq<char>| ExpectationView { path, required: true },
            ),
            expectation_views(res@) =~= all.take(i as int),
        decreases paths@.len() - i,
    {
        let ghost done = expectation_views(res@);
        let one = ArtifactExpectation::required(paths[i].as_str());
        let ghost seen = one@;
        assert(seen == all[i as int]);
        res.push(one);
        assert(expectation_views(res@) =~= done.push(seen));
        i += 1;
    }
    assert(all.take(i as int) =~= all);
    res
}

pub fn driver_watch_update(
    options: &RunPlanOptions,
    working_dir: &Option<String>,
    now: Timestamp,
) -> (res: Option<WatchUpdate>)
    ensures
        update_view(res) == driver_watch(
            opt_view(*working_dir),
            opt_view(options.model),
            views(options.model_fallbacks@),
            options.max_retries,
            options.retry_backoff_secs,
            opt_view(options.expected_sha),
            views(options.expected_artifacts@),
            options.timeout_minutes,
            now,
        ),
{
    let minutes = signed_secs(options.timeout_minutes);
    let secs: i128 = minutes as i128 * 60;
    if secs < i64::MIN as i128 || secs > i64::MAX as i128 {
        return None;
    }
    let deadline = match now.plus(secs as i64) {
        Some(deadline) => deadline,
        None => {
            return None;
        },
    };
    let first = match &options.model {
        Some(model) => model.clone(),
        None => "<inherited>".to_string(),
    };
    let mut models: Vec<String> = Vec::new();
    let ghost name = first@;
    models.push(first);
    let mut more = copy_texts(&options.model_fallbacks);
    models.append(&mut more);
    assert(views(models@) =~= seq![name] + views(options.model_fallbacks@));
    Some(
        WatchUpdate {
            worker_session_id: None,
            process_id: None,
            working_dir: copy_opt(working_dir),
            expected_sha: copy_opt(&options.expected_sha),
            expected_artifacts: Some(required_artifacts(&options.expected_artifacts)),
            deadline: Some(deadline),
            stale_after: Some(DRIVER_STALE_SECS),
            retry: Some(
                RetryPolicy {
                    max_attempts: if options.max_retries < u32::MAX {
                        options.max_retries + 1
                    } else {
                        options.max_retries
                    },
                    initial_backoff_secs: options.retry_backoff_secs,
                    max_backoff_secs: MAX_RETRY_DELAY_SECS,
                    model_fallbacks: models,
                },
            ),
        },
    )
}

// ---------------------------------------------------------------------------
// Texts
// ---------------------------------------------------------------------------

/// What a caller is told whose plan has no items. With items there is nothing
/// to tell.
pub fn nothing_to_run(item_count: usize) -> (res: Option<String>)
    ensures
        opt_view(res) == if item_count == 0 {
            Some("No swarm plan items to run."@)
        } else {
            None
        },
{
    if item_count == 0 {
        Some("No swarm plan items to run.".to_string())
    } else {
        None
    }
}

pub open spec fn already_running_text(task_id: Option<Seq<char>>) -> Seq<char> {
    match task_id {
        Some(id) => "A swarm run_plan driver is already running for this session (task "@ + id
            + "). Check it with `bg action=\"status\" task_id=\""@ + id
            + "\"` or `swarm plan_status` instead of starting another."@,
        None =>
            "A swarm run_plan driver is already starting for this session. Check it with `swarm plan_status` instead of starting another."@,
    }
}

/// What a caller is told whose session has a driver already.
pub fn already_running(task_id: &Option<String>) -> (res: String)
    ensures
        res@ == already_running_text(opt_view(*task_id)),
{
    match task_id {
        Some(id) =>
            "A swarm run_plan driver is already running for this session (task ".to_string().concat(
            id.as_str(),
        ).concat("). Check it with `bg action=\"status\" task_id=\"").concat(id.as_str()).concat(
            "\"` or `swarm plan_status` instead of starting another.",
        ),
        None =>
            "A swarm run_plan driver is already starting for this session. Check it with `swarm plan_status` instead of starting another.".to_string(),
    }
}

pub open spec fn display_text(item_count: nat, mode: Seq<char>) -> Seq<char> {
    "run_plan ("@ + decimal_spec(item_count) + " nodes, "@ + mode + " mode)"@
}

/// The name that a run is shown under.
pub fn display_name(item_count: usize, mode: &str) -> (res: String)
    ensures
        res@ == display_text(item_count as nat, mode@),
{
    "run_plan (".to_string().concat(decimal(item_count as u64).as_str()).concat(
        " nodes, ",
    ).concat(mode).concat(" mode)")
}

pub open spec fn delivery_note_text(wake: bool, notify: bool) -> Seq<char> {
    if wake {
        "You'll be woken with the result when the plan reaches a terminal state."@
    } else if notify {
        "A notification will appear when the plan reaches a terminal state."@
    } else {
        "Notifications disabled. Use the `bg` tool to check status."@
    }
}

/// How the caller will learn of the end.
pub fn delivery_note(wake: bool, notify: bool) -> (res: String)
    ensures
        res@ == delivery_note_text(wake, notify),
{
    if wake {
        "You'll be woken with the result when the plan reaches a terminal state.".to_string()
    } else if notify {
        "A notification will appear when the plan reaches a terminal state.".to_string()
    } else {
        "Notifications disabled. Use the `bg` tool to check status.".to_string()
    }
}

pub open spec fn started_text(
    task_id: Seq<char>,
    item_count: nat,
    mode: Seq<char>,
    output_file: Seq<char>,
    note: Seq<char>,
) -> Seq<char> {
    "\u{1f41d} Swarm plan running in background.\n\nTask ID: "@ + task_id + "\nPlan: "@
        + decimal_spec(item_count) + " node(s), "@ + mode + " mode\nOutput file: "@ + output_file
        + "\n\n"@ + note
        + "\nCheck progress: use the `bg` tool with action=\"status\" and task_id=\""@ + task_id
        + "\", or `swarm plan_status`.\nNote: a server reload stops this driver (workers keep running); rerun `swarm run_plan` to resume driving the same plan."@
}

/// What the caller is told of a run that has started.
pub fn started(task_id: &str, item_count: usize, mode: &str, output_file: &str, note: &str) -> (res:
    String)
    ensures
        res@ == started_text(task_id@, item_count as nat, mode@, output_file@, note@),
{
    "\u{1f41d} Swarm plan running in background.\n\nTask ID: ".to_string().concat(task_id).concat(
        "\nPlan: ",
    ).concat(decimal(item_count as u64).as_str()).concat(" node(s), ").concat(mode).concat(
        " mode\nOutput file: ",
    ).concat(output_file).concat("\n\n").concat(note).concat(
        "\nCheck progress: use the `bg` tool with action=\"status\" and task_id=\"",
    ).concat(task_id).concat(
        "\", or `swarm plan_status`.\nNote: a server reload stops this driver (workers keep running); rerun `swarm run_plan` to resume driving the same plan.",
    )
}

/// The title of that message.
pub fn started_title(task_id: &str) -> (res: String)
    ensures
        res@ == "Swarm run_plan in background: "@ + task_id@,
{
    "Swarm run_plan in background: ".to_string().concat(task_id)
}

// ---------------------------------------------------------------------------
// Laws
// ---------------------------------------------------------------------------

/// A run is tried again at most as often as its policy allows, and gives up
/// after that.
pub proof fn law_retries_are_bounded(
    retries: u32,
    model: Option<Seq<char>>,
    fallbacks: Seq<Seq<char>>,
    max_retries: u32,
    backoff_secs: u64,
    error: Seq<char>,
)
    requires
        retries <= max_retries,
    ensures
        ({
            let (after, _, step) = after_failure(
                retries,
                model,
                fallbacks,
                max_retries,
                backoff_secs,
                error,
            );
            &&& after <= max_retries
            &&& step is Retry <==> retries < max_retries
            &&& step is Retry ==> after == retries + 1
        }),
{
}

/// How a run ended: after so many attempts, and whether the last one succeeded.
pub ghost struct RunEnd {
    pub attempts: nat,
    pub succeeded: bool,
}

/// A run from here on. `errors` gives the error of each attempt by its number,
/// and none where the attempt succeeds.
pub open spec fn run_from(
    retries: u32,
    model: Option<Seq<char>>,
    fallbacks: Seq<Seq<char>>,
    max_retries: u32,
    backoff_secs: u64,
    errors: spec_fn(nat) -> Option<Seq<char>>,
    attempt: nat,
) -> RunEnd
    decreases max_retries - retries,
{
    match errors(attempt) {
        None => RunEnd { attempts: attempt + 1, succeeded: true },
        Some(error) => {
            let (after, next, step) = after_failure(
                retries,
                model,
                fallbacks,
                max_retries,
                backoff_secs,
                error,
            );
            match step {
                StepView::Retry { .. } => run_from(
                    after,
                    next,
                    fallbacks,
                    max_retries,
                    backoff_secs,
                    errors,
                    attempt + 1,
                ),
                StepView::GiveUp { .. } => RunEnd { attempts: attempt + 1, succeeded: false },
            }
        },
    }
}

proof fn lemma_run_from(
    retries: u32,
    model: Option<Seq<char>>,
    fallbacks: Seq<Seq<char>>,
    max_retries: u32,
    backoff_secs: u64,
    errors: spec_fn(nat) -> Option<Seq<char>>,
    failures: nat,
)
    requires
        retries <= max_retries,
        retries <= failures,
        forall|i: nat| i < failures ==> #[trigger] errors(i) is Some,
        errors(failures) is None || failures > max_retries,
    ensures
        run_from(
            retries,
            model,
            fallbacks,
            max_retries,
            backoff_secs,
            errors,
            retries as nat,
        ) == if failures <= max_retries {
            RunEnd { attempts: failures + 1, succeeded: true }
        } else {
            RunEnd { attempts: max_retries as nat + 1, succeeded: false }
        },
    decreases max_retries - retries,
{
    if retries < failures && retries < max_retries {
        assert(errors(retries as nat) is Some);
        let next = after_failure(
            retries,
            model,
            fallbacks,
            max_retries,
            backoff_secs,
            errors(retries as nat)->0,
        ).1;
        lemma_run_from(
            (retries + 1) as u32,
            next,
            fallbacks,
            max_retries,
            backoff_secs,
            errors,
            failures,
        );
    } else if retries < failures {
        assert(errors(retries as nat) is Some);
    }
}

/// A whole run: where so many attempts fail before one succeeds, and the policy
/// allows as many retries, the run succeeds with the next attempt. Where every
/// attempt fails that the policy allows, the run fails with the last of them.
pub proof fn law_runs_end_within_their_attempts(
    model: Option<Seq<char>>,
    fallbacks: Seq<Seq<char>>,
    max_retries: u32,
    backoff_secs: u64,
    errors: spec_fn(nat) -> Option<Seq<char>>,
    failures: nat,
)
    requires
        forall|i: nat| i < failures ==> #[trigger] errors(i) is Some,
        errors(failures) is None || failures > max_retries,
    ensures
        run_from(0, model, fallbacks, max_retries, backoff_secs, errors, 0)
            == if failures <= max_retries {
            RunEnd { attempts: failures + 1, succeeded: true }
        } else {
            RunEnd { attempts: max_retries as nat + 1, succeeded: false }
        },
{
    lemma_run_from(0, model, fallbacks, max_retries, backoff_secs, errors, failures);
}

/// The wait grows from retry to retry, and never passes half an hour.
pub proof fn law_retry_delays_grow(backoff_secs: u64, retries: u32, later: u32)
    requires
        retries <= later,
    ensures
        retry_delay(backoff_secs, retries) <= retry_delay(backoff_secs, later),
        retry_delay(backoff_secs, later) <= MAX_RETRY_DELAY_SECS,
        backoff_secs >= 1 ==> retry_delay(backoff_secs, retries) >= 1,
{
    let a: nat = if retries > 31 { 31 } else { retries as nat };
    let b: nat = if later > 31 { 31 } else { later as nat };
    lemma_pow2_pos(a);
    if a < b {
        lemma_pow2_strictly_increases(a, b);
    }
    let x = pow2(a);
    let y = pow2(b);
    let first = backoff_secs as nat;
    assert(first <= first * x && first * x <= first * y) by (nonlinear_arith)
        requires
            1 <= x <= y,
    ;
}

} // verus!
