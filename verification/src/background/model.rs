//! What is known of a background task, and what its owner is told.

use vstd::prelude::*;

use crate::clock::Timestamp;
use crate::text::{byte_len, byte_len_spec, copy_opt, opt_view, truncate, truncated};
use crate::watch::model::{Surroundings, SurroundingsView, WatchRecord};

verus! {

/// How far a background task has come.
#[derive(Debug, Clone, Copy, PartialEq, Eq, Structural)]
pub enum BackgroundTaskStatus {
    Running,
    Completed,
    Superseded,
    Failed,
}

/// The state of a background task as its status file keeps it.
#[derive(Debug)]
pub struct TaskStatusFile {
    pub task_id: String,
    pub tool_name: String,
    pub display_name: Option<String>,
    pub session_id: String,
    pub status: BackgroundTaskStatus,
    pub exit_code: Option<i32>,
    pub error: Option<String>,
    pub completed_at: Option<String>,
    pub pid: Option<u32>,
    pub owner_pid: Option<u32>,
    pub owner_instance: Option<String>,
    pub detached: bool,
    pub notify: bool,
    pub wake: bool,
}

#[verifier::ext_equal]
pub struct StatusFileView {
    pub task_id: Seq<char>,
    pub tool_name: Seq<char>,
    pub display_name: Option<Seq<char>>,
    pub session_id: Seq<char>,
    pub status: BackgroundTaskStatus,
    pub exit_code: Option<i32>,
    pub error: Option<Seq<char>>,
    pub completed_at: Option<Seq<char>>,
    pub pid: Option<u32>,
    pub owner_pid: Option<u32>,
    pub owner_instance: Option<Seq<char>>,
    pub detached: bool,
    pub notify: bool,
    pub wake: bool,
}

impl View for TaskStatusFile {
    type V = StatusFileView;

    open spec fn view(&self) -> StatusFileView {
        StatusFileView {
            task_id: self.task_id@,
            tool_name: self.tool_name@,
            display_name: opt_view(self.display_name),
            session_id: self.session_id@,
            status: self.status,
            exit_code: self.exit_code,
            error: opt_view(self.error),
            completed_at: opt_view(self.completed_at),
            pid: self.pid,
            owner_pid: self.owner_pid,
            owner_instance: opt_view(self.owner_instance),
            detached: self.detached,
            notify: self.notify,
            wake: self.wake,
        }
    }
}

pub open spec fn status_file_view(o: Option<TaskStatusFile>) -> Option<StatusFileView> {
    match o {
        Some(s) => Some(s@),
        None => None,
    }
}

impl Clone for TaskStatusFile {
    fn clone(&self) -> (res: Self)
        ensures
            res == *self,
    {
        TaskStatusFile {
            task_id: self.task_id.clone(),
            tool_name: self.tool_name.clone(),
            display_name: copy_opt(&self.display_name),
            session_id: self.session_id.clone(),
            status: self.status,
            exit_code: self.exit_code,
            error: copy_opt(&self.error),
            completed_at: copy_opt(&self.completed_at),
            pid: self.pid,
            owner_pid: self.owner_pid,
            owner_instance: copy_opt(&self.owner_instance),
            detached: self.detached,
            notify: self.notify,
            wake: self.wake,
        }
    }
}

/// What the owner of a task is told at its end.
#[derive(Debug)]
pub struct BackgroundTaskCompleted {
    pub task_id: String,
    pub tool_name: String,
    pub display_name: Option<String>,
    pub session_id: String,
    pub status: BackgroundTaskStatus,
    pub exit_code: Option<i32>,
    pub output_preview: String,
    pub output_file: String,
    pub notify: bool,
    pub wake: bool,
}

#[verifier::ext_equal]
pub struct CompletedView {
    pub task_id: Seq<char>,
    pub tool_name: Seq<char>,
    pub display_name: Option<Seq<char>>,
    pub session_id: Seq<char>,
    pub status: BackgroundTaskStatus,
    pub exit_code: Option<i32>,
    pub output_preview: Seq<char>,
    pub output_file: Seq<char>,
    pub notify: bool,
    pub wake: bool,
}

impl View for BackgroundTaskCompleted {
    type V = CompletedView;

    open spec fn view(&self) -> CompletedView {
        CompletedView {
            task_id: self.task_id@,
            tool_name: self.tool_name@,
            display_name: opt_view(self.display_name),
            session_id: self.session_id@,
            status: self.status,
            exit_code: self.exit_code,
            output_preview: self.output_preview@,
            output_file: self.output_file@,
            notify: self.notify,
            wake: self.wake,
        }
    }
}

pub open spec fn completed_view(o: Option<BackgroundTaskCompleted>) -> Option<CompletedView> {
    match o {
        Some(e) => Some(e@),
        None => None,
    }
}

pub open spec fn completed_views(v: Seq<BackgroundTaskCompleted>) -> Seq<CompletedView> {
    v.map_values(|e: BackgroundTaskCompleted| e@)
}

/// The process that looks after the tasks.
#[derive(Debug)]
pub struct ThisProcess {
    pub pid: u32,
    pub instance: String,
}

/// What the machine shows of one task: its status file, whether this process
/// runs it, whether its owner and its own process run, what surrounds it, and
/// what it has written.
#[derive(Debug)]
pub struct TaskSituation {
    pub status: Option<TaskStatusFile>,
    pub live: bool,
    pub owner_running: bool,
    pub pid_running: bool,
    pub around: Surroundings,
    pub output: String,
    pub output_file: String,
}

#[verifier::ext_equal]
pub struct SituationView {
    pub status: Option<StatusFileView>,
    pub live: bool,
    pub owner_running: bool,
    pub pid_running: bool,
    pub around: SurroundingsView,
    pub output: Seq<char>,
    pub output_file: Seq<char>,
}

impl View for TaskSituation {
    type V = SituationView;

    open spec fn view(&self) -> SituationView {
        SituationView {
            status: status_file_view(self.status),
            live: self.live,
            owner_running: self.owner_running,
            pid_running: self.pid_running,
            around: self.around@,
            output: self.output@,
            output_file: self.output_file@,
        }
    }
}

/// The time, and the identifiers for what one step hands out.
#[derive(Debug)]
pub struct Stamp {
    pub now: Timestamp,
    pub lease_id: String,
    pub event_id: String,
}

#[verifier::ext_equal]
pub struct StampView {
    pub now: Timestamp,
    pub lease_id: Seq<char>,
    pub event_id: Seq<char>,
}

impl View for Stamp {
    type V = StampView;

    open spec fn view(&self) -> StampView {
        StampView { now: self.now, lease_id: self.lease_id@, event_id: self.event_id@ }
    }
}

pub open spec fn stamp_views(v: Seq<Stamp>) -> Seq<StampView> {
    v.map_values(|s: Stamp| s@)
}

/// A listed watch with the situation of its task.
#[derive(Debug)]
pub struct WatchedTask {
    pub record: WatchRecord,
    pub situation: TaskSituation,
}

/// What is to be done after one task was looked at: a status file to write, the
/// completions to publish, and whether the task counts as reconciled.
#[derive(Debug)]
pub struct TaskOutcome {
    pub status: Option<TaskStatusFile>,
    pub completions: Vec<BackgroundTaskCompleted>,
    pub counted: bool,
}

#[verifier::ext_equal]
pub struct OutcomeView {
    pub status: Option<StatusFileView>,
    pub completions: Seq<CompletedView>,
    pub counted: bool,
}

impl View for TaskOutcome {
    type V = OutcomeView;

    open spec fn view(&self) -> OutcomeView {
        OutcomeView {
            status: status_file_view(self.status),
            completions: completed_views(self.completions@),
            counted: self.counted,
        }
    }
}

pub open spec fn outcome_views(v: Seq<TaskOutcome>) -> Seq<OutcomeView> {
    v.map_values(|o: TaskOutcome| o@)
}

/// How many of the tasks count as reconciled.
pub open spec fn counted(outcomes: Seq<OutcomeView>) -> nat
    decreases outcomes.len(),
{
    if outcomes.len() == 0 {
        0
    } else {
        counted(outcomes.drop_last()) + if outcomes.last().counted {
            1nat
        } else {
            0nat
        }
    }
}

pub fn count_reconciled(outcomes: &Vec<TaskOutcome>) -> (res: usize)
    ensures
        res == counted(outcome_views(outcomes@)),
{
    let ghost all = outcome_views(outcomes@);
    let mut res: usize = 0;
    let mut i: usize = 0;
    while i < outcomes.len()
        invariant
            res <= i <= outcomes@.len(),
            all == outcome_views(outcomes@),
            res == counted(all.take(i as int)),
        decreases outcomes@.len() - i,
    {
        assert(all.take(i + 1).drop_last() =~= all.take(i as int));
        assert(all.take(i + 1).last() == outcomes@[i as int]@);
        if outcomes[i].counted {
            res += 1;
        }
        i += 1;
    }
    assert(all.take(i as int) =~= all);
    res
}

// ---------------------------------------------------------------------------
// Previews
// ---------------------------------------------------------------------------

/// How many bytes of a task's output its owner is shown.
pub const PREVIEW_BYTES: usize = 500;

/// What is shown of a task's output.
pub open spec fn preview_spec(output: Seq<char>) -> Seq<char> {
    if byte_len_spec(output) > PREVIEW_BYTES {
        truncated(output, PREVIEW_BYTES as nat) + "..."@
    } else {
        output
    }
}

pub fn preview(output: &str) -> (res: String)
    ensures
        res@ == preview_spec(output@),
{
    if byte_len(output) > PREVIEW_BYTES {
        truncate(output, PREVIEW_BYTES).concat("...")
    } else {
        output.to_string()
    }
}

} // verus!
