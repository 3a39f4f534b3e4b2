//! Tasks: what is being converted, how far it is, and what becomes of it.

use crate::ai::{copy_option, opt_text};
use crate::args::{same_settings, Cli};
use crate::order::{is_text_le, text_le};
use crate::process::{waits_for_analysis, ProcessError};
use crate::search::{contains_text, same, starts_with, strip_prefix};
use crate::text::copy;
use vstd::prelude::*;

verus! {

/// How a task stands.
#[derive(Clone, Copy, Debug, PartialEq, Eq, Structural)]
pub enum TaskStatus {
    Pending,
    Processing,
    Paused,
    Completed,
    Error,
    Cancelled,
}

impl TaskStatus {
    /// The name of the status.
    pub open spec fn name_of(self) -> Seq<char> {
        match self {
            TaskStatus::Pending => "pending"@,
            TaskStatus::Processing => "processing"@,
            TaskStatus::Paused => "paused"@,
            TaskStatus::Completed => "completed"@,
            TaskStatus::Error => "error"@,
            TaskStatus::Cancelled => "cancelled"@,
        }
    }

    /// The name of the status.
    pub fn name(self) -> (r: &'static str)
        ensures
            r@ == self.name_of(),
    {
        match self {
            TaskStatus::Pending => "pending",
            TaskStatus::Processing => "processing",
            TaskStatus::Paused => "paused",
            TaskStatus::Completed => "completed",
            TaskStatus::Error => "error",
            TaskStatus::Cancelled => "cancelled",
        }
    }

    /// The status with that name.
    pub fn from_name(name: &str) -> (r: Option<TaskStatus>)
        ensures
            r matches Some(s) ==> s.name_of() == name@,
            r is None ==> forall|s: TaskStatus| (#[trigger] s.name_of()) != name@,
    {
        if same(name, "pending") {
            Some(TaskStatus::Pending)
        } else if same(name, "processing") {
            Some(TaskStatus::Processing)
        } else if same(name, "paused") {
            Some(TaskStatus::Paused)
        } else if same(name, "completed") {
            Some(TaskStatus::Completed)
        } else if same(name, "error") {
            Some(TaskStatus::Error)
        } else if same(name, "cancelled") {
            Some(TaskStatus::Cancelled)
        } else {
            None
        }
    }
}

/// The two parts of the work on a book.
#[derive(Clone, Copy, Debug, PartialEq, Eq, Structural)]
pub enum TaskPhase {
    /// Finding the speakers.
    Analysis,
    /// Making the sound.
    Synthesis,
}

/// How a part of the work stands.
#[derive(Debug)]
pub struct TaskPhaseState {
    pub status: TaskStatus,
    pub current: usize,
    pub total: usize,
    pub error_msg: Option<String>,
    pub start_time: Option<u64>,
    pub end_time: Option<u64>,
    pub size: Option<u64>,
    pub eta: Option<u64>,
    pub output_path: Option<String>,
}

impl Clone for TaskPhaseState {
    fn clone(&self) -> (r: TaskPhaseState)
        ensures
            r == *self,
    {
        TaskPhaseState {
            status: self.status,
            current: self.current,
            total: self.total,
            error_msg: copy_option(&self.error_msg),
            start_time: self.start_time,
            end_time: self.end_time,
            size: self.size,
            eta: self.eta,
            output_path: copy_option(&self.output_path),
        }
    }
}

/// A task.
#[derive(Debug)]
pub struct TaskState {
    pub id: String,
    pub file_name: String,
    pub full_path: Option<String>,
    pub status: TaskStatus,
    pub current: usize,
    pub total: usize,
    pub error_msg: Option<String>,
    pub cli_config: Option<Cli>,
    pub start_time: Option<u64>,
    pub end_time: Option<u64>,
    pub size: Option<u64>,
    pub eta: Option<u64>,
    pub created_at: Option<u64>,
    pub output_path: Option<String>,
    pub is_hidden: bool,
    pub active_phase: Option<TaskPhase>,
    pub analysis_phase: Option<TaskPhaseState>,
    pub synthesis_phase: Option<TaskPhaseState>,
}

/// How the work stands, as a part of it, with a status.
pub open spec fn phase_of(t: TaskState, status: TaskStatus) -> TaskPhaseState {
    TaskPhaseState {
        status,
        current: t.current,
        total: t.total,
        error_msg: t.error_msg,
        start_time: t.start_time,
        end_time: t.end_time,
        size: t.size,
        eta: t.eta,
        output_path: t.output_path,
    }
}

/// How the work stands, as a part of it, with a status.
pub fn task_phase_from_task(task: &TaskState, status: TaskStatus) -> (r: TaskPhaseState)
    ensures
        r == phase_of(*task, status),
{
    TaskPhaseState {
        status,
        current: task.current,
        total: task.total,
        error_msg: copy_option(&task.error_msg),
        start_time: task.start_time,
        end_time: task.end_time,
        size: task.size,
        eta: task.eta,
        output_path: copy_option(&task.output_path),
    }
}

/// The task with the part that is being worked on as the task stands.
pub open spec fn synced(t: TaskState) -> TaskState {
    match t.active_phase {
        Some(TaskPhase::Analysis) => TaskState {
            analysis_phase: Some(phase_of(t, t.status)),
            ..t
        },
        Some(TaskPhase::Synthesis) => TaskState {
            synthesis_phase: Some(phase_of(t, t.status)),
            ..t
        },
        None => t,
    }
}

/// Writes down how the part that is being worked on stands.
pub fn sync_active_phase(task: &mut TaskState)
    ensures
        *final(task) == synced(*old(task)),
{
    match task.active_phase {
        Some(TaskPhase::Analysis) => {
            task.analysis_phase = Some(task_phase_from_task(task, task.status));
        },
        Some(TaskPhase::Synthesis) => {
            task.synthesis_phase = Some(task_phase_from_task(task, task.status));
        },
        None => {},
    }
}

/// Whether a task is waiting or under way.
pub open spec fn open_status(s: TaskStatus) -> bool {
    s == TaskStatus::Pending || s == TaskStatus::Processing || s == TaskStatus::Paused
}

/// Whether a task is under way, or paused.
pub open spec fn running_status(s: TaskStatus) -> bool {
    s == TaskStatus::Processing || s == TaskStatus::Paused
}

fn is_open(s: TaskStatus) -> (b: bool)
    ensures
        b == open_status(s),
{
    s == TaskStatus::Pending || s == TaskStatus::Processing || s == TaskStatus::Paused
}

fn is_running(s: TaskStatus) -> (b: bool)
    ensures
        b == running_status(s),
{
    s == TaskStatus::Processing || s == TaskStatus::Paused
}

/// A change that is made to a task.
#[derive(Debug)]
pub enum TaskChange {
    /// The task is cancelled.
    Cancel,
    /// The task is paused.
    Pause,
    /// The task goes on.
    Resume,
    /// Everything was stopped, at that time.
    Stop(u64),
    /// The program was started anew, at that time.
    Restart(u64),
    /// The task is about to be deleted, at that time.
    Discard(u64),
    /// The task is hidden where it is complete.
    Hide,
    /// The task is begun, at that time.
    Begin(u64),
    /// The task is picked from the queue, at that time.
    Pick(u64),
    /// The task is begun again from the start, at that time.
    Retry(u64),
    /// That many chapters of how many are done; with the seconds that are left, where they are
    /// known.
    Progress(usize, usize, Option<u64>),
    /// The output was made: how many bytes, and where.
    Output(u64, String),
    /// The work ended, or came to a halt, with a status and a message, at that time.
    Finish(TaskStatus, Option<String>, u64),
}

/// The status that the end of the work leaves: a cancelled task stays cancelled when it fails.
pub open spec fn finish_status(before: TaskStatus, s: TaskStatus) -> TaskStatus {
    if before == TaskStatus::Cancelled && s == TaskStatus::Error {
        TaskStatus::Cancelled
    } else {
        s
    }
}

/// Whether the work is over with that status.
pub open spec fn over(s: TaskStatus) -> bool {
    s == TaskStatus::Completed || s == TaskStatus::Error || s == TaskStatus::Cancelled
}

/// The task at the end of the work.
pub open spec fn finished(
    t: TaskState,
    status: TaskStatus,
    err: Option<String>,
    now: u64,
) -> TaskState {
    let s = finish_status(t.status, status);
    synced(
        TaskState {
            status: s,
            error_msg: if s != TaskStatus::Cancelled && err is Some {
                err
            } else {
                t.error_msg
            },
            current: if s == TaskStatus::Completed {
                t.total
            } else {
                t.current
            },
            end_time: if over(s) {
                Some(now)
            } else {
                t.end_time
            },
            eta: if over(s) {
                None
            } else {
                t.eta
            },
            ..t
        },
    )
}

/// Whether the change does anything to a task with that status.
pub open spec fn change_applies(s: TaskStatus, change: TaskChange) -> bool {
    match change {
        TaskChange::Cancel => open_status(s),
        TaskChange::Pause => s == TaskStatus::Processing,
        TaskChange::Resume => s == TaskStatus::Paused,
        TaskChange::Stop(_) => open_status(s),
        TaskChange::Restart(_) => running_status(s),
        TaskChange::Discard(_) => open_status(s),
        TaskChange::Hide => s == TaskStatus::Completed,
        _ => true,
    }
}

/// The message of a task that everything was stopped.
pub open spec fn stop_message() -> Seq<char> {
    "用户手动停止"@
}

/// The message of a task that was under way when the program was started anew.
pub open spec fn restart_message() -> Seq<char> {
    "服务器重启，任务已取消，请重试"@
}

/// Whether `after` is what the change makes of the task `before`. A message that the change brings
/// is stated by its text.
pub open spec fn changed(before: TaskState, change: TaskChange, after: TaskState) -> bool {
    if !change_applies(before.status, change) {
        after == before
    } else {
        match change {
            TaskChange::Cancel => after == synced(
                TaskState { status: TaskStatus::Cancelled, ..before },
            ),
            TaskChange::Pause => after == synced(
                TaskState { status: TaskStatus::Paused, eta: None, ..before },
            ),
            TaskChange::Resume => after == synced(
                TaskState { status: TaskStatus::Processing, ..before },
            ),
            TaskChange::Stop(now) => after.error_msg matches Some(m) && m@ == stop_message()
                && after == synced(
                TaskState {
                    status: TaskStatus::Cancelled,
                    error_msg: after.error_msg,
                    end_time: Some(now),
                    ..before
                },
            ),
            TaskChange::Restart(now) => after.error_msg matches Some(m) && m@ == restart_message()
                && after == synced(
                TaskState {
                    status: TaskStatus::Cancelled,
                    error_msg: after.error_msg,
                    end_time: Some(now),
                    eta: None,
                    ..before
                },
            ),
            TaskChange::Discard(now) => after == synced(
                TaskState {
                    status: TaskStatus::Cancelled,
                    end_time: Some(now),
                    eta: None,
                    ..before
                },
            ),
            TaskChange::Hide => after == (TaskState { is_hidden: true, ..before }),
            TaskChange::Begin(now) => after == (TaskState {
                status: TaskStatus::Processing,
                start_time: Some(now),
                end_time: None,
                size: None,
                ..before
            }),
            TaskChange::Pick(now) => after == (TaskState {
                status: TaskStatus::Processing,
                start_time: Some(now),
                ..before
            }),
            TaskChange::Retry(now) => after == (TaskState {
                status: TaskStatus::Processing,
                error_msg: None,
                current: 0,
                start_time: Some(now),
                end_time: None,
                size: None,
                eta: None,
                ..before
            }),
            TaskChange::Progress(current, total, eta) => after == (TaskState {
                current,
                total,
                eta: if eta is Some {
                    eta
                } else {
                    before.eta
                },
                ..before
            }),
            TaskChange::Output(size, path) => after == (TaskState {
                size: Some(size),
                output_path: Some(path),
                ..before
            }),
            TaskChange::Finish(status, err, now) => after == finished(before, status, err, now),
        }
    }
}

/// Makes a change to a task; says whether the change does anything to a task of its status.
pub fn change_task(task: &mut TaskState, change: &TaskChange) -> (r: bool)
    ensures
        r == change_applies(old(task).status, *change),
        changed(*old(task), *change, *final(task)),
{
    match change {
        TaskChange::Cancel => {
            if !is_open(task.status) {
                return false;
            }
            task.status = TaskStatus::Cancelled;
            sync_active_phase(task);
        },
        TaskChange::Pause => {
            if task.status != TaskStatus::Processing {
                return false;
            }
            task.status = TaskStatus::Paused;
            task.eta = None;
            sync_active_phase(task);
        },
        TaskChange::Resume => {
            if task.status != TaskStatus::Paused {
                return false;
            }
            task.status = TaskStatus::Processing;
            sync_active_phase(task);
        },
        TaskChange::Stop(now) => {
            if !is_open(task.status) {
                return false;
            }
            task.status = TaskStatus::Cancelled;
            task.error_msg = Some(copy("用户手动停止"));
            task.end_time = Some(*now);
            sync_active_phase(task);
        },
        TaskChange::Restart(now) => {
            if !is_running(task.status) {
                return false;
            }
            task.status = TaskStatus::Cancelled;
            task.error_msg = Some(copy("服务器重启，任务已取消，请重试"));
            task.end_time = Some(*now);
            task.eta = None;
            sync_active_phase(task);
        },
        TaskChange::Discard(now) => {
            if !is_open(task.status) {
                return false;
            }
            task.status = TaskStatus::Cancelled;
            task.end_time = Some(*now);
            task.eta = None;
            sync_active_phase(task);
        },
        TaskChange::Hide => {
            if task.status != TaskStatus::Completed {
                return false;
            }
            task.is_hidden = true;
        },
        TaskChange::Begin(now) => {
            task.status = TaskStatus::Processing;
            task.start_time = Some(*now);
            task.end_time = None;
            task.size = None;
        },
        TaskChange::Pick(now) => {
            task.status = TaskStatus::Processing;
            task.start_time = Some(*now);
        },
        TaskChange::Retry(now) => {
            task.status = TaskStatus::Processing;
            task.error_msg = None;
            task.current = 0;
            task.start_time = Some(*now);
            task.end_time = None;
            task.size = None;
            task.eta = None;
        },
        TaskChange::Progress(current, total, eta) => {
            task.current = *current;
            task.total = *total;
            if eta.is_some() {
                task.eta = *eta;
            }
        },
        TaskChange::Output(size, path) => {
            task.size = Some(*size);
            task.output_path = Some(path.clone());
        },
        TaskChange::Finish(status, err, now) => {
            let next = if task.status == TaskStatus::Cancelled && *status == TaskStatus::Error {
                TaskStatus::Cancelled
            } else {
                *status
            };
            task.status = next;
            if next != TaskStatus::Cancelled && err.is_some() {
                task.error_msg = copy_option(err);
            }
            if next == TaskStatus::Completed {
                task.current = task.total;
            }
            if next == TaskStatus::Completed || next == TaskStatus::Error || next
                == TaskStatus::Cancelled {
                task.end_time = Some(*now);
                task.eta = None;
            }
            sync_active_phase(task);
        },
    }
    true
}

/// A pause is undone by going on: the task is under way again as it was, but for the time that is
/// left.
pub proof fn law_resuming_undoes_pausing(t: TaskState, paused: TaskState, resumed: TaskState)
    requires
        t.status == TaskStatus::Processing,
        changed(t, TaskChange::Pause, paused),
        changed(paused, TaskChange::Resume, resumed),
    ensures
        paused.status == TaskStatus::Paused,
        resumed == synced(TaskState { eta: None, ..t }),
{
}

/// Once a task is cancelled, no failure of its work makes an error of it or changes its message.
pub proof fn law_cancelled_tasks_stay_cancelled(
    t: TaskState,
    err: Option<String>,
    now: u64,
    after: TaskState,
)
    requires
        t.status == TaskStatus::Cancelled,
        changed(t, TaskChange::Finish(TaskStatus::Error, err, now), after),
    ensures
        after.status == TaskStatus::Cancelled,
        after.error_msg == t.error_msg,
        after.eta is None,
{
}

/// A task that is complete has done all of its chapters and has no time left.
pub proof fn law_completed_tasks_are_done(
    t: TaskState,
    err: Option<String>,
    now: u64,
    after: TaskState,
)
    requires
        changed(t, TaskChange::Finish(TaskStatus::Completed, err, now), after),
    ensures
        after.status == TaskStatus::Completed,
        after.current == after.total,
        after.end_time == Some(now),
        after.eta is None,
{
}

/// After a start of the program no task is under way or paused.
pub proof fn law_nothing_runs_after_a_restart(t: TaskState, now: u64, after: TaskState)
    requires
        changed(t, TaskChange::Restart(now), after),
    ensures
        !running_status(after.status),
        running_status(t.status) ==> after.status == TaskStatus::Cancelled && after.end_time == Some(
            now,
        ),
        !running_status(t.status) ==> after == t,
{
}

/// After everything was stopped, no task is waiting or under way.
pub proof fn law_nothing_is_open_after_a_stop(t: TaskState, now: u64, after: TaskState)
    requires
        changed(t, TaskChange::Stop(now), after),
    ensures
        !open_status(after.status),
        !open_status(t.status) ==> after == t,
{
}

/// No change touches what the task is: its id, its name, its file and its settings.
pub proof fn law_changes_keep_the_task(t: TaskState, change: TaskChange, after: TaskState)
    requires
        changed(t, change, after),
    ensures
        after.id == t.id,
        after.file_name == t.file_name,
        after.full_path == t.full_path,
        after.cli_config == t.cli_config,
        after.created_at == t.created_at,
        after.active_phase == t.active_phase,
{
}

/// The seconds that a task has been under way, by which the time that is left can be told: where
/// it has a start, time has passed, and a chapter is done.
pub fn elapsed_for_eta(task: &TaskState, now: u64, current: usize) -> (r: Option<u64>)
    ensures
        match task.start_time {
            Some(start) => if now > start && current > 0 {
                r == Some((now - start) as u64)
            } else {
                r is None
            },
            None => r is None,
        },
{
    match task.start_time {
        Some(start) => if now > start && current > 0 {
            Some(now - start)
        } else {
            None
        },
        None => None,
    }
}

/// A part of the work that has just begun.
pub open spec fn new_phase(status: TaskStatus, start: Option<u64>) -> TaskPhaseState {
    TaskPhaseState {
        status,
        current: 0,
        total: 0,
        error_msg: None,
        start_time: start,
        end_time: None,
        size: None,
        eta: None,
        output_path: None,
    }
}

fn make_phase(status: TaskStatus, start: Option<u64>) -> (r: TaskPhaseState)
    ensures
        r == new_phase(status, start),
{
    TaskPhaseState {
        status,
        current: 0,
        total: 0,
        error_msg: None,
        start_time: start,
        end_time: None,
        size: None,
        eta: None,
        output_path: None,
    }
}

/// The name of a task: an analysis is marked as one.
pub open spec fn task_name_of(analysis: bool, name: Seq<char>) -> Seq<char> {
    if analysis {
        "分析: "@ + name
    } else {
        name
    }
}

/// Whether `t` is a new task with that id, name, path and settings: its part of the work is the
/// one that the settings ask for.
pub open spec fn is_new_task(
    t: TaskState,
    id: Seq<char>,
    name: Seq<char>,
    path: Seq<char>,
    cli: Cli,
    status: TaskStatus,
    start: Option<u64>,
    created: u64,
) -> bool {
    let phase = Some(new_phase(status, start));
    &&& t.id@ == id
    &&& t.file_name@ == task_name_of(cli.analysis_only, name)
    &&& t.full_path matches Some(p) && p@ == path
    &&& t.status == status
    &&& t.current == 0
    &&& t.total == 0
    &&& t.error_msg is None
    &&& t.cli_config == Some(cli)
    &&& t.start_time == start
    &&& t.end_time is None
    &&& t.size is None
    &&& t.eta is None
    &&& t.created_at == Some(created)
    &&& t.output_path is None
    &&& !t.is_hidden
    &&& if cli.analysis_only {
        t.active_phase == Some(TaskPhase::Analysis) && t.analysis_phase == phase
            && t.synthesis_phase is None
    } else {
        t.active_phase == Some(TaskPhase::Synthesis) && t.synthesis_phase == phase
            && t.analysis_phase is None
    }
}

fn make_task(
    id: &str,
    name: &str,
    path: &str,
    cli: Cli,
    status: TaskStatus,
    start: Option<u64>,
    created: u64,
) -> (r: TaskState)
    ensures
        is_new_task(r, id@, name@, path@, cli, status, start, created),
{
    let analysis = cli.analysis_only;
    let mut file_name = copy(if analysis { "分析: " } else { "" });
    file_name.append(name);
    proof {
        if !analysis {
            reveal_strlit("");
            assert(file_name@ =~= name@);
        }
    }
    TaskState {
        id: copy(id),
        file_name,
        full_path: Some(copy(path)),
        status,
        current: 0,
        total: 0,
        error_msg: None,
        cli_config: Some(cli),
        start_time: start,
        end_time: None,
        size: None,
        eta: None,
        created_at: Some(created),
        output_path: None,
        is_hidden: false,
        active_phase: Some(
            if analysis {
                TaskPhase::Analysis
            } else {
                TaskPhase::Synthesis
            },
        ),
        analysis_phase: if analysis {
            Some(make_phase(status, start))
        } else {
            None
        },
        synthesis_phase: if analysis {
            None
        } else {
            Some(make_phase(status, start))
        },
    }
}

/// A task that waits; `created` is the time in milliseconds.
pub fn pending_task(id: &str, name: &str, path: &str, cli: Cli, created: u64) -> (r: TaskState)
    ensures
        is_new_task(r, id@, name@, path@, cli, TaskStatus::Pending, None, created),
{
    make_task(id, name, path, cli, TaskStatus::Pending, None, created)
}

/// A task that is under way from now on; `created` is the time in milliseconds.
pub fn processing_task(
    id: &str,
    name: &str,
    path: &str,
    cli: Cli,
    now: u64,
    created: u64,
) -> (r: TaskState)
    ensures
        is_new_task(r, id@, name@, path@, cli, TaskStatus::Processing, Some(now), created),
{
    make_task(id, name, path, cli, TaskStatus::Processing, Some(now), created)
}

/// `s` without `p` at its start, as often as it stands there.
pub open spec fn without_prefixes(s: Seq<char>, p: Seq<char>) -> Seq<char>
    decreases s.len(),
{
    if p.len() > 0 && p.is_prefix_of(s) {
        without_prefixes(s.skip(p.len() as int), p)
    } else {
        s
    }
}

/// Why the sound cannot be made from an analysis.
#[derive(Clone, Copy, Debug, PartialEq, Eq, Structural)]
pub enum StartError {
    /// The task is no analysis, or is neither complete nor paused.
    NotReady,
    /// The task names no file.
    NoPath,
    /// The file does not exist.
    NoFile,
    /// The task has no settings.
    NoSettings,
    /// The settings name no voice.
    NoVoice,
    /// No address of the speech service is known.
    NoApi,
}

impl StartError {
    /// The message that goes with the error.
    pub fn message(self) -> (r: &'static str)
        ensures
            r@ == match self {
                StartError::NotReady => "只能从已完成或已暂停的分析任务开始合成"@,
                StartError::NoPath => "分析任务缺少源文件路径"@,
                StartError::NoFile => "源文件不存在，无法开始合成"@,
                StartError::NoSettings => "分析任务缺少合成配置"@,
                StartError::NoVoice => "分析任务缺少发音人配置，无法开始合成"@,
                StartError::NoApi => "缺少 MultiTTS API 地址，无法开始合成"@,
            },
    {
        match self {
            StartError::NotReady => "只能从已完成或已暂停的分析任务开始合成",
            StartError::NoPath => "分析任务缺少源文件路径",
            StartError::NoFile => "源文件不存在，无法开始合成",
            StartError::NoSettings => "分析任务缺少合成配置",
            StartError::NoVoice => "分析任务缺少发音人配置，无法开始合成",
            StartError::NoApi => "缺少 MultiTTS API 地址，无法开始合成",
        }
    }
}

/// Whether a task is an analysis: by its settings, or by its name.
pub open spec fn is_analysis(t: TaskState) -> bool {
    (t.cli_config matches Some(cli) && cli.analysis_only) || "分析: "@.is_prefix_of(t.file_name@)
}

/// What keeps the sound from being made from a task; none where nothing does.
pub open spec fn start_error(
    t: TaskState,
    on_disk: bool,
    default_api: Option<String>,
) -> Option<StartError> {
    if !is_analysis(t) || !(t.status == TaskStatus::Completed || t.status == TaskStatus::Paused) {
        Some(StartError::NotReady)
    } else if t.full_path is None {
        Some(StartError::NoPath)
    } else if !on_disk {
        Some(StartError::NoFile)
    } else if t.cli_config is None {
        Some(StartError::NoSettings)
    } else if t.cli_config->0.voice is None {
        Some(StartError::NoVoice)
    } else if t.cli_config->0.api is None && default_api is None {
        Some(StartError::NoApi)
    } else {
        None
    }
}

/// The settings for making the sound from an analysis: those of the task, under its name without
/// the mark of an analysis, with the known address where they have none.
pub open spec fn synthesis_settings(
    t: TaskState,
    default_api: Option<String>,
    r: Cli,
) -> bool {
    let cli = t.cli_config->0;
    &&& r.output_name matches Some(n) && n@ == without_prefixes(t.file_name@, "分析: "@)
    &&& same_settings(
        r,
        Cli {
            analysis_only: false,
            output_name: r.output_name,
            api: if cli.api is Some {
                cli.api
            } else {
                default_api
            },
            ..cli
        },
    )
}

fn strip_prefixes(s: &str, p: &str) -> (r: String)
    requires
        p@.len() > 0,
    ensures
        r@ == without_prefixes(s@, p@),
{
    let mut rest = copy(s);
    loop
        invariant
            p@.len() > 0,
            without_prefixes(rest@, p@) == without_prefixes(s@, p@),
        decreases rest@.len(),
    {
        match strip_prefix(rest.as_str(), p) {
            Some(t) => {
                rest = t;
            },
            None => {
                return rest;
            },
        }
    }
}

/// The settings for making the sound from an analysis, or what keeps it from being made;
/// `on_disk` says whether the task's file exists.
pub fn settings_for_synthesis(
    task: &TaskState,
    on_disk: bool,
    default_api: &Option<String>,
) -> (r: Result<Cli, StartError>)
    ensures
        match start_error(*task, on_disk, *default_api) {
            Some(e) => r == Err::<Cli, StartError>(e),
            None => r matches Ok(cli) && synthesis_settings(*task, *default_api, cli),
        },
{
    let marked = starts_with(task.file_name.as_str(), "分析: ");
    let by_settings = match &task.cli_config {
        Some(cli) => cli.analysis_only,
        None => false,
    };
    if !(by_settings || marked) || !(task.status == TaskStatus::Completed || task.status
        == TaskStatus::Paused) {
        return Err(StartError::NotReady);
    }
    if task.full_path.is_none() {
        return Err(StartError::NoPath);
    }
    if !on_disk {
        return Err(StartError::NoFile);
    }
    let mut cli = match &task.cli_config {
        Some(cli) => cli.clone(),
        None => return Err(StartError::NoSettings),
    };
    proof {
        reveal_strlit("分析: ");
    }
    cli.analysis_only = false;
    cli.output_name = Some(strip_prefixes(task.file_name.as_str(), "分析: "));
    if cli.voice.is_none() {
        return Err(StartError::NoVoice);
    }
    if cli.api.is_none() {
        if default_api.is_none() {
            return Err(StartError::NoApi);
        }
        cli.api = copy_option(default_api);
    }
    Ok(cli)
}

/// Whether only a saved analysis counts for the sound that is made from a task: the analysis is
/// not complete.
pub fn requires_existing_analysis(task: &TaskState) -> (r: bool)
    ensures
        r == (task.status == TaskStatus::Paused),
{
    task.status == TaskStatus::Paused
}

/// Why a task cannot be tried again.
#[derive(Clone, Copy, Debug, PartialEq, Eq, Structural)]
pub enum RetryError {
    /// There is no such task, or its file or its settings are not known.
    Unknown,
    /// The file does not exist.
    NoFile,
}

impl RetryError {
    /// The message that goes with the error.
    pub fn message(self) -> (r: &'static str)
        ensures
            r@ == match self {
                RetryError::Unknown => "任务无效或缺少配置信息"@,
                RetryError::NoFile => "原文件不存在，无法重试"@,
            },
    {
        match self {
            RetryError::Unknown => "任务无效或缺少配置信息",
            RetryError::NoFile => "原文件不存在，无法重试",
        }
    }
}

/// The file and the settings with which a task is tried again, or what keeps it from being tried;
/// `on_disk` says whether the task's file exists.
pub fn settings_for_retry(
    task: Option<&TaskState>,
    on_disk: bool,
) -> (r: Result<(String, Cli), RetryError>)
    ensures
        match task {
            Some(t) => if t.full_path is None || t.cli_config is None {
                r == Err::<(String, Cli), RetryError>(RetryError::Unknown)
            } else if !on_disk {
                r == Err::<(String, Cli), RetryError>(RetryError::NoFile)
            } else {
                r matches Ok((path, cli)) && t.full_path == Some(path) && same_settings(
                    cli,
                    t.cli_config->0,
                )
            },
            None => r == Err::<(String, Cli), RetryError>(RetryError::Unknown),
        },
{
    match task {
        Some(t) => match (&t.full_path, &t.cli_config) {
            (Some(path), Some(cli)) => if on_disk {
                Ok((path.clone(), cli.clone()))
            } else {
                Err(RetryError::NoFile)
            },
            _ => Err(RetryError::Unknown),
        },
        None => Err(RetryError::Unknown),
    }
}

/// What is done with the file of a task.
#[derive(Clone, Copy, Debug, PartialEq, Eq, Structural)]
pub enum TaskWork {
    /// Its speakers are found.
    Analyze,
    /// Its sound is made; speakers that are not known are asked for.
    Convert,
    /// Its sound is made as far as its speakers were found before.
    ConvertAnalyzed,
}

/// What is done with the file of a task: an analysis only finds speakers, unless its sound is
/// asked for all the same.
pub fn planned_work(
    analysis_only: bool,
    require_existing_analysis: bool,
    convert_always: bool,
) -> (r: TaskWork)
    ensures
        r == if require_existing_analysis {
            TaskWork::ConvertAnalyzed
        } else if analysis_only && !convert_always {
            TaskWork::Analyze
        } else {
            TaskWork::Convert
        },
{
    if require_existing_analysis {
        TaskWork::ConvertAnalyzed
    } else if analysis_only && !convert_always {
        TaskWork::Analyze
    } else {
        TaskWork::Convert
    }
}

/// The task for making the sound from an analysis: the analysis, as it stands, is its first part.
pub fn synthesis_task(
    source: &TaskState,
    cli: Cli,
    name: &str,
    path: &str,
    now: u64,
    created: u64,
) -> (r: TaskState)
    ensures
        r.id == source.id,
        r.file_name@ == name@,
        r.full_path matches Some(p) && p@ == path@,
        r.status == TaskStatus::Processing,
        r.current == 0,
        r.total == 0,
        r.error_msg is None,
        r.cli_config == Some(cli),
        r.start_time == Some(now),
        r.end_time is None,
        r.size is None,
        r.eta is None,
        r.created_at == Some(created),
        r.output_path is None,
        !r.is_hidden,
        r.active_phase == Some(TaskPhase::Synthesis),
        r.analysis_phase == Some(
            match source.analysis_phase {
                Some(p) => p,
                None => phase_of(
                    *source,
                    if source.status == TaskStatus::Completed {
                        TaskStatus::Completed
                    } else {
                        TaskStatus::Paused
                    },
                ),
            },
        ),
        r.synthesis_phase == Some(new_phase(TaskStatus::Processing, Some(now))),
{
    let analysis = match &source.analysis_phase {
        Some(p) => p.clone(),
        None => task_phase_from_task(
            source,
            if source.status == TaskStatus::Completed {
                TaskStatus::Completed
            } else {
                TaskStatus::Paused
            },
        ),
    };
    TaskState {
        id: source.id.clone(),
        file_name: copy(name),
        full_path: Some(copy(path)),
        status: TaskStatus::Processing,
        current: 0,
        total: 0,
        error_msg: None,
        cli_config: Some(cli),
        start_time: Some(now),
        end_time: None,
        size: None,
        eta: None,
        created_at: Some(created),
        output_path: None,
        is_hidden: false,
        active_phase: Some(TaskPhase::Synthesis),
        analysis_phase: Some(analysis),
        synthesis_phase: Some(make_phase(TaskStatus::Processing, Some(now))),
    }
}

/// The status, and the message, that the failure of a conversion leaves: a cancelled one none; one
/// that waits for an analysis, where only a saved analysis counts, is paused; any other is an
/// error.
pub fn failure_status(
    error: &ProcessError,
    require_existing_analysis: bool,
) -> (r: (TaskStatus, Option<String>))
    ensures
        if error.cancels() {
            r.0 == TaskStatus::Cancelled && r.1 is None
        } else {
            &&& r.1 matches Some(m) && m@ == error.message_of()
            &&& r.0 == if require_existing_analysis && waits_for_analysis(error.message_of()) {
                TaskStatus::Paused
            } else {
                TaskStatus::Error
            }
        },
{
    if error.is_cancellation() {
        return (TaskStatus::Cancelled, None);
    }
    let message = error.message();
    let waits = contains_text(message.as_str(), "未分析") || contains_text(
        message.as_str(),
        "继续分析",
    );
    if require_existing_analysis && waits {
        (TaskStatus::Paused, Some(message))
    } else {
        (TaskStatus::Error, Some(message))
    }
}

/// The position of the task with that id.
pub open spec fn task_position(tasks: Seq<TaskState>, id: Seq<char>) -> Option<int>
    decreases tasks.len(),
{
    if tasks.len() == 0 {
        None
    } else if tasks.last().id@ == id {
        Some(tasks.len() - 1)
    } else {
        task_position(tasks.drop_last(), id)
    }
}

/// Whether no two tasks have one id.
pub open spec fn unique_ids(tasks: Seq<TaskState>) -> bool {
    forall|i: int, j: int|
        0 <= i < j < tasks.len() ==> (#[trigger] tasks[i]).id@ != (#[trigger] tasks[j]).id@
}

/// The tasks, each with an id of its own.
pub struct TaskStore {
    tasks: Vec<TaskState>,
}

impl View for TaskStore {
    type V = Seq<TaskState>;

    closed spec fn view(&self) -> Seq<TaskState> {
        self.tasks@
    }
}

/// A task that is found has the id, and where none is found none has it.
pub proof fn lemma_task_position(tasks: Seq<TaskState>, id: Seq<char>)
    ensures
        task_position(tasks, id) matches Some(i) ==> 0 <= i < tasks.len() && tasks[i].id@ == id,
        task_position(tasks, id) is None ==> forall|i: int|
            0 <= i < tasks.len() ==> (#[trigger] tasks[i]).id@ != id,
    decreases tasks.len(),
{
    if tasks.len() > 0 && tasks.last().id@ != id {
        let rest = tasks.drop_last();
        lemma_task_position(rest, id);
        assert forall|i: int| 0 <= i < tasks.len() && task_position(rest, id) is None implies (
        #[trigger] tasks[i]).id@ != id by {
            if i < tasks.len() - 1 {
                assert(tasks[i] == rest[i]);
            }
        }
    }
}

/// The tasks with one more, in the place of the one with its id.
pub open spec fn with_task(tasks: Seq<TaskState>, t: TaskState) -> Seq<TaskState> {
    match task_position(tasks, t.id@) {
        Some(i) => tasks.update(i, t),
        None => tasks.push(t),
    }
}

/// The tasks without the one with that id.
pub open spec fn without_task(tasks: Seq<TaskState>, id: Seq<char>) -> Seq<TaskState> {
    match task_position(tasks, id) {
        Some(i) => tasks.remove(i),
        None => tasks,
    }
}

/// Whether `after` is what a change to the task with that id makes of the tasks.
pub open spec fn changed_at(
    before: Seq<TaskState>,
    id: Seq<char>,
    change: TaskChange,
    after: Seq<TaskState>,
) -> bool {
    match task_position(before, id) {
        Some(i) => after.len() == before.len() && changed(before[i], change, after[i]) && forall|
            k: int,
        |
            0 <= k < before.len() && k != i ==> #[trigger] after[k] == before[k],
        None => after == before,
    }
}

/// Whether `after` is what a change to every task makes of the tasks.
pub open spec fn changed_all(
    before: Seq<TaskState>,
    change: TaskChange,
    after: Seq<TaskState>,
) -> bool {
    after.len() == before.len() && forall|k: int|
        #![trigger after[k]]
        #![trigger before[k]]
        0 <= k < before.len() ==> changed(before[k], change, after[k])
}

/// To how many of the first `n` tasks the change does anything.
pub open spec fn change_count(tasks: Seq<TaskState>, change: TaskChange, n: nat) -> nat
    decreases n,
{
    if n == 0 {
        0
    } else {
        change_count(tasks, change, (n - 1) as nat) + if change_applies(
            tasks[n - 1].status,
            change,
        ) {
            1nat
        } else {
            0nat
        }
    }
}

/// Whether task `a` comes before task `b` in the queue: it is older, or of one age and its name
/// comes first.
pub open spec fn queued_before(a: TaskState, b: TaskState) -> bool {
    let x = match a.created_at {
        Some(t) => t,
        None => 0,
    };
    let y = match b.created_at {
        Some(t) => t,
        None => 0,
    };
    x < y || (x == y && text_le(a.file_name@, b.file_name@))
}

/// Whether the task at that position is to be begun next: no task is under way or paused, and it is
/// the first in the queue of those that wait.
pub open spec fn is_next(tasks: Seq<TaskState>, i: int) -> bool {
    &&& 0 <= i < tasks.len()
    &&& tasks[i].status == TaskStatus::Pending
    &&& forall|k: int| 0 <= k < tasks.len() ==> !running_status((#[trigger] tasks[k]).status)
    &&& forall|k: int|
        0 <= k < tasks.len() && tasks[k].status == TaskStatus::Pending ==> queued_before(
            tasks[i],
            #[trigger] tasks[k],
        )
}

/// Whether no task is to be begun next: one is under way or paused, or none waits.
pub open spec fn none_is_next(tasks: Seq<TaskState>) -> bool {
    (exists|k: int| 0 <= k < tasks.len() && running_status((#[trigger] tasks[k]).status))
        || forall|k: int|
        0 <= k < tasks.len() ==> (#[trigger] tasks[k]).status != TaskStatus::Pending
}

fn is_queued_before(a: &TaskState, b: &TaskState) -> (r: bool)
    ensures
        r == queued_before(*a, *b),
{
    let x: u64 = match a.created_at {
        Some(t) => t,
        None => 0,
    };
    let y: u64 = match b.created_at {
        Some(t) => t,
        None => 0,
    };
    x < y || (x == y && is_text_le(a.file_name.as_str(), b.file_name.as_str()))
}

impl TaskStore {
    #[verifier::type_invariant]
    spec fn ids_are_unique(self) -> bool {
        unique_ids(self.tasks@)
    }

    /// No tasks.
    pub fn new() -> (r: TaskStore)
        ensures
            r@.len() == 0,
    {
        TaskStore { tasks: Vec::new() }
    }

    /// The tasks.
    pub fn tasks(&self) -> (r: &Vec<TaskState>)
        ensures
            r@ == self@,
            unique_ids(self@),
    {
        proof {
            use_type_invariant(self);
        }
        &self.tasks
    }

    /// The position of the task with that id.
    pub fn position(&self, id: &str) -> (r: Option<usize>)
        ensures
            r matches Some(i) ==> i < self@.len() && task_position(self@, id@) == Some(i as int)
                && self@[i as int].id@ == id@,
            r is None ==> task_position(self@, id@) is None,
    {
        let mut i: usize = self.tasks.len();
        assert(self@.take(i as int) =~= self@);
        while i > 0
            invariant
                i <= self@.len(),
                task_position(self@, id@) == task_position(self@.take(i as int), id@),
            decreases i,
        {
            if same(self.tasks[i - 1].id.as_str(), id) {
                return Some(i - 1);
            }
            assert(self@.take(i as int).drop_last() =~= self@.take(i - 1));
            i -= 1;
        }
        None
    }

    /// The task with that id.
    pub fn get(&self, id: &str) -> (r: Option<&TaskState>)
        ensures
            r matches Some(t) ==> task_position(self@, id@) matches Some(i) && *t == self@[i],
            r is None ==> task_position(self@, id@) is None,
    {
        match self.position(id) {
            Some(i) => Some(&self.tasks[i]),
            None => None,
        }
    }

    /// Adds a task, in the place of the one with its id.
    pub fn insert(&mut self, task: TaskState)
        ensures
            final(self)@ == with_task(old(self)@, task),
    {
        proof {
            use_type_invariant(&*self);
            lemma_task_position(self@, task.id@);
        }
        match self.position(task.id.as_str()) {
            Some(i) => {
                let mut tasks: Vec<TaskState> = Vec::new();
                std::mem::swap(&mut tasks, &mut self.tasks);
                tasks.set(i, task);
                self.tasks = tasks;
            },
            None => {
                let mut tasks: Vec<TaskState> = Vec::new();
                std::mem::swap(&mut tasks, &mut self.tasks);
                tasks.push(task);
                self.tasks = tasks;
            },
        }
    }

    /// Adds a task unless there is one with its id; says whether it was added.
    pub fn insert_new(&mut self, task: TaskState) -> (r: bool)
        ensures
            r == (task_position(old(self)@, task.id@) is None),
            final(self)@ == if r {
                old(self)@.push(task)
            } else {
                old(self)@
            },
    {
        if self.position(task.id.as_str()).is_some() {
            return false;
        }
        self.insert(task);
        true
    }

    /// Removes the task with that id; says whether there was one.
    pub fn remove(&mut self, id: &str) -> (r: bool)
        ensures
            final(self)@ == without_task(old(self)@, id@),
            r == (task_position(old(self)@, id@) is Some),
    {
        proof {
            use_type_invariant(&*self);
        }
        match self.position(id) {
            Some(i) => {
                let ghost before = self@;
                let mut tasks: Vec<TaskState> = Vec::new();
                std::mem::swap(&mut tasks, &mut self.tasks);
                tasks.remove(i);
                proof {
                    assert(tasks@ =~= before.remove(i as int));
                    assert forall|a: int, b: int| 0 <= a < b < tasks@.len() implies (
                    #[trigger] tasks@[a]).id@ != (#[trigger] tasks@[b]).id@ by {
                        let x = if a < i { a } else { a + 1 };
                        let y = if b < i { b } else { b + 1 };
                        assert(tasks@[a] == before[x] && tasks@[b] == before[y]);
                    }
                }
                self.tasks = tasks;
                true
            },
            None => false,
        }
    }

    /// Removes all tasks.
    pub fn clear(&mut self)
        ensures
            final(self)@.len() == 0,
    {
        self.tasks = Vec::new();
    }

    /// Makes a change to the task with that id; says whether there is one to which the change does
    /// anything.
    pub fn change(&mut self, id: &str, change: &TaskChange) -> (r: bool)
        ensures
            changed_at(old(self)@, id@, *change, final(self)@),
            r == (task_position(old(self)@, id@) matches Some(i) && change_applies(
                old(self)@[i].status,
                *change,
            )),
    {
        proof {
            use_type_invariant(&*self);
        }
        match self.position(id) {
            Some(i) => {
                let ghost before = self@;
                let mut tasks: Vec<TaskState> = Vec::new();
                std::mem::swap(&mut tasks, &mut self.tasks);
                let r = change_task(&mut tasks[i], change);
                proof {
                    law_changes_keep_the_task(before[i as int], *change, tasks@[i as int]);
                    assert(tasks@ =~= before.update(i as int, tasks@[i as int]));
                    assert forall|a: int, b: int| 0 <= a < b < tasks@.len() implies (
                    #[trigger] tasks@[a]).id@ != (#[trigger] tasks@[b]).id@ by {
                        assert(tasks@[a].id == before[a].id && tasks@[b].id == before[b].id);
                    }
                }
                self.tasks = tasks;
                r
            },
            None => false,
        }
    }

    /// Makes a change to every task; says to how many the change does anything.
    pub fn change_all(&mut self, change: &TaskChange) -> (r: usize)
        ensures
            changed_all(old(self)@, *change, final(self)@),
            r == change_count(old(self)@, *change, old(self)@.len()),
    {
        proof {
            use_type_invariant(&*self);
        }
        let ghost before = self@;
        let mut tasks: Vec<TaskState> = Vec::new();
        std::mem::swap(&mut tasks, &mut self.tasks);
        let n = tasks.len();
        let mut count: usize = 0;
        let mut i: usize = 0;
        while i < n
            invariant
                i <= n,
                n == tasks@.len(),
                n == before.len(),
                count <= i,
                count == change_count(before, *change, i as nat),
                forall|k: int|
                    0 <= k < i ==> changed(#[trigger] before[k], *change, tasks@[k]),
                forall|k: int| i <= k < n ==> #[trigger] tasks@[k] == before[k],
            decreases n - i,
        {
            let ghost now = tasks@;
            assert(tasks@[i as int] == before[i as int]);
            if change_task(&mut tasks[i], change) {
                count += 1;
            }
            proof {
                assert(tasks@ =~= now.update(i as int, tasks@[i as int]));
                assert forall|k: int| 0 <= k < i + 1 implies changed(
                    #[trigger] before[k],
                    *change,
                    tasks@[k],
                ) by {
                    if k < i {
                        assert(tasks@[k] == now[k]);
                    }
                }
            }
            i += 1;
        }
        proof {
            assert forall|a: int, b: int| 0 <= a < b < tasks@.len() implies (
            #[trigger] tasks@[a]).id@ != (#[trigger] tasks@[b]).id@ by {
                law_changes_keep_the_task(before[a], *change, tasks@[a]);
                law_changes_keep_the_task(before[b], *change, tasks@[b]);
                assert(before[a].id@ != before[b].id@);
            }
        }
        self.tasks = tasks;
        count
    }

    /// Whether the work on a task is to end: it was cancelled, or is no longer there.
    pub fn is_cancelled_or_missing(&self, id: &str) -> (r: bool)
        ensures
            r == match task_position(self@, id@) {
                Some(i) => self@[i].status == TaskStatus::Cancelled,
                None => true,
            },
    {
        match self.position(id) {
            Some(i) => self.tasks[i].status == TaskStatus::Cancelled,
            None => true,
        }
    }

    /// Whether the work on a task is to wait.
    pub fn is_paused(&self, id: &str) -> (r: bool)
        ensures
            r == match task_position(self@, id@) {
                Some(i) => self@[i].status == TaskStatus::Paused,
                None => false,
            },
    {
        match self.position(id) {
            Some(i) => self.tasks[i].status == TaskStatus::Paused,
            None => false,
        }
    }

    /// Whether a new task for a batch takes the place of the one with its id: a task that is
    /// complete, cancelled or paused stays.
    pub fn is_reset_by_batch(&self, id: &str) -> (r: bool)
        ensures
            r == match task_position(self@, id@) {
                Some(i) => {
                    let s = self@[i].status;
                    s != TaskStatus::Completed && s != TaskStatus::Cancelled && s
                        != TaskStatus::Paused
                },
                None => true,
            },
    {
        match self.position(id) {
            Some(i) => {
                let s = self.tasks[i].status;
                s != TaskStatus::Completed && s != TaskStatus::Cancelled && s != TaskStatus::Paused
            },
            None => true,
        }
    }

    /// Whether a batch passes over a task: it is complete, cancelled, under way or paused.
    pub fn is_skipped_by_batch(&self, id: &str) -> (r: bool)
        ensures
            r == match task_position(self@, id@) {
                Some(i) => {
                    let s = self@[i].status;
                    s == TaskStatus::Completed || s == TaskStatus::Cancelled || s
                        == TaskStatus::Processing || s == TaskStatus::Paused
                },
                None => false,
            },
    {
        match self.position(id) {
            Some(i) => {
                let s = self.tasks[i].status;
                s == TaskStatus::Completed || s == TaskStatus::Cancelled || s
                    == TaskStatus::Processing || s == TaskStatus::Paused
            },
            None => false,
        }
    }

    /// The position of the task to begin next: the first in the queue of those that wait, and none
    /// while a task is under way or paused.
    pub fn next_pending(&self) -> (r: Option<usize>)
        ensures
            match r {
                Some(i) => is_next(self@, i as int),
                None => none_is_next(self@),
            },
    {
        let n = self.tasks.len();
        let mut best: Option<usize> = None;
        let mut i: usize = 0;
        while i < n
            invariant
                i <= n,
                n == self@.len(),
                forall|k: int| 0 <= k < i ==> !running_status((#[trigger] self@[k]).status),
                match best {
                    Some(b) => {
                        &&& b < i
                        &&& self@[b as int].status == TaskStatus::Pending
                        &&& forall|k: int|
                            0 <= k < i && self@[k].status == TaskStatus::Pending ==> queued_before(
                                self@[b as int],
                                #[trigger] self@[k],
                            )
                    },
                    None => forall|k: int|
                        0 <= k < i ==> (#[trigger] self@[k]).status != TaskStatus::Pending,
                },
            decreases n - i,
        {
            let task = &self.tasks[i];
            assert(self@[i as int] == *task);
            if is_running(task.status) {
                return None;
            }
            if task.status == TaskStatus::Pending {
                let better = match best {
                    Some(b) => !is_queued_before(&self.tasks[b], task),
                    None => true,
                };
                proof {
                    lemma_queue_refl(*task);
                    if let Some(b) = best {
                        if better {
                            assert forall|k: int| 0 <= k < i && self@[k].status
                                == TaskStatus::Pending implies queued_before(
                                *task,
                                #[trigger] self@[k],
                            ) by {
                                lemma_queue_total(self@[b as int], *task);
                                lemma_queue_trans(*task, self@[b as int], self@[k]);
                            }
                        }
                    }
                }
                if better {
                    best = Some(i);
                }
            }
            i += 1;
        }
        best
    }

    /// Begins the task that comes next, at that time; gives its position. It is then the only one
    /// under way.
    pub fn begin_next(&mut self, now: u64) -> (r: Option<usize>)
        ensures
            match r {
                Some(i) => {
                    let before = old(self)@;
                    let after = final(self)@;
                    &&& is_next(before, i as int)
                    &&& after.len() == before.len()
                    &&& changed(before[i as int], TaskChange::Pick(now), after[i as int])
                    &&& forall|k: int|
                        0 <= k < before.len() && k != i ==> #[trigger] after[k] == before[k]
                    &&& forall|k: int|
                        0 <= k < after.len() ==> running_status((#[trigger] after[k]).status) == (k
                            == i)
                },
                None => none_is_next(old(self)@) && final(self)@ == old(self)@,
            },
    {
        match self.next_pending() {
            Some(i) => {
                let ghost before = self@;
                let id = self.tasks[i].id.clone();
                proof {
                    use_type_invariant(&*self);
                    lemma_task_position(before, id@);
                    let at = task_position(before, id@)->0;
                    assert(at == i) by {
                        assert(before[at].id@ == before[i as int].id@);
                    }
                }
                self.change(id.as_str(), &TaskChange::Pick(now));
                proof {
                    assert forall|k: int| 0 <= k < self@.len() implies running_status(
                        (#[trigger] self@[k]).status,
                    ) == (k == i) by {
                        if k != i {
                            assert(self@[k] == before[k]);
                        }
                    }
                }
                Some(i)
            },
            None => None,
        }
    }

    /// The positions of the tasks that are shown.
    pub fn visible(&self) -> (r: Vec<usize>)
        ensures
            forall|k: int|
                0 <= k < r@.len() ==> (#[trigger] r@[k]) < self@.len()
                    && !self@[r@[k] as int].is_hidden,
            forall|i: int|
                0 <= i < self@.len() && !(#[trigger] self@[i]).is_hidden ==> r@.contains(
                    i as usize,
                ),
            forall|a: int, b: int| 0 <= a < b < r@.len() ==> r@[a] < r@[b],
    {
        let mut r: Vec<usize> = Vec::new();
        let n = self.tasks.len();
        let mut i: usize = 0;
        while i < n
            invariant
                i <= n,
                n == self@.len(),
                forall|k: int|
                    0 <= k < r@.len() ==> (#[trigger] r@[k]) < i && !self@[r@[k] as int].is_hidden,
                forall|k: int|
                    0 <= k < i && !(#[trigger] self@[k]).is_hidden ==> r@.contains(k as usize),
                forall|a: int, b: int| 0 <= a < b < r@.len() ==> r@[a] < r@[b],
            decreases n - i,
        {
            let ghost before = r@;
            if !self.tasks[i].is_hidden {
                r.push(i);
                proof {
                    assert(r@[before.len() as int] == i);
                    assert forall|k: int| 0 <= k < i + 1 && !(
                    #[trigger] self@[k]).is_hidden implies r@.contains(k as usize) by {
                        if k < i {
                            assert(before.contains(k as usize));
                            let m = before.index_of(k as usize);
                            assert(r@[m] == k as usize);
                        }
                    }
                }
            }
            i += 1;
        }
        r
    }

    /// The positions of the tasks that can be begun again: they failed, were cancelled or are
    /// paused, and their file and settings are known.
    pub fn retryable(&self) -> (r: Vec<usize>)
        ensures
            forall|k: int|
                0 <= k < r@.len() ==> (#[trigger] r@[k]) < self@.len() && can_retry(
                    self@[r@[k] as int],
                ),
            forall|i: int|
                0 <= i < self@.len() && can_retry(#[trigger] self@[i]) ==> r@.contains(i as usize),
            forall|a: int, b: int| 0 <= a < b < r@.len() ==> r@[a] < r@[b],
    {
        let mut r: Vec<usize> = Vec::new();
        let n = self.tasks.len();
        let mut i: usize = 0;
        while i < n
            invariant
                i <= n,
                n == self@.len(),
                forall|k: int|
                    0 <= k < r@.len() ==> (#[trigger] r@[k]) < i && can_retry(self@[r@[k] as int]),
                forall|k: int|
                    0 <= k < i && can_retry(#[trigger] self@[k]) ==> r@.contains(k as usize),
                forall|a: int, b: int| 0 <= a < b < r@.len() ==> r@[a] < r@[b],
            decreases n - i,
        {
            let ghost before = r@;
            let t = &self.tasks[i];
            assert(self@[i as int] == *t);
            if (t.status == TaskStatus::Error || t.status == TaskStatus::Cancelled || t.status
                == TaskStatus::Paused) && t.full_path.is_some() && t.cli_config.is_some() {
                r.push(i);
                proof {
                    assert(r@[before.len() as int] == i);
                    assert forall|k: int| 0 <= k < i + 1 && can_retry(
                        #[trigger] self@[k],
                    ) implies r@.contains(k as usize) by {
                        if k < i {
                            assert(before.contains(k as usize));
                            let m = before.index_of(k as usize);
                            assert(r@[m] == k as usize);
                        }
                    }
                }
            }
            i += 1;
        }
        r
    }
}

/// Whether a task can be begun again.
pub open spec fn can_retry(t: TaskState) -> bool {
    (t.status == TaskStatus::Error || t.status == TaskStatus::Cancelled || t.status
        == TaskStatus::Paused) && t.full_path is Some && t.cli_config is Some
}

proof fn lemma_queue_refl(a: TaskState)
    ensures
        queued_before(a, a),
{
    crate::order::lemma_text_le_total(a.file_name@, a.file_name@);
}

proof fn lemma_queue_total(a: TaskState, b: TaskState)
    ensures
        queued_before(a, b) || queued_before(b, a),
{
    crate::order::lemma_text_le_total(a.file_name@, b.file_name@);
}

proof fn lemma_queue_trans(a: TaskState, b: TaskState, c: TaskState)
    requires
        queued_before(a, b),
        queued_before(b, c),
    ensures
        queued_before(a, c),
{
    if text_le(a.file_name@, b.file_name@) && text_le(b.file_name@, c.file_name@) {
        crate::order::lemma_text_le_trans(a.file_name@, b.file_name@, c.file_name@);
    }
}

/// A task that was added is found by its id, and no other task is lost by it; a task that was
/// removed is not found.
pub proof fn law_tasks_are_found_by_id(tasks: Seq<TaskState>, t: TaskState, id: Seq<char>)
    requires
        unique_ids(tasks),
    ensures
        task_position(with_task(tasks, t), t.id@) matches Some(i) && with_task(tasks, t)[i] == t,
        id != t.id@ ==> (task_position(tasks, id) is Some) == (task_position(
            with_task(tasks, t),
            id,
        ) is Some),
        task_position(without_task(tasks, id), id) is None,
{
    lemma_task_position(tasks, t.id@);
    lemma_task_position(tasks, id);
    let more = with_task(tasks, t);
    lemma_task_position(more, t.id@);
    lemma_task_position(more, id);
    let p = task_position(tasks, t.id@);
    assert(more[match p {
        Some(i) => i,
        None => tasks.len() as int,
    }] == t);
    match task_position(more, t.id@) {
        Some(i) => {
            if let Some(j) = p {
                if i != j {
                    assert(more[i] == tasks[i]);
                    if i < j {
                        assert(tasks[i].id@ != tasks[j].id@);
                    } else {
                        assert(tasks[j].id@ != tasks[i].id@);
                    }
                }
            } else if i < tasks.len() {
                assert(more[i] == tasks[i]);
            }
        },
        None => {},
    }
    if id != t.id@ {
        if let Some(i) = task_position(tasks, id) {
            assert(more[i] == tasks[i]);
        }
        if let Some(i) = task_position(more, id) {
            assert(more[i].id@ == id);
            assert(more[i] != t);
            assert(i < tasks.len() && more[i] == tasks[i]);
        }
    }
    let less = without_task(tasks, id);
    lemma_task_position(less, id);
    if let Some(i) = task_position(less, id) {
        if let Some(j) = task_position(tasks, id) {
            let k = if i < j { i } else { i + 1 };
            assert(less[i] == tasks[k]);
            if k < j {
                assert(tasks[k].id@ != tasks[j].id@);
            } else {
                assert(tasks[j].id@ != tasks[k].id@);
            }
        }
    }
}

/// A task that is tried again, begun or picked is under way, whatever its status was, from that time
/// on; one that is tried again begins from nothing, and one that is begun has no end and no output yet.
pub proof fn law_begun_tasks_are_under_way(t: TaskState, change: TaskChange, after: TaskState)
    requires
        change is Retry || change is Begin || change is Pick,
        changed(t, change, after),
    ensures
        change_applies(t.status, change),
        after.status == TaskStatus::Processing,
        change matches TaskChange::Retry(now) ==> {
            &&& after.start_time == Some(now)
            &&& after.current == 0
            &&& after.error_msg is None
            &&& after.end_time is None
            &&& after.size is None
            &&& after.eta is None
        },
        change matches TaskChange::Begin(now) ==> {
            &&& after.start_time == Some(now)
            &&& after.end_time is None
            &&& after.size is None
            &&& after.current == t.current
            &&& after.error_msg == t.error_msg
            &&& after.eta == t.eta
        },
        change matches TaskChange::Pick(now) ==> {
            &&& after.start_time == Some(now)
            &&& after.end_time == t.end_time
            &&& after.size == t.size
            &&& after.current == t.current
            &&& after.error_msg == t.error_msg
            &&& after.eta == t.eta
        },
        after.total == t.total,
        after.output_path == t.output_path,
        after.is_hidden == t.is_hidden,
        after.analysis_phase == t.analysis_phase,
        after.synthesis_phase == t.synthesis_phase,
{
}

/// A task that waits, is under way or is paused is cancelled when that is asked for, and its work
/// stays as far as it is; any other task stays as it is.
pub proof fn law_open_tasks_can_be_cancelled(t: TaskState, change: TaskChange, after: TaskState)
    requires
        change is Cancel || change is Stop || change is Discard,
        changed(t, change, after),
    ensures
        ({
            let open = t.status == TaskStatus::Pending || t.status == TaskStatus::Processing
                || t.status == TaskStatus::Paused;
            &&& change_applies(t.status, change) == open
            &&& !open ==> after == t
            &&& open ==> {
                &&& after.status == TaskStatus::Cancelled
                &&& after.current == t.current
                &&& after.total == t.total
                &&& after.start_time == t.start_time
                &&& after.size == t.size
                &&& after.output_path == t.output_path
                &&& after.is_hidden == t.is_hidden
                &&& change is Cancel ==> after.end_time == t.end_time && after.error_msg
                    == t.error_msg && after.eta == t.eta
                &&& change matches TaskChange::Stop(now) ==> after.end_time == Some(now)
                    && after.eta == t.eta && opt_text(after.error_msg) == Some("用户手动停止"@)
                &&& change matches TaskChange::Discard(now) ==> after.end_time == Some(now)
                    && after.eta is None && after.error_msg == t.error_msg
            }
        }),
{
}

/// Only a task that is under way is paused, and only a paused one goes on; neither touches how far
/// its work is.
pub proof fn law_pausing_and_going_on(t: TaskState, change: TaskChange, after: TaskState)
    requires
        change is Pause || change is Resume,
        changed(t, change, after),
    ensures
        change_applies(t.status, change) == (t.status == if change is Pause {
            TaskStatus::Processing
        } else {
            TaskStatus::Paused
        }),
        !change_applies(t.status, change) ==> after == t,
        change_applies(t.status, change) ==> {
            &&& after.status == if change is Pause {
                TaskStatus::Paused
            } else {
                TaskStatus::Processing
            }
            &&& after.eta == if change is Pause {
                None
            } else {
                t.eta
            }
        },
        after.current == t.current,
        after.total == t.total,
        after.error_msg == t.error_msg,
        after.start_time == t.start_time,
        after.end_time == t.end_time,
        after.size == t.size,
        after.output_path == t.output_path,
        after.is_hidden == t.is_hidden,
{
}

/// When the program is started anew, tasks that were under way or paused are cancelled with a message
/// that says so, and all others stay as they are.
pub proof fn law_a_restart_cancels_what_ran(t: TaskState, now: u64, after: TaskState)
    requires
        changed(t, TaskChange::Restart(now), after),
    ensures
        ({
            let ran = t.status == TaskStatus::Processing || t.status == TaskStatus::Paused;
            &&& change_applies(t.status, TaskChange::Restart(now)) == ran
            &&& !ran ==> after == t
            &&& ran ==> {
                &&& after.status == TaskStatus::Cancelled
                &&& after.end_time == Some(now)
                &&& after.eta is None
                &&& opt_text(after.error_msg) == Some("服务器重启，任务已取消，请重试"@)
                &&& after.current == t.current
                &&& after.total == t.total
                &&& after.start_time == t.start_time
                &&& after.size == t.size
                &&& after.output_path == t.output_path
                &&& after.is_hidden == t.is_hidden
            }
        }),
{
}

/// Only complete tasks are hidden, and nothing else of them changes.
pub proof fn law_only_complete_tasks_are_hidden(t: TaskState, after: TaskState)
    requires
        changed(t, TaskChange::Hide, after),
    ensures
        change_applies(t.status, TaskChange::Hide) == (t.status == TaskStatus::Completed),
        after.is_hidden == (t.is_hidden || t.status == TaskStatus::Completed),
        after == (TaskState { is_hidden: after.is_hidden, ..t }),
{
}

/// Progress is what was told of it, and the output is where it was made; neither ends, begins or
/// stops a task. The time that is left stays where none is told.
pub proof fn law_progress_is_what_is_told(
    t: TaskState,
    current: usize,
    total: usize,
    eta: Option<u64>,
    size: u64,
    path: String,
    further: TaskState,
    made: TaskState,
)
    requires
        changed(t, TaskChange::Progress(current, total, eta), further),
        changed(t, TaskChange::Output(size, path), made),
    ensures
        further.current == current,
        further.total == total,
        eta is Some ==> further.eta == eta,
        eta is None ==> further.eta == t.eta,
        further == (TaskState { current, total, eta: further.eta, ..t }),
        made.size == Some(size),
        made.output_path == Some(path),
        made == (TaskState { size: made.size, output_path: made.output_path, ..t }),
{
}

/// The end of the work leaves the status that it came to, except that a cancelled task whose work
/// fails stays cancelled. A complete task has all chapters done; a task that is complete, failed or
/// cancelled has its end and no time left, any other keeps both; and the message is taken over unless
/// the task is cancelled.
pub proof fn law_the_end_of_the_work(
    t: TaskState,
    status: TaskStatus,
    err: Option<String>,
    now: u64,
    after: TaskState,
)
    requires
        changed(t, TaskChange::Finish(status, err, now), after),
    ensures
        change_applies(t.status, TaskChange::Finish(status, err, now)),
        after.status == if t.status == TaskStatus::Cancelled && status == TaskStatus::Error {
            TaskStatus::Cancelled
        } else {
            status
        },
        after.status == TaskStatus::Completed ==> after.current == t.total,
        after.status != TaskStatus::Completed ==> after.current == t.current,
        after.status == TaskStatus::Completed || after.status == TaskStatus::Error || after.status
            == TaskStatus::Cancelled ==> after.end_time == Some(now) && after.eta is None,
        after.status == TaskStatus::Pending || after.status == TaskStatus::Processing
            || after.status == TaskStatus::Paused ==> after.end_time == t.end_time && after.eta
            == t.eta,
        after.error_msg == if after.status == TaskStatus::Cancelled || err is None {
            t.error_msg
        } else {
            err
        },
        after.total == t.total,
        after.start_time == t.start_time,
        after.size == t.size,
        after.output_path == t.output_path,
        after.is_hidden == t.is_hidden,
{
}

/// Whether a part of the work stands as its task does.
pub open spec fn stands_as(p: TaskPhaseState, t: TaskState) -> bool {
    &&& p.status == t.status
    &&& p.current == t.current
    &&& p.total == t.total
    &&& p.error_msg == t.error_msg
    &&& p.start_time == t.start_time
    &&& p.end_time == t.end_time
    &&& p.size == t.size
    &&& p.eta == t.eta
    &&& p.output_path == t.output_path
}

/// After a change of how a task stands, the part that is being worked on stands as the task does, and
/// the other part as it stood; every other change leaves both parts as they are.
pub proof fn law_the_active_part_stands_as_its_task(
    t: TaskState,
    change: TaskChange,
    after: TaskState,
)
    requires
        changed(t, change, after),
        change_applies(t.status, change),
    ensures
        ({
            let told = change is Cancel || change is Pause || change is Resume || change is Stop
                || change is Restart || change is Discard || change is Finish;
            &&& told && t.active_phase == Some(TaskPhase::Analysis) ==> {
                &&& after.analysis_phase matches Some(p) && stands_as(p, after)
                &&& after.synthesis_phase == t.synthesis_phase
            }
            &&& told && t.active_phase == Some(TaskPhase::Synthesis) ==> {
                &&& after.synthesis_phase matches Some(p) && stands_as(p, after)
                &&& after.analysis_phase == t.analysis_phase
            }
            &&& !told || t.active_phase is None ==> after.analysis_phase == t.analysis_phase
                && after.synthesis_phase == t.synthesis_phase
        }),
{
}

/// A new task has the id, the file and the settings that it was made with, has done nothing, and
/// works on the part that its settings ask for: an analysis is marked in its name and has a first part
/// alone, any other has a second part alone.
pub proof fn law_new_tasks_have_done_nothing(
    t: TaskState,
    id: Seq<char>,
    name: Seq<char>,
    path: Seq<char>,
    cli: Cli,
    status: TaskStatus,
    start: Option<u64>,
    created: u64,
)
    requires
        is_new_task(t, id, name, path, cli, status, start, created),
    ensures
        t.id@ == id,
        opt_text(t.full_path) == Some(path),
        t.cli_config == Some(cli),
        t.created_at == Some(created),
        t.status == status,
        t.start_time == start,
        t.current == 0,
        t.total == 0,
        t.error_msg is None,
        t.end_time is None,
        t.size is None,
        t.eta is None,
        t.output_path is None,
        !t.is_hidden,
        cli.analysis_only ==> {
            &&& t.file_name@ == "分析: "@ + name
            &&& t.active_phase == Some(TaskPhase::Analysis)
            &&& t.analysis_phase matches Some(p) && stands_as(p, t)
            &&& t.synthesis_phase is None
        },
        !cli.analysis_only ==> {
            &&& t.file_name@ == name
            &&& t.active_phase == Some(TaskPhase::Synthesis)
            &&& t.synthesis_phase matches Some(p) && stands_as(p, t)
            &&& t.analysis_phase is None
        },
{
}

/// What is left of a text without its prefixes does not begin with the prefix, and the text is the
/// prefix, some number of times, in front of it.
pub proof fn law_prefixes_are_stripped(s: Seq<char>, p: Seq<char>)
    requires
        p.len() > 0,
    ensures
        !p.is_prefix_of(without_prefixes(s, p)),
        !p.is_prefix_of(s) ==> without_prefixes(s, p) == s,
        without_prefixes(p + s, p) == without_prefixes(s, p),
    decreases s.len(),
{
    assert((p + s).subrange(0, p.len() as int) =~= p);
    assert((p + s).skip(p.len() as int) =~= s);
    if p.is_prefix_of(s) {
        law_prefixes_are_stripped(s.skip(p.len() as int), p);
    }
}

/// The sound can be made from a task exactly where it is an analysis, by its settings or its name, is
/// complete or paused, and its file, its settings, a voice and an address are known; otherwise the
/// first of these that is missing is told.
pub proof fn law_sound_is_made_from_analyses(
    t: TaskState,
    on_disk: bool,
    default_api: Option<String>,
)
    ensures
        ({
            let ready = (t.status == TaskStatus::Completed || t.status == TaskStatus::Paused) && ((
            t.cli_config matches Some(cli) && cli.analysis_only) || "分析: "@.is_prefix_of(
                t.file_name@,
            ));
            let e = start_error(t, on_disk, default_api);
            &&& e is None <==> {
                &&& ready
                &&& t.full_path is Some
                &&& on_disk
                &&& t.cli_config matches Some(cli) && cli.voice is Some && (cli.api is Some
                    || default_api is Some)
            }
            &&& e == Some(StartError::NotReady) <==> !ready
            &&& e == Some(StartError::NoPath) <==> ready && t.full_path is None
            &&& e == Some(StartError::NoFile) <==> ready && t.full_path is Some && !on_disk
            &&& e == Some(StartError::NoSettings) <==> ready && t.full_path is Some && on_disk
                && t.cli_config is None
            &&& e == Some(StartError::NoVoice) <==> ready && t.full_path is Some && on_disk
                && t.cli_config is Some && t.cli_config->0.voice is None
        }),
{
}

/// The sound is made from an analysis with the settings of the analysis, its voices, levels and
/// patterns among them; only the name, which is the task's without the mark of an analysis, the part
/// to work on and a missing address differ.
pub proof fn law_sound_is_made_with_the_settings_of_the_analysis(
    t: TaskState,
    default_api: Option<String>,
    r: Cli,
)
    requires
        t.cli_config is Some,
        synthesis_settings(t, default_api, r),
    ensures
        !r.analysis_only,
        opt_text(r.output_name) == Some(without_prefixes(t.file_name@, "分析: "@)),
        ({
            let cli = t.cli_config->0;
            &&& cli.api is Some ==> r.api == cli.api
            &&& cli.api is None ==> r.api == default_api
            &&& r.file == cli.file
            &&& r.dir == cli.dir
            &&& r.out == cli.out
            &&& r.voice == cli.voice
            &&& r.voice_dialogue == cli.voice_dialogue
            &&& r.volume == cli.volume
            &&& r.speed == cli.speed
            &&& r.pitch == cli.pitch
            &&& r.volume_dialogue == cli.volume_dialogue
            &&& r.speed_dialogue == cli.speed_dialogue
            &&& r.pitch_dialogue == cli.pitch_dialogue
            &&& r.sub == cli.sub
            &&& r.ignore_regex == cli.ignore_regex
            &&& r.blacklist == cli.blacklist
            &&& r.concurrency == cli.concurrency
            &&& r.preserve_structure == cli.preserve_structure
            &&& r.ai_dialogue@ == cli.ai_dialogue@
            &&& r.list == cli.list
            &&& r.web == cli.web
        }),
{
}

/// Adding a task changes no other task and moves none; removing one leaves all others, in their order.
pub proof fn law_other_tasks_stay(tasks: Seq<TaskState>, t: TaskState, id: Seq<char>, k: int)
    requires
        unique_ids(tasks),
        0 <= k < tasks.len(),
    ensures
        tasks[k].id@ != t.id@ ==> with_task(tasks, t)[k] == tasks[k],
        tasks[k].id@ == t.id@ ==> with_task(tasks, t)[k] == t,
        with_task(tasks, t).len() == tasks.len() + if exists|i: int|
            0 <= i < tasks.len() && (#[trigger] tasks[i]).id@ == t.id@ {
            0int
        } else {
            1
        },
        without_task(tasks, id) == tasks.filter(|x: TaskState| x.id@ != id),
{
    lemma_task_position(tasks, t.id@);
    lemma_task_position(tasks, id);
    if let Some(i) = task_position(tasks, t.id@) {
        if i < k {
            assert(tasks[i].id@ != tasks[k].id@);
        } else if k < i {
            assert(tasks[k].id@ != tasks[i].id@);
        }
        assert(tasks[i].id@ == t.id@);
    }
    lemma_without_task(tasks, id);
}

proof fn lemma_without_task(tasks: Seq<TaskState>, id: Seq<char>)
    requires
        unique_ids(tasks),
    ensures
        without_task(tasks, id) == tasks.filter(|x: TaskState| x.id@ != id),
    decreases tasks.len(),
{
    reveal(Seq::filter);
    let other = |x: TaskState| x.id@ != id;
    if tasks.len() > 0 {
        let front = tasks.drop_last();
        let last = tasks.last();
        assert forall|i: int, j: int| 0 <= i < j < front.len() implies (#[trigger] front[i]).id@ != (
        #[trigger] front[j]).id@ by {
            assert(front[i] == tasks[i] && front[j] == tasks[j]);
        }
        lemma_without_task(front, id);
        lemma_task_position(tasks, id);
        lemma_task_position(front, id);
        if last.id@ == id {
            if let Some(i) = task_position(front, id) {
                assert(tasks[i].id@ != tasks[tasks.len() - 1].id@);
            }
            assert(without_task(tasks, id) =~= front);
        } else {
            match task_position(tasks, id) {
                Some(i) => {
                    assert(tasks.remove(i) =~= front.remove(i).push(last));
                },
                None => {
                    assert(tasks =~= front.push(last));
                },
            }
        }
    } else {
        assert(tasks.filter(other) =~= tasks);
    }
}

/// A change to the task with an id reaches that task and no other; where no task has the id, nothing
/// changes.
pub proof fn law_a_change_reaches_one_task(
    before: Seq<TaskState>,
    id: Seq<char>,
    change: TaskChange,
    after: Seq<TaskState>,
    k: int,
)
    requires
        unique_ids(before),
        changed_at(before, id, change, after),
        0 <= k < before.len(),
    ensures
        after.len() == before.len(),
        before[k].id@ == id ==> changed(before[k], change, after[k]),
        before[k].id@ != id ==> after[k] == before[k],
{
    lemma_task_position(before, id);
    if let Some(i) = task_position(before, id) {
        if i < k {
            assert(before[i].id@ != before[k].id@);
        } else if k < i {
            assert(before[k].id@ != before[i].id@);
        }
    }
}

/// A change to all tasks reaches each of them, and is counted for those to which it does anything.
pub proof fn law_a_change_reaches_all_tasks(
    before: Seq<TaskState>,
    change: TaskChange,
    after: Seq<TaskState>,
)
    requires
        changed_all(before, change, after),
    ensures
        after.len() == before.len(),
        forall|k: int| 0 <= k < before.len() ==> changed(#[trigger] before[k], change, after[k]),
        change_count(before, change, before.len()) == before.filter(
            |t: TaskState| change_applies(t.status, change),
        ).len(),
{
    lemma_change_count(before, change, before.len());
    assert(before.take(before.len() as int) =~= before);
}

proof fn lemma_change_count(tasks: Seq<TaskState>, change: TaskChange, n: nat)
    requires
        n <= tasks.len(),
    ensures
        change_count(tasks, change, n) == tasks.take(n as int).filter(
            |t: TaskState| change_applies(t.status, change),
        ).len(),
    decreases n,
{
    reveal(Seq::filter);
    if n > 0 {
        lemma_change_count(tasks, change, (n - 1) as nat);
        assert(tasks.take(n as int).drop_last() =~= tasks.take(n - 1));
    }
}

/// The task that is begun next waits, nothing else is under way or paused, and no other task that
/// waits was made before it, nor at the same time under a name that comes before its own. Tasks of
/// which it is not known when they were made come first.
pub proof fn law_the_oldest_task_is_begun_next(tasks: Seq<TaskState>, i: int, k: int)
    requires
        is_next(tasks, i),
        0 <= k < tasks.len(),
    ensures
        0 <= i < tasks.len(),
        tasks[i].status == TaskStatus::Pending,
        tasks[k].status != TaskStatus::Processing,
        tasks[k].status != TaskStatus::Paused,
        tasks[k].status == TaskStatus::Pending ==> match (tasks[i].created_at, tasks[k].created_at) {
            (Some(a), Some(b)) => a < b || (a == b && text_le(
                tasks[i].file_name@,
                tasks[k].file_name@,
            )),
            (Some(a), None) => a == 0 && text_le(tasks[i].file_name@, tasks[k].file_name@),
            (None, Some(b)) => b > 0 || text_le(tasks[i].file_name@, tasks[k].file_name@),
            (None, None) => text_le(tasks[i].file_name@, tasks[k].file_name@),
        },
{
}

/// Nothing is begun only while a task is under way or paused, or where no task waits.
pub proof fn law_the_queue_does_not_rest(tasks: Seq<TaskState>, i: int)
    requires
        none_is_next(tasks),
        0 <= i < tasks.len(),
        tasks[i].status == TaskStatus::Pending,
    ensures
        exists|k: int|
            0 <= k < tasks.len() && ((#[trigger] tasks[k]).status == TaskStatus::Processing
                || tasks[k].status == TaskStatus::Paused),
        forall|k: int| !is_next(tasks, k),
{
    let k = choose|k: int| 0 <= k < tasks.len() && running_status((#[trigger] tasks[k]).status);
    assert(tasks[k].status == TaskStatus::Processing || tasks[k].status == TaskStatus::Paused);
}

/// Tasks can be tried again that failed, were cancelled or are paused, where their file and settings
/// are known.
pub proof fn law_failed_tasks_can_be_tried_again(t: TaskState)
    ensures
        can_retry(t) <==> {
            &&& t.full_path is Some
            &&& t.cli_config is Some
            &&& t.status != TaskStatus::Pending
            &&& t.status != TaskStatus::Processing
            &&& t.status != TaskStatus::Completed
        },
{
}

/// No two statuses have one name, so that a status is told by its name.
pub proof fn law_statuses_have_their_names(a: TaskStatus, b: TaskStatus)
    ensures
        a.name_of() == b.name_of() <==> a == b,
        TaskStatus::Pending.name_of() == "pending"@,
        TaskStatus::Processing.name_of() == "processing"@,
        TaskStatus::Paused.name_of() == "paused"@,
        TaskStatus::Completed.name_of() == "completed"@,
        TaskStatus::Error.name_of() == "error"@,
        TaskStatus::Cancelled.name_of() == "cancelled"@,
{
    reveal_strlit("pending");
    reveal_strlit("processing");
    reveal_strlit("paused");
    reveal_strlit("completed");
    reveal_strlit("error");
    reveal_strlit("cancelled");
    assert("pending"@[1] == 'e' && "processing"@[1] == 'r' && "paused"@[1] == 'a');
    assert("completed"@[0] == 'c' && "error"@[0] == 'e' && "cancelled"@[0] == 'c');
    assert("completed"@[1] == 'o' && "error"@[1] == 'r' && "cancelled"@[1] == 'a');
    assert("pending"@[0] == 'p' && "processing"@[0] == 'p' && "paused"@[0] == 'p');
}

/// A part of the work that is made of a task has the status that it is given, and all else from the
/// task.
pub proof fn law_parts_are_made_of_their_task(t: TaskState, status: TaskStatus)
    ensures
        stands_as(phase_of(t, status), (TaskState { status, ..t })),
{
}

/// No task is begun next exactly where one is under way or paused, or none is waiting.
pub proof fn law_nothing_is_begun_while_something_runs(tasks: Seq<TaskState>)
    ensures
        none_is_next(tasks) <==> tasks.filter(
            |t: TaskState| t.status == TaskStatus::Processing || t.status == TaskStatus::Paused,
        ).len() > 0 || tasks.filter(|t: TaskState| t.status == TaskStatus::Pending).len() == 0,
{
    let runs = |t: TaskState| t.status == TaskStatus::Processing || t.status == TaskStatus::Paused;
    let waits = |t: TaskState| t.status == TaskStatus::Pending;
    lemma_some_are_kept(tasks, runs);
    lemma_some_are_kept(tasks, waits);
    if exists|k: int| 0 <= k < tasks.len() && runs(#[trigger] tasks[k]) {
        let k = choose|k: int| 0 <= k < tasks.len() && runs(#[trigger] tasks[k]);
        assert(running_status(tasks[k].status));
    }
    if exists|k: int| 0 <= k < tasks.len() && running_status((#[trigger] tasks[k]).status) {
        let k = choose|k: int| 0 <= k < tasks.len() && running_status((#[trigger] tasks[k]).status);
        assert(runs(tasks[k]));
    }
    if exists|k: int| 0 <= k < tasks.len() && waits(#[trigger] tasks[k]) {
        let k = choose|k: int| 0 <= k < tasks.len() && waits(#[trigger] tasks[k]);
        assert(tasks[k].status == TaskStatus::Pending);
    } else {
        assert forall|k: int| 0 <= k < tasks.len() implies (#[trigger] tasks[k]).status
            != TaskStatus::Pending by {
            assert(!waits(tasks[k]));
        }
    }
}

proof fn lemma_some_are_kept(tasks: Seq<TaskState>, kept: spec_fn(TaskState) -> bool)
    ensures
        tasks.filter(kept).len() > 0 <==> exists|k: int|
            0 <= k < tasks.len() && kept(#[trigger] tasks[k]),
    decreases tasks.len(),
{
    reveal(Seq::filter);
    if tasks.len() > 0 {
        let front = tasks.drop_last();
        lemma_some_are_kept(front, kept);
        if exists|k: int| 0 <= k < front.len() && kept(#[trigger] front[k]) {
            let k = choose|k: int| 0 <= k < front.len() && kept(#[trigger] front[k]);
            assert(kept(tasks[k]));
        }
        if exists|k: int| 0 <= k < tasks.len() && kept(#[trigger] tasks[k]) {
            let k = choose|k: int| 0 <= k < tasks.len() && kept(#[trigger] tasks[k]);
            if k < front.len() {
                assert(kept(front[k]));
            }
        }
        assert(kept(tasks.last()) ==> kept(tasks[tasks.len() - 1]));
    }
}

} // verus!
