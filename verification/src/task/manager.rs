//! What a task is doing, and what becomes of it when it is stopped, paused or asked for.

use vstd::prelude::*;

use crate::config;
use crate::text;

verus! {

/// Seconds without a request after which a task on demand is suspended.
pub const DEFAULT_ON_DEMAND_IDLE_TIMEOUT_SECS: u64 = 300;

/// Seconds between two looks at a task on demand.
pub const ON_DEMAND_IDLE_CHECK_SECS: u64 = 10;

/// What a task is doing.
#[derive(Debug, Clone, Copy, PartialEq, Eq, Structural)]
pub enum TaskState {
    Parsing,
    Running,
    Paused,
    Stopped,
    Error,
    Finished,
}

impl TaskState {
    pub open spec fn number(self) -> u8 {
        match self {
            TaskState::Parsing => 0,
            TaskState::Running => 1,
            TaskState::Stopped => 2,
            TaskState::Error => 3,
            TaskState::Finished => 4,
            TaskState::Paused => 5,
        }
    }

    pub open spec fn of_number(v: u8) -> Self {
        if v == 0 {
            TaskState::Parsing
        } else if v == 1 {
            TaskState::Running
        } else if v == 2 {
            TaskState::Stopped
        } else if v == 3 {
            TaskState::Error
        } else if v == 4 {
            TaskState::Finished
        } else {
            TaskState::Paused
        }
    }

    /// The state of a number.
    pub fn from_u8(v: u8) -> (r: Self)
        ensures
            r == TaskState::of_number(v),
    {
        match v {
            0 => TaskState::Parsing,
            1 => TaskState::Running,
            2 => TaskState::Stopped,
            3 => TaskState::Error,
            4 => TaskState::Finished,
            _ => TaskState::Paused,
        }
    }

    /// The state as a number.
    pub fn as_u8(self) -> (r: u8)
        ensures
            r == self.number(),
    {
        match self {
            TaskState::Parsing => 0,
            TaskState::Running => 1,
            TaskState::Stopped => 2,
            TaskState::Error => 3,
            TaskState::Finished => 4,
            TaskState::Paused => 5,
        }
    }

    /// Whether the pipeline runs.
    pub open spec fn active(self) -> bool {
        self == TaskState::Running || self == TaskState::Parsing
    }

    /// Whether the pipeline runs.
    pub fn is_active(self) -> (r: bool)
        ensures
            r == self.active(),
    {
        self == TaskState::Running || self == TaskState::Parsing
    }

    /// The state as it is shown.
    pub fn label(self) -> (r: &'static str)
        ensures
            r@ == (match self {
                TaskState::Parsing => "parsing"@,
                TaskState::Running => "running"@,
                TaskState::Paused => "paused"@,
                TaskState::Stopped => "stopped"@,
                TaskState::Error => "error"@,
                TaskState::Finished => "finished"@,
            }),
    {
        match self {
            TaskState::Parsing => "parsing",
            TaskState::Running => "running",
            TaskState::Paused => "paused",
            TaskState::Stopped => "stopped",
            TaskState::Error => "error",
            TaskState::Finished => "finished",
        }
    }
}

/// A state is read back from its number.
pub proof fn law_state_number_round_trip(s: TaskState)
    ensures
        TaskState::of_number(s.number()) == s,
{
}

/// What a task reads.
#[derive(Debug, Clone, Copy, PartialEq, Eq, Structural)]
pub enum SourceKind {
    Mpd,
    Hls,
}

/// When a task runs.
#[derive(Debug, Clone, Copy, PartialEq, Eq, Structural)]
pub enum RunMode {
    Always,
    OnDemand,
}

impl RunMode {
    /// Whether the task runs only while it is asked for.
    pub fn is_on_demand(self) -> (r: bool)
        ensures
            r == (self == RunMode::OnDemand),
    {
        self == RunMode::OnDemand
    }
}

impl Default for RunMode {
    fn default() -> (r: Self)
        ensures
            r == RunMode::Always,
    {
        RunMode::Always
    }
}

/// Where the content keys come from.
#[derive(Debug, Clone, Copy, PartialEq, Eq, Structural)]
pub enum KeyMode {
    Static,
    Dynamic,
}

impl KeyMode {
    /// Whether keys are fetched.
    pub fn is_dynamic(self) -> (r: bool)
        ensures
            r == (self == KeyMode::Dynamic),
    {
        self == KeyMode::Dynamic
    }
}

impl Default for KeyMode {
    fn default() -> (r: Self)
        ensures
            r == KeyMode::Static,
    {
        KeyMode::Static
    }
}

/// The tracks that were chosen.
#[derive(Debug, Clone)]
pub struct TrackSelection {
    pub mpd_url: String,
    pub source_kind: SourceKind,
    /// Lines of a key identifier, a colon and a key.
    pub keys: String,
    pub key_mode: KeyMode,
    pub video_rep_id: String,
    pub audio_rep_id: Option<String>,
    pub enable_subtitles: bool,
    pub subtitle_rep_id: Option<String>,
}

/// What is shown of the work of a task.
#[derive(Debug, Clone, Copy, PartialEq, Eq, Structural)]
pub enum Stage {
    Created,
    ParseMpd,
    ParseHls,
    FetchInit,
    FetchHlsInit,
    ParseKeys,
    FetchKeys,
    CheckKeys,
    FetchMoreKeys,
    Remuxing,
    RemuxingHls,
    PassingHls,
    Waiting,
    WaitingHls,
    AwaitRequest,
    Resuming,
    Woken,
    Finished,
    Failed,
    Paused,
    IdlePaused,
    Stopped,
}

impl Stage {
    pub open spec fn text(self) -> Seq<char> {
        match self {
            Stage::Created => "已创建"@,
            Stage::ParseMpd => "解析 MPD"@,
            Stage::ParseHls => "解析 M3U8"@,
            Stage::FetchInit => "下载 init 段"@,
            Stage::FetchHlsInit => "下载 HLS init"@,
            Stage::ParseKeys => "解析 KEY"@,
            Stage::FetchKeys => "动态获取 KEY"@,
            Stage::CheckKeys => "检查动态 KEY"@,
            Stage::FetchMoreKeys => "动态补取 KEY"@,
            Stage::Remuxing => "转封装中"@,
            Stage::RemuxingHls => "转封装 HLS fMP4"@,
            Stage::PassingHls => "处理 HLS 分片"@,
            Stage::Waiting => "等待直播更新"@,
            Stage::WaitingHls => "等待 HLS 更新"@,
            Stage::AwaitRequest => "等待播放请求"@,
            Stage::Resuming => "恢复中"@,
            Stage::Woken => "按需请求唤醒"@,
            Stage::Finished => "已完成"@,
            Stage::Failed => "出错"@,
            Stage::Paused => "已暂停"@,
            Stage::IdlePaused => "按需空闲暂停"@,
            Stage::Stopped => "已停止"@,
        }
    }

    /// The stage as it is shown.
    pub fn label(self) -> (r: &'static str)
        ensures
            r@ == self.text(),
    {
        match self {
            Stage::Created => "已创建",
            Stage::ParseMpd => "解析 MPD",
            Stage::ParseHls => "解析 M3U8",
            Stage::FetchInit => "下载 init 段",
            Stage::FetchHlsInit => "下载 HLS init",
            Stage::ParseKeys => "解析 KEY",
            Stage::FetchKeys => "动态获取 KEY",
            Stage::CheckKeys => "检查动态 KEY",
            Stage::FetchMoreKeys => "动态补取 KEY",
            Stage::Remuxing => "转封装中",
            Stage::RemuxingHls => "转封装 HLS fMP4",
            Stage::PassingHls => "处理 HLS 分片",
            Stage::Waiting => "等待直播更新",
            Stage::WaitingHls => "等待 HLS 更新",
            Stage::AwaitRequest => "等待播放请求",
            Stage::Resuming => "恢复中",
            Stage::Woken => "按需请求唤醒",
            Stage::Finished => "已完成",
            Stage::Failed => "出错",
            Stage::Paused => "已暂停",
            Stage::IdlePaused => "按需空闲暂停",
            Stage::Stopped => "已停止",
        }
    }
}

/// What a look at a task on demand asks for.
#[derive(Debug, Clone, Copy, PartialEq, Eq, Structural)]
pub enum IdleAction {
    /// The task is not looked at any more.
    Leave,
    /// Nothing yet.
    Keep,
    /// The pipeline is cancelled. The segments of a live task are forgotten.
    Suspend,
}

/// How a pipeline ended.
#[derive(Debug, Clone, Copy, PartialEq, Eq, Structural)]
pub enum Outcome {
    Done,
    Failed,
    Cancelled,
}

/// What a task is doing, and why.
#[derive(Debug, Clone, Copy, PartialEq, Eq, Structural)]
pub struct TaskControl {
    pub run_mode: RunMode,
    pub state: TaskState,
    pub stage: Stage,
    pub paused: bool,
    /// Whether a request may start the task again.
    pub auto_paused: bool,
    /// When the task was last asked for, in seconds; 0 where it never was.
    pub last_request_secs: u64,
    pub idle_timeout_secs: u64,
}

impl TaskControl {
    /// A task that was created.
    pub fn new(run_mode: RunMode, idle_timeout_secs: u64) -> (r: Self)
        ensures
            r == (TaskControl {
                run_mode,
                state: TaskState::Parsing,
                stage: Stage::Created,
                paused: false,
                auto_paused: false,
                last_request_secs: 0,
                idle_timeout_secs,
            }),
    {
        TaskControl {
            run_mode,
            state: TaskState::Parsing,
            stage: Stage::Created,
            paused: false,
            auto_paused: false,
            last_request_secs: 0,
            idle_timeout_secs,
        }
    }

    /// Seconds since the task was last asked for.
    pub open spec fn idle_secs(self, now: u64) -> u64 {
        if self.last_request_secs == 0 || now < self.last_request_secs {
            0
        } else {
            (now - self.last_request_secs) as u64
        }
    }

    /// Seconds since the task was last asked for.
    pub fn playback_idle_secs(&self, now: u64) -> (r: u64)
        ensures
            r == self.idle_secs(now),
    {
        if self.last_request_secs == 0 || now < self.last_request_secs {
            0
        } else {
            now - self.last_request_secs
        }
    }

    /// Whose pipeline starts.
    pub open spec fn started(self, stage: Stage, now: u64) -> Self {
        TaskControl {
            state: TaskState::Running,
            stage,
            paused: false,
            auto_paused: false,
            last_request_secs: if self.run_mode == RunMode::OnDemand {
                now
            } else {
                self.last_request_secs
            },
            ..self
        }
    }

    /// Starts the pipeline.
    pub fn begin(&mut self, stage: Stage, now: u64)
        ensures
            *final(self) == old(self).started(stage, now),
    {
        self.paused = false;
        self.auto_paused = false;
        if self.run_mode.is_on_demand() {
            self.last_request_secs = now;
        }
        self.state = TaskState::Running;
        self.stage = stage;
    }

    /// Makes a task wait for the first request.
    pub fn arm(&mut self)
        ensures
            *final(self) == (TaskControl {
                paused: true,
                auto_paused: true,
                state: TaskState::Paused,
                stage: Stage::AwaitRequest,
                ..*old(self)
            }),
    {
        self.paused = true;
        self.auto_paused = true;
        self.state = TaskState::Paused;
        self.stage = Stage::AwaitRequest;
    }

    /// Whether a request starts the task.
    pub open spec fn wakes(self) -> bool {
        self.run_mode == RunMode::OnDemand && (self.state == TaskState::Paused || self.state
            == TaskState::Stopped) && self.auto_paused
    }

    /// Takes a request, and says whether the pipeline is to be started.
    pub fn on_request(&mut self, now: u64) -> (r: bool)
        ensures
            r == old(self).wakes(),
            *final(self) == (if r {
                (TaskControl { last_request_secs: now, ..*old(self) }).started(Stage::Woken, now)
            } else {
                TaskControl { last_request_secs: now, ..*old(self) }
            }),
    {
        self.last_request_secs = now;
        if self.run_mode.is_on_demand() && (self.state == TaskState::Paused || self.state
            == TaskState::Stopped) && self.auto_paused {
            self.begin(Stage::Woken, now);
            true
        } else {
            false
        }
    }

    /// What a look at the task asks for.
    pub open spec fn idle_action(self, now: u64) -> IdleAction {
        if self.run_mode != RunMode::OnDemand || self.state == TaskState::Finished || self.state
            == TaskState::Error {
            IdleAction::Leave
        } else if self.state.active() && self.idle_secs(now) >= self.idle_timeout_secs {
            IdleAction::Suspend
        } else {
            IdleAction::Keep
        }
    }

    /// Looks at a task on demand, and suspends it where nobody asked for it in time.
    pub fn idle_check(&mut self, now: u64) -> (r: IdleAction)
        ensures
            r == old(self).idle_action(now),
            *final(self) == (if r == IdleAction::Suspend {
                TaskControl {
                    auto_paused: true,
                    paused: true,
                    stage: Stage::IdlePaused,
                    ..*old(self)
                }
            } else {
                *old(self)
            }),
    {
        if !self.run_mode.is_on_demand() || self.state == TaskState::Finished || self.state
            == TaskState::Error {
            return IdleAction::Leave;
        }
        if !self.state.is_active() {
            return IdleAction::Keep;
        }
        if self.playback_idle_secs(now) < self.idle_timeout_secs {
            return IdleAction::Keep;
        }
        self.auto_paused = true;
        self.paused = true;
        self.stage = Stage::IdlePaused;
        IdleAction::Suspend
    }

    /// Takes a stop: the pipeline is to be cancelled.
    pub fn stop(&mut self)
        ensures
            *final(self) == (TaskControl { paused: false, auto_paused: false, ..*old(self) }),
    {
        self.paused = false;
        self.auto_paused = false;
    }

    /// Takes a pause, and says whether the pipeline is to be cancelled.
    pub fn pause(&mut self) -> (r: bool)
        ensures
            r == old(self).state.active(),
            *final(self) == (if r {
                TaskControl { paused: true, auto_paused: false, ..*old(self) }
            } else {
                *old(self)
            }),
    {
        if !self.state.is_active() {
            return false;
        }
        self.paused = true;
        self.auto_paused = false;
        true
    }

    /// Takes a start, and says whether the pipeline is to be started.
    pub fn start(&mut self, now: u64) -> (r: bool)
        ensures
            r == !old(self).state.active(),
            *final(self) == (if r {
                old(self).started(Stage::Resuming, now)
            } else {
                *old(self)
            }),
    {
        if self.state.is_active() {
            return false;
        }
        self.begin(Stage::Resuming, now);
        true
    }

    /// After the end of the pipeline: one that was cancelled is paused or stopped.
    pub open spec fn settled(self, o: Outcome) -> Self {
        match o {
            Outcome::Done => TaskControl {
                stage: Stage::Finished,
                state: TaskState::Finished,
                ..self
            },
            Outcome::Failed => TaskControl {
                stage: Stage::Failed,
                state: TaskState::Error,
                ..self
            },
            Outcome::Cancelled => if self.paused {
                TaskControl {
                    stage: if self.auto_paused {
                        Stage::IdlePaused
                    } else {
                        Stage::Paused
                    },
                    state: TaskState::Paused,
                    ..self
                }
            } else {
                TaskControl { stage: Stage::Stopped, state: TaskState::Stopped, ..self }
            },
        }
    }

    /// Takes the end of the pipeline.
    pub fn settle(&mut self, o: Outcome)
        ensures
            *final(self) == old(self).settled(o),
    {
        match o {
            Outcome::Done => {
                self.stage = Stage::Finished;
                self.state = TaskState::Finished;
            },
            Outcome::Failed => {
                self.stage = Stage::Failed;
                self.state = TaskState::Error;
            },
            Outcome::Cancelled => {
                if self.paused {
                    if self.auto_paused {
                        self.stage = Stage::IdlePaused;
                    } else {
                        self.stage = Stage::Paused;
                    }
                    self.state = TaskState::Paused;
                } else {
                    self.stage = Stage::Stopped;
                    self.state = TaskState::Stopped;
                }
            },
        }
    }
}

/// A task on demand that was suspended for want of requests is started by the next one.
pub proof fn law_suspended_task_is_woken(t: TaskControl, now: u64)
    requires
        t.idle_action(now) == IdleAction::Suspend,
    ensures
        (TaskControl {
            auto_paused: true,
            paused: true,
            stage: Stage::IdlePaused,
            ..t
        }).settled(Outcome::Cancelled).wakes(),
{
}

/// A task that was stopped or paused by hand is not started by a request.
pub proof fn law_stopped_task_stays(t: TaskControl, paused: bool)
    ensures
        !(TaskControl { paused, auto_paused: false, ..t }).settled(Outcome::Cancelled).wakes(),
{
}

/// Seconds without a request after which a task on demand is suspended, by the value of the
/// setting: at least half a minute.
pub fn on_demand_idle_timeout_secs(setting: Option<&str>) -> (r: u64)
    ensures
        r == config::limited_setting(
            setting,
            u64::MAX as int,
            DEFAULT_ON_DEMAND_IDLE_TIMEOUT_SECS as int,
            30,
        ),
{
    config::setting_u64(setting, DEFAULT_ON_DEMAND_IDLE_TIMEOUT_SECS, 30)
}

} // verus!
