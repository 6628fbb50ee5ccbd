//! Records a scan task keeps and produces: task metadata, command
//! specifications, runner events, assets, fingerprints and findings.
use vstd::prelude::*;
use crate::domain::{DomainPipelineState, Workflow};

verus! {

/// Kind of a discovered asset.
#[derive(Debug, Clone, Copy, PartialEq, Eq, Structural)]
pub enum AssetKind {
    /// A host.
    Host,
    /// A web service.
    WebService,
    /// Any other network service.
    Service,
    /// Anything else.
    Other,
}

impl Default for AssetKind {
    fn default() -> (res: AssetKind)
        ensures
            res == AssetKind::Host,
    {
        AssetKind::Host
    }
}

/// Severity of a finding.
#[derive(Debug, Clone, Copy, PartialEq, Eq, Structural)]
pub enum FindingSeverity {
    Info,
    Low,
    Medium,
    High,
    Critical,
}

impl Default for FindingSeverity {
    fn default() -> (res: FindingSeverity)
        ensures
            res == FindingSeverity::Info,
    {
        FindingSeverity::Info
    }
}

/// Life-cycle state of a finding.
#[derive(Debug, Clone, Copy, PartialEq, Eq, Structural)]
pub enum FindingState {
    /// Not yet handled.
    Open,
    /// Confirmed.
    Confirmed,
    /// Fixed.
    Resolved,
    /// A false positive.
    FalsePositive,
}

impl Default for FindingState {
    fn default() -> (res: FindingState)
        ensures
            res == FindingState::Open,
    {
        FindingState::Open
    }
}

/// A discovered asset.
#[derive(Debug, Clone)]
pub struct AssetRecord {
    pub asset_id: String,
    pub task_id: String,
    pub address: String,
    pub kind: AssetKind,
    pub first_seen_at: i64,
    pub last_seen_at: Option<i64>,
}

/// A service fingerprint of an asset.
#[derive(Debug, Clone)]
pub struct ServiceFingerprint {
    pub fingerprint_id: String,
    pub asset_id: String,
    pub port: i32,
    pub protocol: String,
    pub service: String,
    pub product: String,
    pub version: String,
    pub confidence: u8,
    pub observed_at: i64,
}

/// A vulnerability finding, in business terms.
#[derive(Debug, Clone)]
pub struct VulnerabilityFinding {
    pub finding_id: String,
    pub task_id: String,
    pub asset_id: String,
    pub template_id: String,
    pub title: String,
    pub severity: FindingSeverity,
    pub state: FindingState,
    pub description: String,
    pub evidence: String,
    pub references: Vec<String>,
    pub discovered_at: i64,
    pub resolved_at: Option<i64>,
}

/// Summary of the findings of a task.
#[derive(Debug, Clone)]
pub struct VulnerabilityReport {
    pub report_id: String,
    pub task_id: String,
    pub generated_at: i64,
    pub asset_count: u32,
    pub fingerprint_count: u32,
    pub finding_count: u32,
    pub critical_count: u32,
    pub summary: String,
}

/// Status of a task; the numeric codes are those of the wire protocol
/// (0 unspecified, 1 pending, 2 running, 3 done, 4 failed, 5 stopped).
#[derive(Debug, Clone, Copy, PartialEq, Eq, Structural)]
pub enum TaskStatus {
    Unspecified,
    Pending,
    Running,
    Done,
    Failed,
    Stopped,
}

/// Numeric code of a task status.
pub open spec fn status_code(s: TaskStatus) -> i32 {
    match s {
        TaskStatus::Unspecified => 0,
        TaskStatus::Pending => 1,
        TaskStatus::Running => 2,
        TaskStatus::Done => 3,
        TaskStatus::Failed => 4,
        TaskStatus::Stopped => 5,
    }
}

/// Status a numeric code denotes.
pub open spec fn status_of_code(code: i32) -> Option<TaskStatus> {
    if code == 0 {
        Some(TaskStatus::Unspecified)
    } else if code == 1 {
        Some(TaskStatus::Pending)
    } else if code == 2 {
        Some(TaskStatus::Running)
    } else if code == 3 {
        Some(TaskStatus::Done)
    } else if code == 4 {
        Some(TaskStatus::Failed)
    } else if code == 5 {
        Some(TaskStatus::Stopped)
    } else {
        None
    }
}

impl TaskStatus {
    /// Numeric code of this status.
    pub fn as_i32(self) -> (res: i32)
        ensures
            res == status_code(self),
    {
        match self {
            TaskStatus::Unspecified => 0,
            TaskStatus::Pending => 1,
            TaskStatus::Running => 2,
            TaskStatus::Done => 3,
            TaskStatus::Failed => 4,
            TaskStatus::Stopped => 5,
        }
    }

    /// Status a numeric code denotes, if any.
    pub fn from_i32(code: i32) -> (res: Option<TaskStatus>)
        ensures
            res == status_of_code(code),
    {
        match code {
            0 => Some(TaskStatus::Unspecified),
            1 => Some(TaskStatus::Pending),
            2 => Some(TaskStatus::Running),
            3 => Some(TaskStatus::Done),
            4 => Some(TaskStatus::Failed),
            5 => Some(TaskStatus::Stopped),
            _ => None,
        }
    }
}

/// Decoding a status's code gives the status back.
pub proof fn law_status_code_roundtrip(s: TaskStatus)
    ensures
        status_of_code(status_code(s)) == Some(s),
{
}

/// Metadata of a scan task.
#[derive(Debug, Clone)]
pub struct TaskMetadata {
    pub id: String,
    pub name: String,
    pub description: String,
    pub targets: Vec<String>,
    pub status: i32,
    pub progress: u8,
    pub exit_code: i32,
    pub error_message: String,
    pub created_at: i64,
    pub updated_at: Option<i64>,
    pub started_at: Option<i64>,
    pub finished_at: Option<i64>,
    pub log_path: String,
    pub workflow: Workflow,
    pub domain_state: DomainPipelineState,
}

impl TaskMetadata {
    /// The status the numeric status code denotes.
    pub fn status_enum(&self) -> (res: Option<TaskStatus>)
        ensures
            res == status_of_code(self.status),
    {
        TaskStatus::from_i32(self.status)
    }

    /// Records `status` as the numeric status code.
    pub fn set_status_enum(&mut self, status: TaskStatus)
        ensures
            *final(self) == (TaskMetadata { status: status_code(status), ..*old(self) }),
    {
        self.status = status.as_i32();
    }
}

/// A partial update of task metadata.
#[derive(Debug, Clone)]
pub struct TaskMetadataPatch {
    pub name: Option<String>,
    pub description: Option<String>,
    pub targets: Option<Vec<String>>,
    pub status: Option<i32>,
    pub progress: Option<u8>,
    pub exit_code: Option<i32>,
    pub error_message: Option<String>,
    pub updated_at: Option<i64>,
    pub started_at: Option<i64>,
    pub finished_at: Option<i64>,
    pub log_path: Option<String>,
    pub domain_state: Option<DomainPipelineState>,
}

impl Default for TaskMetadataPatch {
    fn default() -> (res: TaskMetadataPatch)
        ensures
            res.name is None && res.description is None && res.targets is None && res.status is None
                && res.progress is None && res.exit_code is None && res.error_message is None
                && res.updated_at is None && res.started_at is None && res.finished_at is None
                && res.log_path is None && res.domain_state is None,
    {
        TaskMetadataPatch {
            name: None,
            description: None,
            targets: None,
            status: None,
            progress: None,
            exit_code: None,
            error_message: None,
            updated_at: None,
            started_at: None,
            finished_at: None,
            log_path: None,
            domain_state: None,
        }
    }
}

/// How to run one command of a task.
#[derive(Debug, Clone)]
pub struct CommandSpec {
    pub id: String,
    /// Path of the program to run.
    pub program: String,
    pub targets: Vec<String>,
    pub args: Vec<String>,
    /// Extra environment variables.
    pub env: Option<Vec<(String, String)>>,
    /// Working directory.
    pub cwd: Option<String>,
}

/// An event a running task emits.
#[derive(Debug, Clone)]
pub enum RunnerEvent {
    /// Progress, in percent.
    Progress { percent: u8, ts: i64 },
    /// Output of a command.
    Log { subtask: String, data: Vec<u8>, is_stderr: bool, offset: i64, ts: i64 },
    /// A process exited.
    Exit { code: i32, ts: i64 },
    /// The final metadata of a finished task.
    Snapshot { meta: TaskMetadata, ts: i64 },
    /// An error.
    Error { message: String, ts: i64 },
}

/// A row of the port results of a task.
#[derive(Debug, Clone)]
pub struct PortRow {
    pub ip: String,
    pub port: i32,
    pub protocol: String,
    pub state: String,
    pub service: String,
    pub tool: String,
}

/// A finding to record (or to merge with the one of the same key).
#[derive(Debug, Clone)]
pub struct NewFinding {
    pub dedupe_key: Option<String>,
    pub finding_type: String,
    pub severity: String,
    pub title: String,
    pub detail: Option<String>,
    pub ip: Option<String>,
    pub port: Option<i64>,
    pub protocol: Option<String>,
    pub source_tool: Option<String>,
    pub source_command: Option<String>,
    pub metadata_json: Option<String>,
}

/// A project: its identity, description, status and, when known, its
/// creation time as an RFC 3339 text.
#[derive(Debug, Clone)]
pub struct ProjectMetadata {
    pub id: String,
    pub name: String,
    pub description: String,
    pub status: String,
    pub created_at: Option<String>,
}

/// The status codes of the task protocol: unspecified 0, pending 1, running
/// 2, done 3, failed 4, stopped 5; no other code names a status.
pub proof fn law_status_code_table(code: i32)
    ensures
        status_code(TaskStatus::Unspecified) == 0,
        status_code(TaskStatus::Pending) == 1,
        status_code(TaskStatus::Running) == 2,
        status_code(TaskStatus::Done) == 3,
        status_code(TaskStatus::Failed) == 4,
        status_code(TaskStatus::Stopped) == 5,
        !(0 <= code <= 5) ==> status_of_code(code) is None,
        0 <= code <= 5 ==> (status_of_code(code) matches Some(st) && status_code(st) == code),
{
}

} // verus!
