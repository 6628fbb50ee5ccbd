//! The messages the server sends its clients, and how the server builds them
//! from its task records, its runner's events and the machine it runs on.
use vstd::prelude::*;
use crate::domain::Workflow;
use crate::config::ToolCapability;
use crate::records::{RunnerEvent, TaskMetadata};
use crate::tasks::{proto_timestamp, to_proto_ts, RpcCode, RpcStatus};
use crate::templates::NucleiTemplatesStatus;
use crate::text::{chars_of, join_str, owned, trim, trim_str};

verus! {

/// A timestamp as whole seconds and nanoseconds.
pub type Timestamp = (i64, i32);

/// A port result of a task, as sent.
#[derive(Debug, Clone)]
pub struct ScanResultMessage {
    pub ip: String,
    pub port: i32,
    pub protocol: String,
    pub state: String,
    pub service: String,
    pub tool: String,
    pub timestamp: String,
}

/// A finding of a task, as sent.
#[derive(Debug, Clone)]
pub struct FindingMessage {
    pub id: i64,
    pub dedupe_key: String,
    pub finding_type: String,
    pub severity: String,
    pub title: String,
    pub detail: String,
    pub ip: String,
    pub port: i32,
    pub protocol: String,
    pub source_tool: String,
    pub source_command: String,
    pub metadata_json: String,
    pub occurrences: i64,
    pub first_seen_at: String,
    pub last_seen_at: String,
    pub updated_at: String,
}

/// A task, as sent.
#[derive(Debug, Clone)]
pub struct TaskMessage {
    pub id: String,
    pub name: String,
    pub description: String,
    pub targets: Vec<String>,
    pub status: i32,
    pub exit_code: i32,
    pub error_message: String,
    pub created_at: Option<Timestamp>,
    pub updated_at: Option<Timestamp>,
    pub started_at: Option<Timestamp>,
    pub finished_at: Option<Timestamp>,
    pub progress: i32,
    pub workflow: Option<Workflow>,
    pub results: Vec<ScanResultMessage>,
    pub findings: Vec<FindingMessage>,
}

/// What a task event carries.
#[derive(Debug, Clone)]
pub enum TaskEventBody {
    Progress { percent: i32, message: String, ts: Option<Timestamp> },
    Log { subtask: String, text: String, is_stderr: bool, offset: i64, ts: Option<Timestamp> },
    TaskSnapshot(TaskMessage),
    Error { message: String },
}

/// A task event, as sent; it may carry nothing.
#[derive(Debug, Clone)]
pub struct TaskEventMessage {
    pub ev: Option<TaskEventBody>,
}

/// A port result row as stored for a task.
#[derive(Debug, Clone)]
pub struct PortResultRow {
    pub ip: String,
    pub port: i64,
    pub protocol: String,
    pub state: String,
    pub service: String,
    pub tool: String,
    pub timestamp: String,
}

/// A finding row as stored for a task.
#[derive(Debug, Clone)]
pub struct FindingRow {
    pub id: i64,
    pub dedupe_key: String,
    pub finding_type: String,
    pub severity: String,
    pub title: String,
    pub detail: String,
    pub ip: String,
    pub port: i64,
    pub protocol: String,
    pub source_tool: String,
    pub source_command: String,
    pub metadata_json: String,
    pub occurrences: i64,
    pub first_seen_at: String,
    pub last_seen_at: String,
    pub updated_at: String,
}

/// A timestamp in milliseconds, when there is one, as sent.
pub open spec fn ts_of(ms: Option<i64>) -> Option<Timestamp> {
    match ms {
        Some(m) => Some(proto_timestamp(m)),
        None => None,
    }
}

/// The message of a task record: its fields, its timestamps converted, its
/// workflow, and no results or findings.
pub open spec fn task_message_of(meta: TaskMetadata, m: TaskMessage) -> bool {
    &&& task_fields_of(meta, m)
    &&& m.results@.len() == 0
    &&& m.findings@.len() == 0
}

/// A task message carries the record's fields, its timestamps converted and
/// its workflow.
pub open spec fn task_fields_of(meta: TaskMetadata, m: TaskMessage) -> bool {
    &&& m.id == meta.id
    &&& m.name == meta.name
    &&& m.description == meta.description
    &&& m.targets == meta.targets
    &&& m.status == meta.status
    &&& m.exit_code == meta.exit_code
    &&& m.error_message == meta.error_message
    &&& m.created_at == Some(proto_timestamp(meta.created_at))
    &&& m.updated_at == ts_of(meta.updated_at)
    &&& m.started_at == ts_of(meta.started_at)
    &&& m.finished_at == ts_of(meta.finished_at)
    &&& m.progress == meta.progress as i32
    &&& m.workflow == Some(meta.workflow)
}

/// The message of a task record.
pub fn metadata_to_proto(meta: TaskMetadata) -> (res: TaskMessage)
    ensures
        task_message_of(meta, res),
{
    let created = to_proto_ts(Some(meta.created_at));
    let updated = to_proto_ts(meta.updated_at);
    let started = to_proto_ts(meta.started_at);
    let finished = to_proto_ts(meta.finished_at);
    TaskMessage {
        id: meta.id,
        name: meta.name,
        description: meta.description,
        targets: meta.targets,
        status: meta.status,
        exit_code: meta.exit_code,
        error_message: meta.error_message,
        created_at: created,
        updated_at: updated,
        started_at: started,
        finished_at: finished,
        progress: meta.progress as i32,
        workflow: Some(meta.workflow),
        results: Vec::new(),
        findings: Vec::new(),
    }
}

/// The message of a stored port result.
pub open spec fn scan_result_of(r: PortResultRow, m: ScanResultMessage) -> bool {
    &&& m.ip == r.ip
    &&& m.port == r.port as i32
    &&& m.protocol == r.protocol
    &&& m.state == r.state
    &&& m.service == r.service
    &&& m.tool == r.tool
    &&& m.timestamp == r.timestamp
}

/// The message of a stored finding.
pub open spec fn finding_message_of(f: FindingRow, m: FindingMessage) -> bool {
    &&& m.id == f.id
    &&& m.dedupe_key == f.dedupe_key
    &&& m.finding_type == f.finding_type
    &&& m.severity == f.severity
    &&& m.title == f.title
    &&& m.detail == f.detail
    &&& m.ip == f.ip
    &&& m.port == f.port as i32
    &&& m.protocol == f.protocol
    &&& m.source_tool == f.source_tool
    &&& m.source_command == f.source_command
    &&& m.metadata_json == f.metadata_json
    &&& m.occurrences == f.occurrences
    &&& m.first_seen_at == f.first_seen_at
    &&& m.last_seen_at == f.last_seen_at
    &&& m.updated_at == f.updated_at
}

fn scan_results(rows: Vec<PortResultRow>) -> (res: Vec<ScanResultMessage>)
    ensures
        res@.len() == rows@.len(),
        forall|k: int| 0 <= k < rows@.len() ==> scan_result_of(rows@[k], #[trigger] res@[k]),
{
    let ghost rv = rows@;
    let mut rows = rows;
    let mut out: Vec<ScanResultMessage> = Vec::new();
    let mut rest: Vec<PortResultRow> = Vec::new();
    while rows.len() > 0
        invariant
            rows@ + rest@.reverse() == rv,
            out@.len() == 0,
        decreases rows@.len(),
    {
        let r = rows.pop().unwrap();
        rest.push(r);
        proof {
            assert(rows@ + rest@.reverse() =~= rv);
        }
    }
    assert(rest@.reverse() =~= rv);
    while rest.len() > 0
        invariant
            rest@.reverse() == rv.skip(out@.len() as int),
            out@.len() <= rv.len(),
            forall|k: int| 0 <= k < out@.len() ==> scan_result_of(rv[k], #[trigger] out@[k]),
        decreases rest@.len(),
    {
        let ghost before = rest@;
        let r = rest.pop().unwrap();
        proof {
            assert(before.reverse()[0] == r);
            assert(rv.skip(out@.len() as int)[0] == r);
            assert(rest@.reverse() =~= before.reverse().drop_first());
            assert(rv.skip(out@.len() as int + 1) =~= rv.skip(out@.len() as int).drop_first());
        }
        let m = ScanResultMessage {
            ip: r.ip,
            port: r.port as i32,
            protocol: r.protocol,
            state: r.state,
            service: r.service,
            tool: r.tool,
            timestamp: r.timestamp,
        };
        out.push(m);
    }
    out
}

fn finding_messages(rows: Vec<FindingRow>) -> (res: Vec<FindingMessage>)
    ensures
        res@.len() == rows@.len(),
        forall|k: int| 0 <= k < rows@.len() ==> finding_message_of(rows@[k], #[trigger] res@[k]),
{
    let ghost rv = rows@;
    let mut rows = rows;
    let mut rest: Vec<FindingRow> = Vec::new();
    while rows.len() > 0
        invariant
            rows@ + rest@.reverse() == rv,
        decreases rows@.len(),
    {
        let r = rows.pop().unwrap();
        rest.push(r);
        proof {
            assert(rows@ + rest@.reverse() =~= rv);
        }
    }
    assert(rest@.reverse() =~= rv);
    let mut out: Vec<FindingMessage> = Vec::new();
    while rest.len() > 0
        invariant
            rest@.reverse() == rv.skip(out@.len() as int),
            out@.len() <= rv.len(),
            forall|k: int| 0 <= k < out@.len() ==> finding_message_of(rv[k], #[trigger] out@[k]),
        decreases rest@.len(),
    {
        let ghost before = rest@;
        let f = rest.pop().unwrap();
        proof {
            assert(before.reverse()[0] == f);
            assert(rv.skip(out@.len() as int)[0] == f);
            assert(rest@.reverse() =~= before.reverse().drop_first());
            assert(rv.skip(out@.len() as int + 1) =~= rv.skip(out@.len() as int).drop_first());
        }
        let m = FindingMessage {
            id: f.id,
            dedupe_key: f.dedupe_key,
            finding_type: f.finding_type,
            severity: f.severity,
            title: f.title,
            detail: f.detail,
            ip: f.ip,
            port: f.port as i32,
            protocol: f.protocol,
            source_tool: f.source_tool,
            source_command: f.source_command,
            metadata_json: f.metadata_json,
            occurrences: f.occurrences,
            first_seen_at: f.first_seen_at,
            last_seen_at: f.last_seen_at,
            updated_at: f.updated_at,
        };
        out.push(m);
    }
    out
}

/// A task's message with what its database holds: its port results and
/// findings, each left empty when it could not be read.
pub fn task_with_rows(
    meta: TaskMetadata,
    ports: Option<Vec<PortResultRow>>,
    findings: Option<Vec<FindingRow>>,
) -> (res: TaskMessage)
    ensures
        task_fields_of(meta, res),
        match ports {
            Some(rows) => res.results@.len() == rows@.len() && forall|k: int|
                0 <= k < rows@.len() ==> scan_result_of(rows@[k], #[trigger] res.results@[k]),
            None => res.results@.len() == 0,
        },
        match findings {
            Some(rows) => res.findings@.len() == rows@.len() && forall|k: int|
                0 <= k < rows@.len() ==> finding_message_of(rows@[k], #[trigger] res.findings@[k]),
            None => res.findings@.len() == 0,
        },
{
    let ghost m0 = meta;
    let mut m = metadata_to_proto(meta);
    let ghost base = m;
    match ports {
        Some(rows) => {
            m.results = scan_results(rows);
        },
        None => {},
    }
    match findings {
        Some(rows) => {
            m.findings = finding_messages(rows);
        },
        None => {},
    }
    m
}

/// The refusal for a task that does not exist.
pub fn task_not_found() -> (res: RpcStatus)
    ensures
        res.code == RpcCode::NotFound,
        res.message@ == "任务不存在"@,
{
    RpcStatus { code: RpcCode::NotFound, message: owned("任务不存在") }
}

/// The event a client sees for a runner event: progress with no message,
/// snapshots and errors; output and exits are not sent.
pub open spec fn event_message_of(ev: RunnerEvent, res: Option<TaskEventMessage>) -> bool {
    match ev {
        RunnerEvent::Progress { percent, ts } => res matches Some(m) && m.ev matches Some(
            TaskEventBody::Progress { percent: p, message, ts: t },
        ) && p == percent as i32 && message@.len() == 0 && t == Some(proto_timestamp(ts)),
        RunnerEvent::Log { .. } => res is None,
        RunnerEvent::Exit { .. } => res is None,
        RunnerEvent::Snapshot { meta, .. } => res matches Some(m) && m.ev matches Some(
            TaskEventBody::TaskSnapshot(t),
        ) && task_message_of(meta, t),
        RunnerEvent::Error { message, .. } => res matches Some(m) && m.ev matches Some(
            TaskEventBody::Error { message: msg },
        ) && msg == message,
    }
}

/// The event a client sees for a runner event, if any.
pub fn runner_event_message(ev: RunnerEvent) -> (res: Option<TaskEventMessage>)
    ensures
        event_message_of(ev, res),
{
    match ev {
        RunnerEvent::Progress { percent, ts } => {
            let t = to_proto_ts(Some(ts));
            Some(
                TaskEventMessage {
                    ev: Some(TaskEventBody::Progress { percent: percent as i32, message: String::new(), ts: t }),
                },
            )
        },
        RunnerEvent::Log { .. } => None,
        RunnerEvent::Exit { .. } => None,
        RunnerEvent::Snapshot { meta, .. } => Some(
            TaskEventMessage { ev: Some(TaskEventBody::TaskSnapshot(metadata_to_proto(meta))) },
        ),
        RunnerEvent::Error { message, .. } => Some(
            TaskEventMessage { ev: Some(TaskEventBody::Error { message }) },
        ),
    }
}

// ---------------------------------------------------------------------------
// Server information
// ---------------------------------------------------------------------------

/// What the machine reports about itself.
#[derive(Debug, Clone)]
pub struct SystemFacts {
    pub hostname: Option<String>,
    pub os_name: Option<String>,
    pub os_version: Option<String>,
    pub uptime_seconds: u64,
    pub cpu_count: usize,
    pub memory_total_bytes: u64,
    pub memory_free_bytes: u64,
    /// Each disk's total and available space, in bytes.
    pub disks: Vec<(u64, u64)>,
}

/// A tool and whether it can be used, as sent.
#[derive(Debug, Clone)]
pub struct ToolCapabilityMessage {
    pub tool_id: String,
    pub available: bool,
    pub source: String,
    pub path: String,
}

/// The server's description of itself, as sent (the load average is not
/// measured, so it is always empty and not carried here).
#[derive(Debug, Clone)]
pub struct ServerInfoMessage {
    pub hostname: String,
    pub os: String,
    pub uptime_seconds: u64,
    pub cpu_cores: i32,
    pub memory_total_bytes: u64,
    pub memory_free_bytes: u64,
    pub version: String,
    pub disk_total_bytes: u64,
    pub disk_free_bytes: u64,
    pub tools: Vec<ToolCapabilityMessage>,
    pub nuclei_templates: Option<NucleiTemplatesStatus>,
}

/// A text, or the empty text.
pub open spec fn or_empty(o: Option<String>) -> Seq<char> {
    match o {
        Some(s) => s@,
        None => Seq::empty(),
    }
}

/// The operating system's name, followed by its version when it has one.
pub open spec fn os_text(name: Option<String>, version: Option<String>) -> Seq<char> {
    if or_empty(version).len() == 0 {
        or_empty(name)
    } else {
        or_empty(name) + " "@ + or_empty(version)
    }
}

/// The sum of some sizes, stopping at the largest `u64`.
pub open spec fn saturating_total(v: Seq<u64>) -> u64
    decreases v.len(),
{
    if v.len() == 0 {
        0
    } else {
        let t = saturating_total(v.drop_last()) + v.last();
        if t > u64::MAX {
            u64::MAX
        } else {
            t as u64
        }
    }
}

/// The first or the second members of some pairs.
pub open spec fn firsts(v: Seq<(u64, u64)>) -> Seq<u64> {
    v.map_values(|p: (u64, u64)| p.0)
}

pub open spec fn seconds(v: Seq<(u64, u64)>) -> Seq<u64> {
    v.map_values(|p: (u64, u64)| p.1)
}

/// The message of a tool capability: its path, or the empty text.
pub open spec fn tool_message_of(t: ToolCapability, m: ToolCapabilityMessage) -> bool {
    &&& m.tool_id == t.tool_id
    &&& m.available == t.available
    &&& m.source == t.source
    &&& m.path@ == or_empty(t.path)
}

fn text_or_empty(o: Option<String>) -> (res: String)
    ensures
        res@ == or_empty(o),
{
    match o {
        Some(s) => s,
        None => String::new(),
    }
}

/// The server's description of itself from what the machine reports, the
/// tools found, the template status and the server's version.
pub fn server_info_message(
    facts: SystemFacts,
    tools: Vec<ToolCapability>,
    templates: NucleiTemplatesStatus,
    version: String,
) -> (res: ServerInfoMessage)
    ensures
        res.hostname@ == or_empty(facts.hostname),
        res.os@ == os_text(facts.os_name, facts.os_version),
        res.uptime_seconds == facts.uptime_seconds,
        res.cpu_cores == facts.cpu_count as i32,
        res.memory_total_bytes == facts.memory_total_bytes,
        res.memory_free_bytes == facts.memory_free_bytes,
        res.version == version,
        res.disk_total_bytes == saturating_total(firsts(facts.disks@)),
        res.disk_free_bytes == saturating_total(seconds(facts.disks@)),
        res.tools@.len() == tools@.len(),
        forall|k: int| 0 <= k < tools@.len() ==> tool_message_of(tools@[k], #[trigger] res.tools@[k]),
        res.nuclei_templates == Some(templates),
{
    proof {
        reveal_strlit(" ");
    }
    let hostname = text_or_empty(facts.hostname);
    let name = text_or_empty(facts.os_name);
    let ver = text_or_empty(facts.os_version);
    let os = if chars_of(ver.as_str()).len() == 0 {
        name
    } else {
        let a = join_str(name.as_str(), " ");
        join_str(a.as_str(), ver.as_str())
    };
    let ghost dv = facts.disks@;
    let mut total: u64 = 0;
    let mut free: u64 = 0;
    let mut i: usize = 0;
    assert(firsts(dv.take(0)) =~= Seq::<u64>::empty());
    assert(seconds(dv.take(0)) =~= Seq::<u64>::empty());
    while i < facts.disks.len()
        invariant
            i <= dv.len(),
            dv == facts.disks@,
            total == saturating_total(firsts(dv.take(i as int))),
            free == saturating_total(seconds(dv.take(i as int))),
        decreases dv.len() - i,
    {
        let (t, a) = facts.disks[i];
        proof {
            assert(firsts(dv.take(i + 1)).drop_last() =~= firsts(dv.take(i as int)));
            assert(seconds(dv.take(i + 1)).drop_last() =~= seconds(dv.take(i as int)));
            assert(firsts(dv.take(i + 1)).last() == t);
            assert(seconds(dv.take(i + 1)).last() == a);
        }
        total = total.saturating_add(t);
        free = free.saturating_add(a);
        i = i + 1;
    }
    assert(dv.take(i as int) =~= dv);
    let ghost tv = tools@;
    let mut tool_msgs: Vec<ToolCapabilityMessage> = Vec::new();
    let mut tools = tools;
    let mut rest: Vec<ToolCapability> = Vec::new();
    while tools.len() > 0
        invariant
            tools@ + rest@.reverse() == tv,
        decreases tools@.len(),
    {
        let t = tools.pop().unwrap();
        rest.push(t);
        proof {
            assert(tools@ + rest@.reverse() =~= tv);
        }
    }
    assert(rest@.reverse() =~= tv);
    while rest.len() > 0
        invariant
            rest@.reverse() == tv.skip(tool_msgs@.len() as int),
            tool_msgs@.len() <= tv.len(),
            forall|k: int| 0 <= k < tool_msgs@.len() ==> tool_message_of(tv[k], #[trigger] tool_msgs@[k]),
        decreases rest@.len(),
    {
        let ghost before = rest@;
        let t = rest.pop().unwrap();
        proof {
            assert(before.reverse()[0] == t);
            assert(tv.skip(tool_msgs@.len() as int)[0] == t);
            assert(rest@.reverse() =~= before.reverse().drop_first());
            assert(tv.skip(tool_msgs@.len() as int + 1) =~= tv.skip(tool_msgs@.len() as int).drop_first());
        }
        let path = text_or_empty(t.path);
        tool_msgs.push(ToolCapabilityMessage { tool_id: t.tool_id, available: t.available, source: t.source, path });
    }
    ServerInfoMessage {
        hostname,
        os,
        uptime_seconds: facts.uptime_seconds,
        cpu_cores: facts.cpu_count as i32,
        memory_total_bytes: facts.memory_total_bytes,
        memory_free_bytes: facts.memory_free_bytes,
        version,
        disk_total_bytes: total,
        disk_free_bytes: free,
        tools: tool_msgs,
        nuclei_templates: Some(templates),
    }
}

// ---------------------------------------------------------------------------
// Syncing templates on request
// ---------------------------------------------------------------------------

/// A request to sync templates: a local directory, a repository (each blank
/// when not given) and whether to forget the local directory.
#[derive(Debug, Clone)]
pub struct SyncTemplatesRequest {
    pub local_path: String,
    pub repo_url: String,
    pub clear_local_path: bool,
}

/// The answer to a sync request.
#[derive(Debug, Clone)]
pub struct SyncTemplatesResponse {
    pub status: Option<NucleiTemplatesStatus>,
    pub message: String,
}

/// A text as given, or none when it is blank.
pub open spec fn given(s: String) -> Option<String> {
    if trim(s@).len() == 0 {
        None
    } else {
        Some(s)
    }
}

fn given_exec(s: String) -> (res: Option<String>)
    ensures
        res == given(s),
{
    if trim_str(s.as_str()).len() == 0 {
        None
    } else {
        Some(s)
    }
}

/// What a sync request asks for: the local directory and the repository,
/// each none when blank, and whether to forget the local directory.
pub fn sync_request_settings(req: SyncTemplatesRequest) -> (res: (Option<String>, Option<String>, bool))
    ensures
        res.0 == given(req.local_path),
        res.1 == given(req.repo_url),
        res.2 == req.clear_local_path,
{
    (given_exec(req.local_path), given_exec(req.repo_url), req.clear_local_path)
}

/// The settings to write after a sync: the configured local directory (none
/// when blank) and the repository.
pub fn settings_to_persist(status: &NucleiTemplatesStatus) -> (res: (Option<String>, String))
    ensures
        res.0 == given(status.configured_local_path),
        res.1 == status.repo_url,
{
    (given_exec(status.configured_local_path.clone()), status.repo_url.clone())
}

/// The answer to a sync that succeeded.
pub fn sync_response(status: NucleiTemplatesStatus) -> (res: SyncTemplatesResponse)
    ensures
        res.status == Some(status),
        res.message@ == "nuclei templates synced"@,
{
    SyncTemplatesResponse { status: Some(status), message: owned("nuclei templates synced") }
}

/// The refusal for a sync whose settings could not be written.
pub fn persist_failure(cause: &str) -> (res: RpcStatus)
    ensures
        res.code == RpcCode::Internal,
        res.message@ == "persist config failed: "@ + cause@,
{
    RpcStatus { code: RpcCode::Internal, message: join_str("persist config failed: ", cause) }
}

/// The messages of a list of task records, in order.
pub fn list_task_messages(tasks: Vec<TaskMetadata>) -> (res: Vec<TaskMessage>)
    ensures
        res@.len() == tasks@.len(),
        forall|k: int| 0 <= k < tasks@.len() ==> task_message_of(tasks@[k], #[trigger] res@[k]),
{
    let ghost tv = tasks@;
    let mut tasks = tasks;
    let mut rest: Vec<TaskMetadata> = Vec::new();
    while tasks.len() > 0
        invariant
            tasks@ + rest@.reverse() == tv,
        decreases tasks@.len(),
    {
        let t = tasks.pop().unwrap();
        rest.push(t);
        proof {
            assert(tasks@ + rest@.reverse() =~= tv);
        }
    }
    assert(rest@.reverse() =~= tv);
    let mut out: Vec<TaskMessage> = Vec::new();
    while rest.len() > 0
        invariant
            rest@.reverse() == tv.skip(out@.len() as int),
            out@.len() <= tv.len(),
            forall|k: int| 0 <= k < out@.len() ==> task_message_of(tv[k], #[trigger] out@[k]),
        decreases rest@.len(),
    {
        let ghost before = rest@;
        let t = rest.pop().unwrap();
        proof {
            assert(before.reverse()[0] == t);
            assert(tv.skip(out@.len() as int)[0] == t);
            assert(rest@.reverse() =~= before.reverse().drop_first());
            assert(tv.skip(out@.len() as int + 1) =~= tv.skip(out@.len() as int).drop_first());
        }
        out.push(metadata_to_proto(t));
    }
    out
}

/// The exact sum of some sizes.
pub open spec fn exact_total(v: Seq<u64>) -> int
    decreases v.len(),
{
    if v.len() == 0 {
        0
    } else {
        exact_total(v.drop_last()) + v.last()
    }
}

/// Totals of disk sizes saturate: the total is the exact sum when it fits
/// in a `u64`, and the largest `u64` when it does not. The operating system
/// shows its name alone when it has no version.
pub proof fn law_totals_saturate(v: Seq<u64>, name: Option<String>, version: Option<String>)
    ensures
        exact_total(v) <= u64::MAX ==> saturating_total(v) == exact_total(v),
        exact_total(v) > u64::MAX ==> saturating_total(v) == u64::MAX,
        exact_total(v) >= 0,
        or_empty(version).len() == 0 ==> os_text(name, version) == or_empty(name),
    decreases v.len(),
{
    if v.len() > 0 {
        law_totals_saturate(v.drop_last(), name, version);
    }
}

} // verus!
