//! The desktop client's side: the records it shows the user, how it reads
//! the server's messages into them, and the list of servers it remembers.
use vstd::prelude::*;
use chrono::TimeZone;
use crate::ids::{is_uuid_text, new_uuid_text, now_millis};
use crate::wire::{ScanResultMessage, TaskEventBody, TaskEventMessage, TaskMessage, Timestamp};

verus! {

// ---------------------------------------------------------------------------
// Errors
// ---------------------------------------------------------------------------

/// The error of a client command: its cause's message.
#[derive(Debug, Clone)]
pub enum CommandError {
    Anyhow(String),
}

impl CommandError {
    /// The text the error shows, which is its cause's.
    pub fn message(&self) -> (res: String)
        ensures
            match self {
                CommandError::Anyhow(m) => res@ == m@,
            },
    {
        match self {
            CommandError::Anyhow(m) => m.clone(),
        }
    }
}

// ---------------------------------------------------------------------------
// Records shown to the user
// ---------------------------------------------------------------------------

/// A network interface and its addresses.
#[derive(Debug, Clone)]
pub struct NetworkInterfaceDto {
    pub name: String,
    pub ip_addresses: Vec<String>,
}

/// A tool of the server and whether it can be used.
#[derive(Debug, Clone)]
pub struct ToolCapabilityDto {
    pub tool_id: String,
    pub available: bool,
    pub source: String,
    pub path: String,
}

/// Where the server's templates come from and how their last sync went.
#[derive(Debug, Clone)]
pub struct NucleiTemplatesStatusDto {
    pub source: String,
    pub configured_local_path: String,
    pub effective_path: String,
    pub repo_url: String,
    pub cache_path: String,
    pub last_sync_unix: i64,
    pub last_error: String,
    pub sync_supported: bool,
}

/// A step of a workflow: its type and its tool.
#[derive(Debug, Clone)]
pub struct WorkflowStepDto {
    pub step_type: i32,
    pub tool: String,
}

/// The steps of a workflow, in order.
#[derive(Debug, Clone)]
pub struct WorkflowDto {
    pub steps: Vec<WorkflowStepDto>,
}

/// A port result.
#[derive(Debug, Clone)]
pub struct ScanResultDto {
    pub ip: String,
    pub port: i32,
    pub protocol: String,
    pub state: String,
    pub service: String,
    pub tool: String,
    pub timestamp: String,
}

/// A finding.
#[derive(Debug, Clone)]
pub struct FindingDto {
    pub id: i64,
    pub dedupe_key: String,
    pub finding_type: String,
    pub severity: String,
    pub title: String,
    pub detail: String,
    pub ip: String,
    pub port: i32,
    pub protocol: String,
    pub source_tool: String,
    pub source_command: String,
    pub metadata_json: String,
    pub occurrences: i64,
    pub first_seen_at: String,
    pub last_seen_at: String,
    pub updated_at: String,
}

/// A task as the user sees it; times are RFC 3339 texts.
#[derive(Debug, Clone)]
pub struct TaskDto {
    pub id: String,
    pub name: String,
    pub description: Option<String>,
    pub targets: Option<Vec<String>>,
    pub status: i32,
    pub exit_code: Option<i32>,
    pub error_message: Option<String>,
    pub progress: i32,
    pub created_at: Option<String>,
    pub updated_at: Option<String>,
    pub started_at: Option<String>,
    pub finished_at: Option<String>,
    pub workflow: WorkflowDto,
    pub results: Vec<ScanResultDto>,
    pub findings: Vec<FindingDto>,
}

/// What the user fills in to create a task.
#[derive(Debug, Clone)]
pub struct CreateTaskDto {
    pub name: String,
    pub description: Option<String>,
    pub targets: Option<Vec<String>>,
    pub workflow: WorkflowDto,
}

/// Progress of a task.
#[derive(Debug, Clone)]
pub struct ProgressDto {
    pub percent: i32,
    pub message: String,
    pub ts: Option<String>,
}

/// A piece of a command's output.
#[derive(Debug, Clone)]
pub struct LogChunkDto {
    pub subtask: String,
    pub text: String,
    pub is_stderr: bool,
    pub offset: i64,
    pub ts: Option<String>,
}

/// An error reported by a task.
#[derive(Debug, Clone)]
pub struct ErrorDto {
    pub message: String,
}

/// An event of a running task.
#[derive(Debug, Clone)]
pub enum TaskEventDto {
    Progress(ProgressDto),
    Log(LogChunkDto),
    TaskSnapshot(TaskDto),
    Error(ErrorDto),
}

// ---------------------------------------------------------------------------
// Reading the server's messages
// ---------------------------------------------------------------------------

/// The RFC 3339 text `chrono` writes for a UTC instant given as seconds and
/// nanoseconds; none when the instant is out of range.
pub uninterp spec fn rfc3339_of(seconds: i64, nanos: u32) -> Option<Seq<char>>;

/// `chrono::Utc.timestamp_opt(seconds, nanos).single()`, written with
/// `to_rfc3339`. The result depends on the two numbers alone, so it is
/// named.
#[verifier::external_body]
fn rfc3339_text(seconds: i64, nanos: u32) -> (res: Option<String>)
    ensures
        match res {
            Some(s) => rfc3339_of(seconds, nanos) == Some(s@),
            None => rfc3339_of(seconds, nanos) is None,
        },
{
    chrono::Utc.timestamp_opt(seconds, nanos).single().map(|dt| dt.to_rfc3339())
}

/// The text of a timestamp, when there is one and it is in range.
pub open spec fn ts_text(ts: Option<Timestamp>) -> Option<Seq<char>> {
    match ts {
        Some(t) => rfc3339_of(t.0, t.1 as u32),
        None => None,
    }
}

/// The views of optional texts.
pub open spec fn opt_text(o: Option<String>) -> Option<Seq<char>> {
    match o {
        Some(s) => Some(s@),
        None => None,
    }
}

/// A timestamp as an RFC 3339 text.
pub fn ts_to_rfc3339(ts: Option<Timestamp>) -> (res: Option<String>)
    ensures
        opt_text(res) == ts_text(ts),
{
    match ts {
        Some((s, n)) => rfc3339_text(s, n as u32),
        None => None,
    }
}

/// The workflow of a task message: its steps, or none.
pub open spec fn workflow_dto_of(wf: Option<crate::domain::Workflow>, d: WorkflowDto) -> bool {
    match wf {
        Some(w) => d.steps@.len() == w.steps@.len() && forall|k: int|
            0 <= k < w.steps@.len() ==> (#[trigger] d.steps@[k]).step_type == w.steps@[k].step_type
                && d.steps@[k].tool == w.steps@[k].tool,
        None => d.steps@.len() == 0,
    }
}

fn workflow_from_proto(wf: Option<crate::domain::Workflow>) -> (res: WorkflowDto)
    ensures
        workflow_dto_of(wf, res),
{
    match wf {
        Some(w) => {
            let mut steps: Vec<WorkflowStepDto> = Vec::new();
            let mut i: usize = 0;
            while i < w.steps.len()
                invariant
                    i <= w.steps@.len(),
                    steps@.len() == i,
                    forall|k: int|
                        0 <= k < i ==> (#[trigger] steps@[k]).step_type == w.steps@[k].step_type
                            && steps@[k].tool == w.steps@[k].tool,
                decreases w.steps@.len() - i,
            {
                let s = &w.steps[i];
                steps.push(WorkflowStepDto { step_type: s.step_type, tool: s.tool.clone() });
                i = i + 1;
            }
            WorkflowDto { steps }
        },
        None => WorkflowDto { steps: Vec::new() },
    }
}

/// A port result as shown: the same fields.
pub open spec fn scan_result_dto_of(m: ScanResultMessage, d: ScanResultDto) -> bool {
    &&& d.ip == m.ip
    &&& d.port == m.port
    &&& d.protocol == m.protocol
    &&& d.state == m.state
    &&& d.service == m.service
    &&& d.tool == m.tool
    &&& d.timestamp == m.timestamp
}

/// A port result as shown.
pub fn scan_result_from_proto(p: ScanResultMessage) -> (res: ScanResultDto)
    ensures
        scan_result_dto_of(p, res),
{
    ScanResultDto {
        ip: p.ip,
        port: p.port,
        protocol: p.protocol,
        state: p.state,
        service: p.service,
        tool: p.tool,
        timestamp: p.timestamp,
    }
}

/// A task as shown: a blank description or an empty target list becomes
/// none, times become RFC 3339 texts, and the port results are carried
/// over. Exit code, error message, update time and findings are not read.
pub open spec fn task_dto_of(p: TaskMessage, d: TaskDto) -> bool {
    &&& d.id == p.id
    &&& d.name == p.name
    &&& (if p.description@.len() == 0 {
        d.description is None
    } else {
        d.description == Some(p.description)
    })
    &&& (if p.targets@.len() == 0 {
        d.targets is None
    } else {
        d.targets == Some(p.targets)
    })
    &&& d.status == p.status
    &&& d.progress == p.progress
    &&& opt_text(d.created_at) == ts_text(p.created_at)
    &&& opt_text(d.started_at) == ts_text(p.started_at)
    &&& opt_text(d.finished_at) == ts_text(p.finished_at)
    &&& workflow_dto_of(p.workflow, d.workflow)
    &&& d.results@.len() == p.results@.len()
    &&& forall|k: int| 0 <= k < p.results@.len() ==> scan_result_dto_of(p.results@[k], #[trigger] d.results@[k])
    &&& d.exit_code is None
    &&& d.error_message is None
    &&& d.updated_at is None
    &&& d.findings@.len() == 0
}

fn scan_result_copy(p: &ScanResultMessage) -> (res: ScanResultDto)
    ensures
        scan_result_dto_of(*p, res),
{
    ScanResultDto {
        ip: p.ip.clone(),
        port: p.port,
        protocol: p.protocol.clone(),
        state: p.state.clone(),
        service: p.service.clone(),
        tool: p.tool.clone(),
        timestamp: p.timestamp.clone(),
    }
}

/// A task message as shown to the user.
pub fn task_from_proto(p: TaskMessage) -> (res: TaskDto)
    ensures
        task_dto_of(p, res),
{
    let ghost p0 = p;
    let created_at = ts_to_rfc3339(p.created_at);
    let started_at = ts_to_rfc3339(p.started_at);
    let finished_at = ts_to_rfc3339(p.finished_at);
    let workflow = workflow_from_proto(p.workflow);
    let mut results: Vec<ScanResultDto> = Vec::new();
    let mut i: usize = 0;
    while i < p.results.len()
        invariant
            p == p0,
            i <= p.results@.len(),
            results@.len() == i,
            forall|k: int| 0 <= k < i ==> scan_result_dto_of(p.results@[k], #[trigger] results@[k]),
        decreases p.results@.len() - i,
    {
        results.push(scan_result_copy(&p.results[i]));
        i = i + 1;
    }
    let description = if p.description.as_str().is_empty() {
        None
    } else {
        Some(p.description)
    };
    let targets = if p.targets.len() == 0 {
        None
    } else {
        Some(p.targets)
    };
    TaskDto {
        id: p.id,
        name: p.name,
        description,
        targets,
        status: p.status,
        exit_code: None,
        error_message: None,
        progress: p.progress,
        created_at,
        updated_at: None,
        started_at,
        finished_at,
        workflow,
        results,
        findings: Vec::new(),
    }
}

/// An event as shown: progress, output, a task snapshot or an error, with
/// times as RFC 3339 texts; an event that carries nothing is not shown.
pub open spec fn event_dto_of(p: TaskEventMessage, d: Option<TaskEventDto>) -> bool {
    match p.ev {
        Some(TaskEventBody::Progress { percent, message, ts }) => d matches Some(
            TaskEventDto::Progress(x),
        ) && x.percent == percent && x.message == message && opt_text(x.ts) == ts_text(ts),
        Some(TaskEventBody::Log { subtask, text, is_stderr, offset, ts }) => d matches Some(
            TaskEventDto::Log(x),
        ) && x.subtask == subtask && x.text == text && x.is_stderr == is_stderr && x.offset == offset
            && opt_text(x.ts) == ts_text(ts),
        Some(TaskEventBody::TaskSnapshot(t)) => d matches Some(TaskEventDto::TaskSnapshot(x))
            && task_dto_of(t, x),
        Some(TaskEventBody::Error { message }) => d matches Some(TaskEventDto::Error(x))
            && x.message == message,
        None => d is None,
    }
}

/// An event message as shown to the user, if it carries anything.
pub fn task_event_from_proto(p: TaskEventMessage) -> (res: Option<TaskEventDto>)
    ensures
        event_dto_of(p, res),
{
    match p.ev {
        Some(TaskEventBody::Progress { percent, message, ts }) => Some(
            TaskEventDto::Progress(ProgressDto { percent, message, ts: ts_to_rfc3339(ts) }),
        ),
        Some(TaskEventBody::Log { subtask, text, is_stderr, offset, ts }) => Some(
            TaskEventDto::Log(LogChunkDto { subtask, text, is_stderr, offset, ts: ts_to_rfc3339(ts) }),
        ),
        Some(TaskEventBody::TaskSnapshot(t)) => Some(TaskEventDto::TaskSnapshot(task_from_proto(t))),
        Some(TaskEventBody::Error { message }) => Some(TaskEventDto::Error(ErrorDto { message })),
        None => None,
    }
}

// ---------------------------------------------------------------------------
// Remembered servers
// ---------------------------------------------------------------------------

/// A server the client remembers. An empty id and a zero creation time
/// mean "not given".
#[derive(Debug, Clone)]
pub struct BackendRecord {
    pub id: String,
    pub name: String,
    pub address: String,
    pub description: Option<String>,
    pub use_tls: bool,
    pub created_at: i64,
}

/// Position of the first record named `name`.
pub open spec fn first_named(v: Seq<BackendRecord>, name: Seq<char>) -> Option<int>
    decreases v.len(),
{
    if v.len() == 0 {
        None
    } else if v[0].name@ == name {
        Some(0)
    } else {
        match first_named(v.drop_first(), name) {
            Some(i) => Some(i + 1),
            None => None,
        }
    }
}

proof fn lemma_first_named(v: Seq<BackendRecord>, name: Seq<char>)
    ensures
        first_named(v, name) matches Some(i) ==> 0 <= i < v.len() && v[i].name@ == name,
    decreases v.len(),
{
    if v.len() > 0 {
        lemma_first_named(v.drop_first(), name);
    }
}

/// A record with what it leaves out taken from the first remembered record
/// of the same name: id, creation time, description, and TLS when it does
/// not ask for it.
pub open spec fn filled_from(existing: Seq<BackendRecord>, r: BackendRecord) -> BackendRecord {
    match first_named(existing, r.name@) {
        Some(i) => {
            let e = existing[i];
            BackendRecord {
                id: if r.id@.len() == 0 { e.id } else { r.id },
                created_at: if r.created_at == 0 { e.created_at } else { r.created_at },
                description: if r.description is None { e.description } else { r.description },
                use_tls: r.use_tls || e.use_tls,
                ..r
            }
        },
        None => r,
    }
}

/// A record with a new id and creation time where it still has none.
pub open spec fn completed_with(r: BackendRecord, fresh_id: String, now: i64) -> BackendRecord {
    BackendRecord {
        id: if r.id@.len() == 0 { fresh_id } else { r.id },
        created_at: if r.created_at == 0 { now } else { r.created_at },
        ..r
    }
}

/// The records other than those with this name and id, in order.
pub open spec fn without_record(v: Seq<BackendRecord>, name: Seq<char>, id: Seq<char>) -> Seq<BackendRecord>
    decreases v.len(),
{
    if v.len() == 0 {
        Seq::empty()
    } else {
        let rest = without_record(v.drop_last(), name, id);
        if v.last().name@ == name && v.last().id@ == id {
            rest
        } else {
            rest.push(v.last())
        }
    }
}

/// The remembered list after saving a record: the record, completed from
/// an earlier one of its name and then with `fresh_id` and `now` where it
/// still lacks them, replaces those of its name and id and goes last.
pub open spec fn saved_list(existing: Seq<BackendRecord>, r: BackendRecord, fresh_id: String, now: i64) -> Seq<BackendRecord> {
    let c = completed_with(filled_from(existing, r), fresh_id, now);
    without_record(existing, c.name@, c.id@).push(c)
}

fn copy_record(r: &BackendRecord) -> (res: BackendRecord)
    ensures
        res == *r,
{
    BackendRecord {
        id: r.id.clone(),
        name: r.name.clone(),
        address: r.address.clone(),
        description: match &r.description {
            Some(d) => Some(d.clone()),
            None => None,
        },
        use_tls: r.use_tls,
        created_at: r.created_at,
    }
}

fn find_named(v: &Vec<BackendRecord>, name: &String) -> (res: Option<usize>)
    ensures
        match res {
            Some(i) => first_named(v@, name@) == Some(i as int),
            None => first_named(v@, name@) is None,
        },
{
    let mut i: usize = 0;
    assert(v@.skip(0) =~= v@);
    while i < v.len()
        invariant
            i <= v@.len(),
            first_named(v@, name@) == match first_named(v@.skip(i as int), name@) {
                Some(k) => Some(k + i),
                None => None,
            },
        decreases v@.len() - i,
    {
        assert(v@.skip(i as int)[0] == v@[i as int]);
        assert(v@.skip(i as int).drop_first() =~= v@.skip(i + 1));
        if v[i].name == *name {
            return Some(i);
        }
        i = i + 1;
    }
    None
}

/// The record as saved: what it leaves out is taken from the first
/// remembered record of its name.
pub fn fill_from_existing(existing: &Vec<BackendRecord>, record: BackendRecord) -> (res: BackendRecord)
    ensures
        res == filled_from(existing@, record),
{
    let mut r = record;
    match find_named(existing, &r.name) {
        Some(i) => {
            proof {
                lemma_first_named(existing@, record.name@);
            }
            let e = &existing[i];
            if r.id.as_str().is_empty() {
                r.id = e.id.clone();
            }
            if r.created_at == 0 {
                r.created_at = e.created_at;
            }
            if r.description.is_none() {
                r.description = match &e.description {
                    Some(d) => Some(d.clone()),
                    None => None,
                };
            }
            if !r.use_tls {
                r.use_tls = e.use_tls;
            }
        },
        None => {},
    }
    r
}

/// The remembered list after saving a record, with `fresh_id` and `now`
/// used where the record still has no id or creation time.
pub fn saved_backends(existing: Vec<BackendRecord>, record: BackendRecord, fresh_id: String, now: i64) -> (res: Vec<BackendRecord>)
    ensures
        res@ == saved_list(existing@, record, fresh_id, now),
{
    let f = fill_from_existing(&existing, record);
    let mut c = f;
    if c.id.as_str().is_empty() {
        c.id = fresh_id;
    }
    if c.created_at == 0 {
        c.created_at = now;
    }
    assert(c == completed_with(filled_from(existing@, record), fresh_id, now));
    let mut out: Vec<BackendRecord> = Vec::new();
    let mut i: usize = 0;
    assert(existing@.take(0) =~= Seq::<BackendRecord>::empty());
    while i < existing.len()
        invariant
            i <= existing@.len(),
            out@ == without_record(existing@.take(i as int), c.name@, c.id@),
        decreases existing@.len() - i,
    {
        proof {
            assert(existing@.take(i + 1).drop_last() =~= existing@.take(i as int));
            assert(existing@.take(i + 1).last() == existing@[i as int]);
        }
        let e = &existing[i];
        if !(e.name == c.name && e.id == c.id) {
            out.push(copy_record(e));
        }
        i = i + 1;
    }
    assert(existing@.take(i as int) =~= existing@);
    out.push(c);
    out
}

/// The remembered list after saving a record; a record that still has no
/// id gets a new random one, and one with no creation time gets the
/// current time.
pub fn save_backend_record(existing: Vec<BackendRecord>, record: BackendRecord) -> (res: Vec<BackendRecord>)
    ensures
        exists|fresh_id: String, now: i64|
            res@ == saved_list(existing@, record, fresh_id, now) && (filled_from(existing@, record).id@.len()
                == 0 ==> is_uuid_text(fresh_id@)),
{
    let f = fill_from_existing(&existing, copy_record(&record));
    let fresh_id = if f.id.as_str().is_empty() {
        new_uuid_text()
    } else {
        String::new()
    };
    let now = if f.created_at == 0 {
        now_millis()
    } else {
        0
    };
    let res = saved_backends(existing, record, fresh_id, now);
    assert(res@ == saved_list(existing@, record, fresh_id, now));
    res
}

/// The records that are neither identified nor named by `identifier`.
pub open spec fn remaining_after_delete(v: Seq<BackendRecord>, identifier: Seq<char>) -> Seq<BackendRecord>
    decreases v.len(),
{
    if v.len() == 0 {
        Seq::empty()
    } else {
        let rest = remaining_after_delete(v.drop_last(), identifier);
        if v.last().id@ == identifier || v.last().name@ == identifier {
            rest
        } else {
            rest.push(v.last())
        }
    }
}

/// The remembered list after forgetting the servers whose id or name is
/// `identifier`.
pub fn delete_backend_record(existing: &Vec<BackendRecord>, identifier: &str) -> (res: Vec<BackendRecord>)
    ensures
        res@ == remaining_after_delete(existing@, identifier@),
{
    let ident = crate::text::owned(identifier);
    let mut out: Vec<BackendRecord> = Vec::new();
    let mut i: usize = 0;
    assert(existing@.take(0) =~= Seq::<BackendRecord>::empty());
    while i < existing.len()
        invariant
            i <= existing@.len(),
            ident@ == identifier@,
            out@ == remaining_after_delete(existing@.take(i as int), identifier@),
        decreases existing@.len() - i,
    {
        proof {
            assert(existing@.take(i + 1).drop_last() =~= existing@.take(i as int));
            assert(existing@.take(i + 1).last() == existing@[i as int]);
        }
        let e = &existing[i];
        if !(e.id == ident || e.name == ident) {
            out.push(copy_record(e));
        }
        i = i + 1;
    }
    assert(existing@.take(i as int) =~= existing@);
    out
}

proof fn lemma_without_record(v: Seq<BackendRecord>, name: Seq<char>, id: Seq<char>)
    ensures
        forall|k: int|
            0 <= k < without_record(v, name, id).len() ==> !((#[trigger] without_record(v, name, id)[k]).name@
                == name && without_record(v, name, id)[k].id@ == id) && v.contains(
                without_record(v, name, id)[k],
            ),
        forall|k: int|
            0 <= k < v.len() && !((#[trigger] v[k]).name@ == name && v[k].id@ == id) ==> without_record(
                v,
                name,
                id,
            ).contains(v[k]),
    decreases v.len(),
{
    if v.len() > 0 {
        let p = v.drop_last();
        lemma_without_record(p, name, id);
        let w = without_record(p, name, id);
        assert forall|k: int|
            0 <= k < without_record(v, name, id).len() implies v.contains(#[trigger] without_record(v, name, id)[k]) by {
            if k < w.len() {
                let j = choose|j: int| 0 <= j < p.len() && p[j] == w[k];
                assert(v[j] == p[j]);
            } else {
                assert(v[v.len() - 1] == v.last());
            }
        }
        assert forall|k: int|
            0 <= k < v.len() && !((#[trigger] v[k]).name@ == name && v[k].id@ == id) implies without_record(
                v,
                name,
                id,
            ).contains(v[k]) by {
            if k < p.len() {
                assert(p[k] == v[k]);
                let j = choose|j: int| 0 <= j < w.len() && w[j] == p[k];
                if !(v.last().name@ == name && v.last().id@ == id) {
                    assert(w.push(v.last())[j] == w[j]);
                }
            } else {
                assert(w.push(v.last())[w.len() as int] == v.last());
            }
        }
    }
}

/// Saving a record puts it, completed, last; no other remembered record has
/// both its name and its id, and every earlier record that had not both is
/// still remembered.
pub proof fn law_saved_record_replaces_its_twin(
    existing: Seq<BackendRecord>,
    r: BackendRecord,
    fresh_id: String,
    now: i64,
)
    ensures
        ({
            let s = saved_list(existing, r, fresh_id, now);
            let c = completed_with(filled_from(existing, r), fresh_id, now);
            &&& s.len() > 0
            &&& s.last() == c
            &&& forall|k: int| 0 <= k < s.len() - 1 ==> !((#[trigger] s[k]).name@ == c.name@ && s[k].id@ == c.id@)
            &&& forall|k: int|
                0 <= k < existing.len() && !((#[trigger] existing[k]).name@ == c.name@ && existing[k].id@
                    == c.id@) ==> s.contains(existing[k])
        }),
{
    let c = completed_with(filled_from(existing, r), fresh_id, now);
    let w = without_record(existing, c.name@, c.id@);
    lemma_without_record(existing, c.name@, c.id@);
    let s = w.push(c);
    assert forall|k: int| 0 <= k < s.len() - 1 implies !((#[trigger] s[k]).name@ == c.name@ && s[k].id@ == c.id@) by {
        assert(s[k] == w[k]);
    }
    assert forall|k: int|
        0 <= k < existing.len() && !((#[trigger] existing[k]).name@ == c.name@ && existing[k].id@ == c.id@) implies s.contains(
        existing[k],
    ) by {
        let j = choose|j: int| 0 <= j < w.len() && w[j] == existing[k];
        assert(s[j] == w[j]);
    }
}

/// The saved entry keeps the given name and address; what it leaves out
/// comes from the first remembered entry of its name (id, creation time,
/// description, and TLS when it does not ask for it); an id or creation
/// time still missing then is the fresh one, so the entry always has both
/// when the fresh ones are given.
pub proof fn law_saved_entry_completed(existing: Seq<BackendRecord>, r: BackendRecord, fresh_id: String, now: i64)
    ensures
        ({
            let c = saved_list(existing, r, fresh_id, now).last();
            &&& c.name == r.name
            &&& c.address == r.address
            &&& r.id@.len() > 0 ==> c.id == r.id
            &&& r.created_at != 0 ==> c.created_at == r.created_at
            &&& (r.use_tls ==> c.use_tls)
            &&& match first_named(existing, r.name@) {
                Some(i) => {
                    &&& (r.id@.len() == 0 && existing[i].id@.len() > 0 ==> c.id == existing[i].id)
                    &&& (r.created_at == 0 && existing[i].created_at != 0 ==> c.created_at
                        == existing[i].created_at)
                    &&& (r.description is None ==> c.description == existing[i].description)
                    &&& c.use_tls == (r.use_tls || existing[i].use_tls)
                },
                None => c.description == r.description && c.use_tls == r.use_tls,
            }
            &&& fresh_id@.len() > 0 ==> c.id@.len() > 0
            &&& now != 0 ==> c.created_at != 0
        }),
{
}

proof fn lemma_remaining_after_delete(v: Seq<BackendRecord>, identifier: Seq<char>)
    ensures
        forall|k: int|
            0 <= k < remaining_after_delete(v, identifier).len() ==> (#[trigger] remaining_after_delete(
                v,
                identifier,
            )[k]).id@ != identifier && remaining_after_delete(v, identifier)[k].name@ != identifier,
        forall|k: int|
            0 <= k < v.len() && (#[trigger] v[k]).id@ != identifier && v[k].name@ != identifier
                ==> remaining_after_delete(v, identifier).contains(v[k]),
    decreases v.len(),
{
    if v.len() > 0 {
        let p = v.drop_last();
        lemma_remaining_after_delete(p, identifier);
        let w = remaining_after_delete(p, identifier);
        assert forall|k: int|
            0 <= k < v.len() && (#[trigger] v[k]).id@ != identifier && v[k].name@ != identifier
                implies remaining_after_delete(v, identifier).contains(v[k]) by {
            if k < p.len() {
                assert(p[k] == v[k]);
                let j = choose|j: int| 0 <= j < w.len() && w[j] == p[k];
                assert(w.push(v.last())[j] == w[j]);
            } else {
                assert(w.push(v.last())[w.len() as int] == v.last());
            }
        }
    }
}

/// Forgetting by an identifier leaves no record whose id or name is that
/// identifier, and keeps every other record.
pub proof fn law_deleted_identifier_is_gone(existing: Seq<BackendRecord>, identifier: Seq<char>)
    ensures
        forall|k: int|
            0 <= k < remaining_after_delete(existing, identifier).len() ==> (#[trigger] remaining_after_delete(
                existing,
                identifier,
            )[k]).id@ != identifier && remaining_after_delete(existing, identifier)[k].name@ != identifier,
        forall|k: int|
            0 <= k < existing.len() && (#[trigger] existing[k]).id@ != identifier && existing[k].name@
                != identifier ==> remaining_after_delete(existing, identifier).contains(existing[k]),
{
    lemma_remaining_after_delete(existing, identifier);
}

/// `s` with ASCII letters and digits kept and anything else written `_`.
pub open spec fn event_segment(s: Seq<char>) -> Seq<char> {
    s.map_values(|c: char| if crate::text::is_ascii_alnum(c) { c } else { '_' })
}

/// An event name segment: ASCII letters and digits kept, anything else
/// written `_`.
pub fn sanitize_event_segment(input: &str) -> (res: String)
    ensures
        res@ == event_segment(input@),
{
    let cs = crate::text::chars_of(input);
    let mut out: Vec<char> = Vec::new();
    let mut i: usize = 0;
    while i < cs.len()
        invariant
            i <= cs@.len(),
            cs@ == input@,
            out@ == cs@.take(i as int).map_values(|c: char| if crate::text::is_ascii_alnum(c) { c } else { '_' }),
        decreases cs@.len() - i,
    {
        let c = cs[i];
        let keep = ('a' <= c && c <= 'z') || ('A' <= c && c <= 'Z') || ('0' <= c && c <= '9');
        out.push(if keep { c } else { '_' });
        proof {
            assert(cs@.take(i + 1) =~= cs@.take(i as int).push(c));
        }
        i = i + 1;
    }
    assert(cs@.take(i as int) =~= cs@);
    crate::text::string_of(out.as_slice())
}

/// The address a connection is opened to: the address itself where it
/// already names `http://` or `https://`, else the address behind
/// `https://` when TLS is asked for and behind `http://` when it is not.
pub open spec fn channel_uri_of(address: Seq<char>, use_tls: bool) -> Seq<char> {
    if crate::text::has_prefix(address, "http://"@) || crate::text::has_prefix(address, "https://"@) {
        address
    } else if use_tls {
        "https://"@ + address
    } else {
        "http://"@ + address
    }
}

/// The address a connection to a server is opened to.
pub fn channel_uri(address: &str, use_tls: bool) -> (res: String)
    ensures
        res@ == channel_uri_of(address@, use_tls),
{
    let cs = crate::text::chars_of(address);
    if crate::text::starts_with_str(cs.as_slice(), "http://") || crate::text::starts_with_str(
        cs.as_slice(),
        "https://",
    ) {
        crate::text::owned(address)
    } else if use_tls {
        crate::text::join_str("https://", address)
    } else {
        crate::text::join_str("http://", address)
    }
}

/// The name under which the events of task `id` on the server at `address`
/// are handed to the window: `task-event://`, the address with every
/// character but ASCII letters and digits written `_`, `::` and the id.
pub fn event_topic(address: &str, id: &str) -> (res: String)
    ensures
        res@ == "task-event://"@ + event_segment(address@) + "::"@ + id@,
{
    let segment = sanitize_event_segment(address);
    let head = crate::text::join_str("task-event://", segment.as_str());
    let with_sep = crate::text::join_str(head.as_str(), "::");
    crate::text::join_str(with_sep.as_str(), id)
}

/// The request sent for what the user filled in: the name, the description
/// and targets or empty ones where none was given, and the workflow's steps
/// in order.
pub open spec fn create_request_of(input: CreateTaskDto, req: crate::tasks::CreateTaskRequest) -> bool {
    &&& req.name@ == input.name@
    &&& req.description@ == match input.description {
        Some(d) => d@,
        None => Seq::<char>::empty(),
    }
    &&& req.targets@ == match input.targets {
        Some(t) => t@,
        None => Seq::<String>::empty(),
    }
    &&& req.workflow is Some
    &&& req.workflow->0.steps@.len() == input.workflow.steps@.len()
    &&& forall|k: int|
        0 <= k < input.workflow.steps@.len() ==> (#[trigger] req.workflow->0.steps@[k]).step_type
            == input.workflow.steps@[k].step_type && req.workflow->0.steps@[k].tool
            == input.workflow.steps@[k].tool
}

/// The request that creates the task the user filled in.
pub fn create_task_request(input: CreateTaskDto) -> (res: crate::tasks::CreateTaskRequest)
    ensures
        create_request_of(input, res),
{
    let mut steps: Vec<crate::domain::WorkflowStep> = Vec::new();
    let mut i: usize = 0;
    while i < input.workflow.steps.len()
        invariant
            i <= input.workflow.steps@.len(),
            steps@.len() == i,
            forall|k: int|
                0 <= k < i ==> (#[trigger] steps@[k]).step_type == input.workflow.steps@[k].step_type
                    && steps@[k].tool == input.workflow.steps@[k].tool,
        decreases input.workflow.steps@.len() - i,
    {
        let s = &input.workflow.steps[i];
        steps.push(crate::domain::WorkflowStep { step_type: s.step_type, tool: s.tool.clone() });
        i = i + 1;
    }
    let description = match input.description {
        Some(d) => d,
        None => String::new(),
    };
    let targets = match input.targets {
        Some(t) => t,
        None => Vec::new(),
    };
    crate::tasks::CreateTaskRequest {
        name: input.name,
        description,
        targets,
        workflow: Some(crate::domain::Workflow { steps }),
    }
}

/// The sync request sent for what the user asked: the local directory and
/// the repository, empty where not given, and whether to forget the local
/// directory, no where not said.
pub fn sync_templates_request(
    local_path: Option<String>,
    repo_url: Option<String>,
    clear_local_path: Option<bool>,
) -> (res: crate::wire::SyncTemplatesRequest)
    ensures
        res.local_path@ == match local_path {
            Some(p) => p@,
            None => Seq::<char>::empty(),
        },
        res.repo_url@ == match repo_url {
            Some(u) => u@,
            None => Seq::<char>::empty(),
        },
        res.clear_local_path == match clear_local_path {
            Some(b) => b,
            None => false,
        },
{
    let local_path = match local_path {
        Some(p) => p,
        None => String::new(),
    };
    let repo_url = match repo_url {
        Some(u) => u,
        None => String::new(),
    };
    let clear_local_path = match clear_local_path {
        Some(b) => b,
        None => false,
    };
    crate::wire::SyncTemplatesRequest { local_path, repo_url, clear_local_path }
}

/// The templates' status shown to the user: the same fields.
pub open spec fn templates_status_dto_of(
    s: crate::templates::NucleiTemplatesStatus,
    d: NucleiTemplatesStatusDto,
) -> bool {
    &&& d.source == s.source
    &&& d.configured_local_path == s.configured_local_path
    &&& d.effective_path == s.effective_path
    &&& d.repo_url == s.repo_url
    &&& d.cache_path == s.cache_path
    &&& d.last_sync_unix == s.last_sync_unix
    &&& d.last_error == s.last_error
    &&& d.sync_supported == s.sync_supported
}

/// What the user is shown of the server's answer to a sync: the status it
/// carries, or an error where it carries none.
pub fn templates_status_from_response(resp: crate::wire::SyncTemplatesResponse) -> (res: Result<
    NucleiTemplatesStatusDto,
    CommandError,
>)
    ensures
        match resp.status {
            Some(s) => res matches Ok(d) && templates_status_dto_of(s, d),
            None => res matches Err(CommandError::Anyhow(m))
                && m@ == "server returned empty nuclei templates status"@,
        },
{
    match resp.status {
        Some(s) => Ok(
            NucleiTemplatesStatusDto {
                source: s.source,
                configured_local_path: s.configured_local_path,
                effective_path: s.effective_path,
                repo_url: s.repo_url,
                cache_path: s.cache_path,
                last_sync_unix: s.last_sync_unix,
                last_error: s.last_error,
                sync_supported: s.sync_supported,
            },
        ),
        None => Err(
            CommandError::Anyhow(crate::text::owned("server returned empty nuclei templates status")),
        ),
    }
}

/// The file the remembered servers are kept in: `backends.json` in the
/// `SuperScanner` directory of the user's configuration directory, or in
/// the working directory when there is none.
pub fn backends_file(config_dir: Option<&str>) -> (res: String)
    ensures
        res@ == match config_dir {
            Some(d) => crate::text::path_join(crate::text::path_join(d@, "SuperScanner"@), "backends.json"@),
            None => crate::text::path_join("."@, "backends.json"@),
        },
{
    match config_dir {
        Some(d) => {
            let dir = crate::text::path_join_exec(d, "SuperScanner");
            crate::text::path_join_exec(dir.as_str(), "backends.json")
        },
        None => crate::text::path_join_exec(".", "backends.json"),
    }
}

/// A connection always goes to an `http://` or `https://` address: an
/// address that names one is kept, any other gets `https://` in front when
/// TLS is asked for and `http://` when it is not.
pub proof fn law_channel_uri(address: Seq<char>, use_tls: bool)
    ensures
        crate::text::has_prefix(channel_uri_of(address, use_tls), "http://"@) || crate::text::has_prefix(
            channel_uri_of(address, use_tls),
            "https://"@,
        ),
        !(crate::text::has_prefix(address, "http://"@) || crate::text::has_prefix(address, "https://"@))
            ==> channel_uri_of(address, use_tls) == (if use_tls {
            "https://"@
        } else {
            "http://"@
        }) + address,
{
    let u = channel_uri_of(address, use_tls);
    if !(crate::text::has_prefix(address, "http://"@) || crate::text::has_prefix(address, "https://"@)) {
        if use_tls {
            assert(u.take("https://"@.len() as int) =~= "https://"@);
        } else {
            assert(u.take("http://"@.len() as int) =~= "http://"@);
        }
    }
}

/// An event name segment keeps the address's length, holds only ASCII
/// letters, digits and `_`, keeps every letter and digit where it was and
/// puts `_` in place of anything else.
pub proof fn law_event_segment(s: Seq<char>)
    ensures
        event_segment(s).len() == s.len(),
        forall|k: int|
            0 <= k < s.len() ==> (crate::text::is_ascii_alnum(#[trigger] event_segment(s)[k]) || event_segment(
                s,
            )[k] == '_'),
        forall|k: int|
            0 <= k < s.len() ==> #[trigger] event_segment(s)[k] == if crate::text::is_ascii_alnum(s[k]) {
                s[k]
            } else {
                '_'
            },
{
}

} // verus!
