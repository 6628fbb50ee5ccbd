//! Task requests: validating a new task, the checks before starting one, and
//! the errors the service answers with.
use vstd::prelude::*;
use crate::domain::{DomainPipelineState, Workflow, WorkflowStep};
use crate::records::{status_code, CommandSpec, TaskMetadata, TaskStatus};
use crate::text::{chars_of, int_text, int_text_exec, join_str, string_of, trim, trim_str};

verus! {

// ---------------------------------------------------------------------------
// Errors
// ---------------------------------------------------------------------------

/// An error of the scanning service, with the text of its cause.
#[derive(Debug, Clone)]
pub enum AppError {
    Config(String),
    Database(String),
    Io(String),
    Task(String),
    Tls(String),
    Serialization(String),
    Unknown(String),
}

/// The text an error shows: its kind, then its cause.
pub open spec fn app_error_text(e: AppError) -> Seq<char> {
    match e {
        AppError::Config(s) => "配置错误: "@ + s@,
        AppError::Database(s) => "数据库错误: "@ + s@,
        AppError::Io(s) => "IO 错误: "@ + s@,
        AppError::Task(s) => "任务错误: "@ + s@,
        AppError::Tls(s) => "TLS 错误: "@ + s@,
        AppError::Serialization(s) => "序列化错误: "@ + s@,
        AppError::Unknown(s) => "未知错误: "@ + s@,
    }
}

impl AppError {
    /// The text of the error.
    pub fn message(&self) -> (res: String)
        ensures
            res@ == app_error_text(*self),
    {
        match self {
            AppError::Config(s) => join_str("配置错误: ", s.as_str()),
            AppError::Database(s) => join_str("数据库错误: ", s.as_str()),
            AppError::Io(s) => join_str("IO 错误: ", s.as_str()),
            AppError::Task(s) => join_str("任务错误: ", s.as_str()),
            AppError::Tls(s) => join_str("TLS 错误: ", s.as_str()),
            AppError::Serialization(s) => join_str("序列化错误: ", s.as_str()),
            AppError::Unknown(s) => join_str("未知错误: ", s.as_str()),
        }
    }
}

/// The kind of a service answer that is not a success.
#[derive(Debug, Clone, Copy, PartialEq, Eq, Structural)]
pub enum RpcCode {
    InvalidArgument,
    NotFound,
    FailedPrecondition,
    Internal,
}

/// A refusal: its kind and message.
#[derive(Debug, Clone)]
pub struct RpcStatus {
    pub code: RpcCode,
    pub message: String,
}

/// The refusal an error becomes: configuration errors are invalid
/// arguments, every other error is internal; database, I/O, task and
/// configuration errors keep their text, the others show as internal errors.
pub open spec fn status_of_error(e: AppError) -> (RpcCode, Seq<char>) {
    match e {
        AppError::Database(s) => (RpcCode::Internal, "数据库错误: "@ + s@),
        AppError::Io(s) => (RpcCode::Internal, "IO 错误: "@ + s@),
        AppError::Task(s) => (RpcCode::Internal, "任务错误: "@ + s@),
        AppError::Config(s) => (RpcCode::InvalidArgument, "配置错误: "@ + s@),
        _ => (RpcCode::Internal, "内部错误: "@ + app_error_text(e)),
    }
}

/// The refusal an error becomes.
pub fn status_from_error(e: &AppError) -> (res: RpcStatus)
    ensures
        (res.code, res.message@) == status_of_error(*e),
{
    match e {
        AppError::Database(s) => RpcStatus { code: RpcCode::Internal, message: join_str("数据库错误: ", s.as_str()) },
        AppError::Io(s) => RpcStatus { code: RpcCode::Internal, message: join_str("IO 错误: ", s.as_str()) },
        AppError::Task(s) => RpcStatus { code: RpcCode::Internal, message: join_str("任务错误: ", s.as_str()) },
        AppError::Config(s) => RpcStatus {
            code: RpcCode::InvalidArgument,
            message: join_str("配置错误: ", s.as_str()),
        },
        _ => {
            let m = e.message();
            RpcStatus { code: RpcCode::Internal, message: join_str("内部错误: ", m.as_str()) }
        },
    }
}

fn refusal(code: RpcCode, message: &str) -> (res: RpcStatus)
    ensures
        res.code == code,
        res.message@ == message@,
{
    RpcStatus { code, message: crate::text::owned(message) }
}

// ---------------------------------------------------------------------------
// Ordering of texts
// ---------------------------------------------------------------------------

/// `a` comes before `b` in the order of `String`'s `Ord`: character by
/// character, a proper prefix first.
pub open spec fn text_lt(a: Seq<char>, b: Seq<char>) -> bool
    decreases a.len(),
{
    if a.len() == 0 {
        b.len() > 0
    } else if b.len() == 0 {
        false
    } else if a[0] != b[0] {
        a[0] < b[0]
    } else {
        text_lt(a.drop_first(), b.drop_first())
    }
}

pub proof fn lemma_text_lt_irreflexive(a: Seq<char>)
    ensures
        !text_lt(a, a),
    decreases a.len(),
{
    if a.len() > 0 {
        lemma_text_lt_irreflexive(a.drop_first());
    }
}

pub proof fn lemma_text_lt_transitive(a: Seq<char>, b: Seq<char>, c: Seq<char>)
    requires
        text_lt(a, b),
        text_lt(b, c),
    ensures
        text_lt(a, c),
    decreases a.len(),
{
    if a.len() > 0 && b.len() > 0 && c.len() > 0 && a[0] == b[0] && b[0] == c[0] {
        lemma_text_lt_transitive(a.drop_first(), b.drop_first(), c.drop_first());
    }
}

pub proof fn lemma_text_lt_total(a: Seq<char>, b: Seq<char>)
    ensures
        a != b ==> text_lt(a, b) || text_lt(b, a),
    decreases a.len(),
{
    if a.len() > 0 && b.len() > 0 && a[0] == b[0] {
        lemma_text_lt_total(a.drop_first(), b.drop_first());
        if a.drop_first() == b.drop_first() {
            assert(a =~= seq![a[0]] + a.drop_first());
            assert(b =~= seq![b[0]] + b.drop_first());
        }
    } else if a.len() == 0 && b.len() == 0 {
        assert(a =~= b);
    }
}

/// Whether `a` comes before `b`.
pub fn text_less(a: &[char], b: &[char]) -> (res: bool)
    ensures
        res == text_lt(a@, b@),
{
    let mut i: usize = 0;
    assert(a@.skip(0) =~= a@);
    assert(b@.skip(0) =~= b@);
    while i < a.len() && i < b.len() && a[i] == b[i]
        invariant
            i <= a@.len(),
            i <= b@.len(),
            text_lt(a@, b@) == text_lt(a@.skip(i as int), b@.skip(i as int)),
        decreases a@.len() - i,
    {
        assert(a@.skip(i as int).drop_first() =~= a@.skip(i + 1));
        assert(b@.skip(i as int).drop_first() =~= b@.skip(i + 1));
        i = i + 1;
    }
    if i == a.len() {
        i < b.len()
    } else if i == b.len() {
        false
    } else {
        a[i] < b[i]
    }
}

/// Strictly increasing.
pub open spec fn strictly_sorted(v: Seq<Seq<char>>) -> bool {
    forall|i: int, j: int| 0 <= i < j < v.len() ==> text_lt(#[trigger] v[i], #[trigger] v[j])
}

/// The distinct texts of `v`, in increasing order (a sort followed by the
/// removal of repeats).
pub fn sorted_distinct(v: &[String]) -> (res: Vec<String>)
    ensures
        strictly_sorted(crate::text::views(res@)),
        forall|x: Seq<char>|
            crate::text::views(res@).contains(x) <==> crate::text::views(v@).contains(x),
{
    let ghost vv = crate::text::views(v@);
    let mut out: Vec<String> = Vec::new();
    let mut i: usize = 0;
    while i < v.len()
        invariant
            i <= v@.len(),
            vv == crate::text::views(v@),
            strictly_sorted(crate::text::views(out@)),
            forall|x: Seq<char>|
                crate::text::views(out@).contains(x) <==> vv.take(i as int).contains(x),
        decreases v@.len() - i,
    {
        let t = chars_of(v[i].as_str());
        let ghost ov = crate::text::views(out@);
        let mut p: usize = 0;
        while p < out.len() && text_less(chars_of(out[p].as_str()).as_slice(), t.as_slice())
            invariant
                p <= out@.len(),
                ov == crate::text::views(out@),
                forall|k: int| 0 <= k < p ==> text_lt(#[trigger] ov[k], t@),
            decreases out@.len() - p,
        {
            p = p + 1;
        }
        let present = p < out.len() && crate::text::chars_eq(chars_of(out[p].as_str()).as_slice(), t.as_slice());
        proof {
            assert(vv.take(i + 1) =~= vv.take(i as int).push(t@));
            assert(vv[i as int] == t@);
        }
        if !present {
            proof {
                if p < ov.len() {
                    assert(!text_lt(ov[p as int], t@));
                    lemma_text_lt_total(ov[p as int], t@);
                }
            }
            out.insert(p, v[i].clone());
            proof {
                let nv = crate::text::views(out@);
                assert(nv =~= ov.insert(p as int, t@));
                assert forall|a: int, b: int| 0 <= a < b < nv.len() implies text_lt(
                    #[trigger] nv[a],
                    #[trigger] nv[b],
                ) by {
                    if b < p {
                        assert(nv[a] == ov[a] && nv[b] == ov[b]);
                    } else if b == p {
                        assert(nv[a] == ov[a]);
                    } else if a == p {
                        assert(nv[b] == ov[b - 1]);
                        if b - 1 > p {
                            assert(text_lt(ov[p as int], ov[b - 1]));
                            lemma_text_lt_transitive(t@, ov[p as int], ov[b - 1]);
                        }
                    } else if a < p {
                        assert(nv[a] == ov[a] && nv[b] == ov[b - 1]);
                        assert(text_lt(ov[a], t@));
                        if b - 1 >= p {
                            if b - 1 == p as int {
                                lemma_text_lt_transitive(ov[a], t@, ov[b - 1]);
                            } else {
                                assert(text_lt(ov[a], ov[b - 1]));
                            }
                        }
                    } else {
                        assert(nv[a] == ov[a - 1] && nv[b] == ov[b - 1]);
                    }
                }
                assert forall|x: Seq<char>| nv.contains(x) <==> vv.take(i + 1).contains(x) by {
                    let tk = vv.take(i + 1);
                    let tp = vv.take(i as int);
                    if nv.contains(x) {
                        let k = choose|k: int| 0 <= k < nv.len() && nv[k] == x;
                        if k == p {
                            assert(tk[i as int] == x);
                        } else {
                            let k2 = if k < p { k } else { k - 1 };
                            assert(ov[k2] == x);
                            assert(ov.contains(x));
                            assert(tp.contains(x));
                            let k3 = choose|k3: int| 0 <= k3 < tp.len() && tp[k3] == x;
                            assert(tk[k3] == x);
                        }
                        assert(tk.contains(x));
                    }
                    if tk.contains(x) {
                        let k = choose|k: int| 0 <= k < tk.len() && tk[k] == x;
                        if k == i {
                            assert(nv[p as int] == x);
                        } else {
                            assert(tp[k] == x);
                            assert(tp.contains(x));
                            assert(ov.contains(x));
                            let k2 = choose|k2: int| 0 <= k2 < ov.len() && ov[k2] == x;
                            if k2 < p {
                                assert(nv[k2] == x);
                            } else {
                                assert(nv[k2 + 1] == x);
                            }
                        }
                        assert(nv.contains(x));
                    }
                }
            }
        } else {
            proof {
                assert(ov[p as int] == t@);
                assert forall|x: Seq<char>| ov.contains(x) <==> vv.take(i + 1).contains(x) by {
                    if x == t@ {
                        assert(ov[p as int] == x);
                    }
                    let tk = vv.take(i + 1);
                    if tk.contains(x) {
                        let k = choose|k: int| 0 <= k < tk.len() && tk[k] == x;
                        if k < i {
                            assert(vv.take(i as int)[k] == x);
                        }
                    }
                    if vv.take(i as int).contains(x) {
                        let k = choose|k: int| 0 <= k < i && vv.take(i as int)[k] == x;
                        assert(tk[k] == x);
                    }
                }
            }
        }
        i = i + 1;
    }
    assert(vv.take(i as int) =~= vv);
    out
}

// ---------------------------------------------------------------------------
// Workflow steps
// ---------------------------------------------------------------------------

/// The command a workflow step runs: a built-in step by its type (1 port
/// scan, 2 httpx, 3 nuclei, 4 fscan; other types name none), any other step
/// by its tool.
pub open spec fn step_command(step_type: i32, tool: Seq<char>) -> Option<Seq<char>> {
    if tool == "builtin"@ {
        if step_type == 1 {
            Some("builtin_port_scan"@)
        } else if step_type == 2 {
            Some("httpx"@)
        } else if step_type == 3 {
            Some("nuclei"@)
        } else if step_type == 4 {
            Some("fscan"@)
        } else {
            None
        }
    } else {
        Some(tool)
    }
}

/// The command a workflow step runs, if it names one.
pub fn map_step_to_command_id(step_type: i32, tool: &str) -> (res: Option<String>)
    ensures
        match res {
            Some(c) => step_command(step_type, tool@) == Some(c@),
            None => step_command(step_type, tool@) is None,
        },
{
    let t = chars_of(tool);
    if crate::text::eq_str(t.as_slice(), "builtin") {
        match step_type {
            1 => Some(crate::text::owned("builtin_port_scan")),
            2 => Some(crate::text::owned("httpx")),
            3 => Some(crate::text::owned("nuclei")),
            4 => Some(crate::text::owned("fscan")),
            _ => None,
        }
    } else {
        Some(crate::text::owned(tool))
    }
}

/// The commands of a workflow's steps, in order, skipping steps that name
/// none.
pub open spec fn workflow_commands(steps: Seq<WorkflowStep>) -> Seq<Seq<char>>
    decreases steps.len(),
{
    if steps.len() == 0 {
        Seq::empty()
    } else {
        let rest = workflow_commands(steps.drop_last());
        match step_command(steps.last().step_type, steps.last().tool@) {
            Some(c) => rest.push(c),
            None => rest,
        }
    }
}

/// The commands of a workflow's steps, in order.
pub fn workflow_command_ids(workflow: &Workflow) -> (res: Vec<String>)
    ensures
        crate::text::views(res@) == workflow_commands(workflow.steps@),
{
    let ghost st = workflow.steps@;
    let mut out: Vec<String> = Vec::new();
    let mut i: usize = 0;
    while i < workflow.steps.len()
        invariant
            i <= st.len(),
            st == workflow.steps@,
            crate::text::views(out@) == workflow_commands(st.take(i as int)),
        decreases st.len() - i,
    {
        let step = &workflow.steps[i];
        proof {
            assert(st.take(i + 1).drop_last() =~= st.take(i as int));
            assert(st.take(i + 1).last() == st[i as int]);
        }
        match map_step_to_command_id(step.step_type, step.tool.as_str()) {
            Some(c) => {
                let ghost cv = c@;
                out.push(c);
                assert(crate::text::views(out@) =~= workflow_commands(st.take(i as int)).push(cv));
            },
            None => {},
        }
        i = i + 1;
    }
    assert(st.take(i as int) =~= st);
    out
}

// ---------------------------------------------------------------------------
// New tasks
// ---------------------------------------------------------------------------

/// Whether a text parses as an IP network (`ipnetwork::IpNetwork`); a plain
/// address parses as the network of that one address.
pub uninterp spec fn network_parses(text: Seq<char>) -> bool;

/// `str::parse::<ipnetwork::IpNetwork>()` succeeds. Whether it does depends
/// on the text alone. Without a `/` the crate parses the text as an IPv4,
/// then an IPv6 address, as `IpAddr` does, so every address is accepted.
#[verifier::external_body]
fn parses_as_network(text: &str) -> (res: bool)
    ensures
        res == network_parses(text@),
{
    text.parse::<ipnetwork::IpNetwork>().is_ok()
}

/// A request to create a task.
#[derive(Debug, Clone)]
pub struct CreateTaskRequest {
    pub name: String,
    pub description: String,
    pub targets: Vec<String>,
    pub workflow: Option<Workflow>,
}

/// Every target parses as an address or network.
pub open spec fn all_targets_parse(ts: Seq<Seq<char>>) -> bool {
    forall|u: Seq<char>| ts.contains(u) ==> network_parses(u)
}

/// `t` is the least target (in text order) that does not parse.
pub open spec fn is_least_invalid(ts: Seq<Seq<char>>, t: Seq<char>) -> bool {
    &&& ts.contains(t)
    &&& !network_parses(t)
    &&& forall|u: Seq<char>| ts.contains(u) && text_lt(u, t) ==> network_parses(u)
}

/// What is wrong with one step: it names no command, or its command is not
/// registered.
pub open spec fn step_problem(s: WorkflowStep, registered: Seq<Seq<char>>) -> Option<Seq<char>> {
    match step_command(s.step_type, s.tool@) {
        None => Some("无效的 workflow step: type="@ + int_text(s.step_type as int) + ", tool="@ + s.tool@),
        Some(c) => if registered.contains(c) {
            None
        } else {
            Some("未注册的扫描工具: "@ + c)
        },
    }
}

/// What is wrong with the first faulty step, if any.
pub open spec fn first_step_problem(steps: Seq<WorkflowStep>, registered: Seq<Seq<char>>) -> Option<Seq<char>>
    decreases steps.len(),
{
    if steps.len() == 0 {
        None
    } else {
        match step_problem(steps[0], registered) {
            Some(m) => Some(m),
            None => first_step_problem(steps.drop_first(), registered),
        }
    }
}

/// A request can be accepted: it has a name, targets that all parse, and a
/// workflow of at least one step whose steps all run registered commands.
pub open spec fn request_acceptable(req: CreateTaskRequest, registered: Seq<Seq<char>>) -> bool {
    let ts = crate::text::views(req.targets@);
    &&& trim(req.name@).len() > 0
    &&& ts.len() > 0
    &&& all_targets_parse(ts)
    &&& req.workflow is Some
    &&& req.workflow->0.steps@.len() > 0
    &&& first_step_problem(req.workflow->0.steps@, registered) is None
}

/// A step is runnable: it names a command, and that command is registered.
pub open spec fn step_runnable(s: WorkflowStep, registered: Seq<Seq<char>>) -> bool {
    step_command(s.step_type, s.tool@) matches Some(c) && registered.contains(c)
}

proof fn lemma_first_step_problem_none(steps: Seq<WorkflowStep>, registered: Seq<Seq<char>>)
    ensures
        first_step_problem(steps, registered) is None <==> forall|k: int|
            0 <= k < steps.len() ==> step_runnable(#[trigger] steps[k], registered),
    decreases steps.len(),
{
    if steps.len() > 0 {
        let rest = steps.drop_first();
        lemma_first_step_problem_none(rest, registered);
        if forall|k: int| 0 <= k < rest.len() ==> step_runnable(#[trigger] rest[k], registered) {
            if step_runnable(steps[0], registered) {
                assert forall|k: int| 0 <= k < steps.len() implies step_runnable(#[trigger] steps[k], registered) by {
                    if k > 0 {
                        assert(steps[k] == rest[k - 1]);
                    }
                }
            }
        } else {
            let j = choose|j: int| 0 <= j < rest.len() && !step_runnable(#[trigger] rest[j], registered);
            assert(steps[j + 1] == rest[j]);
        }
        if forall|k: int| 0 <= k < steps.len() ==> step_runnable(#[trigger] steps[k], registered) {
            assert(step_runnable(steps[0], registered));
            assert forall|k: int| 0 <= k < rest.len() implies step_runnable(#[trigger] rest[k], registered) by {
                assert(rest[k] == steps[k + 1]);
            }
        }
    }
}

/// A request to create a task is accepted exactly when: its name is not
/// blank; it has a target; every target parses as an address or network;
/// it has a workflow of at least one step; and every step names a command
/// (a built-in step of type 1 to 4, or its tool) that is registered. The
/// task is recorded only then.
pub proof fn law_acceptance_conditions(req: CreateTaskRequest, registered: Seq<Seq<char>>)
    ensures
        request_acceptable(req, registered) <==> {
            &&& trim(req.name@).len() > 0
            &&& req.targets@.len() > 0
            &&& forall|k: int|
                0 <= k < req.targets@.len() ==> network_parses((#[trigger] req.targets@[k])@)
            &&& req.workflow matches Some(w) && w.steps@.len() > 0 && forall|k: int|
                0 <= k < w.steps@.len() ==> step_runnable(#[trigger] w.steps@[k], registered)
        },
{
    let ts = crate::text::views(req.targets@);
    if req.workflow is Some {
        lemma_first_step_problem_none(req.workflow->0.steps@, registered);
    }
    assert(all_targets_parse(ts) <==> forall|k: int|
        0 <= k < req.targets@.len() ==> network_parses((#[trigger] req.targets@[k])@)) by {
        if all_targets_parse(ts) {
            assert forall|k: int| 0 <= k < req.targets@.len() implies network_parses((#[trigger] req.targets@[k])@) by {
                assert(ts[k] == req.targets@[k]@);
                assert(ts.contains(ts[k]));
            }
        }
        if forall|k: int| 0 <= k < req.targets@.len() ==> network_parses((#[trigger] req.targets@[k])@) {
            assert forall|u: Seq<char>| ts.contains(u) implies network_parses(u) by {
                let k = choose|k: int| 0 <= k < ts.len() && ts[k] == u;
                assert(ts[k] == req.targets@[k]@);
            }
        }
    }
}

/// A created task is pending at 0 % with exit code 0, has neither started
/// nor finished, runs the requested workflow, and holds the requested
/// targets sorted, each once.
pub proof fn law_created_task_shape(meta: TaskMetadata, req: CreateTaskRequest, id: Seq<char>, now: i64)
    requires
        pending_metadata(meta, req, id, now),
    ensures
        meta.status == status_code(TaskStatus::Pending),
        meta.progress == 0,
        meta.exit_code == 0,
        meta.started_at is None && meta.finished_at is None,
        Some(meta.workflow) == req.workflow,
        strictly_sorted(crate::text::views(meta.targets@)),
        crate::text::views(meta.targets@).no_duplicates(),
        crate::text::views(meta.targets@).to_set() == crate::text::views(req.targets@).to_set(),
{
    let v = crate::text::views(meta.targets@);
    assert forall|i: int, j: int| 0 <= i < v.len() && 0 <= j < v.len() && i != j implies v[i] != v[j] by {
        lemma_text_lt_irreflexive(v[i]);
        if i < j {
            assert(text_lt(v[i], v[j]));
        } else {
            assert(text_lt(v[j], v[i]));
        }
    }
    assert(v.to_set() =~= crate::text::views(req.targets@).to_set());
}

/// `msg` is the answer to an unacceptable request: the first check that
/// fails, in the order name, targets, target syntax (naming the least bad
/// target), workflow, steps.
pub open spec fn refusal_for(req: CreateTaskRequest, registered: Seq<Seq<char>>, msg: Seq<char>) -> bool {
    let ts = crate::text::views(req.targets@);
    if trim(req.name@).len() == 0 {
        msg == "任务名称不能为空"@
    } else if ts.len() == 0 {
        msg == "扫描目标不能为空"@
    } else if !all_targets_parse(ts) {
        exists|t: Seq<char>| is_least_invalid(ts, t) && msg == "无效的目标地址: "@ + t
    } else {
        match req.workflow {
            None => msg == "Workflow is required"@,
            Some(w) => if w.steps@.len() == 0 {
                msg == "Workflow 至少需要一个步骤"@
            } else {
                first_step_problem(w.steps@, registered) == Some(msg)
            },
        }
    }
}

/// The metadata of a new pending task.
pub open spec fn pending_metadata(meta: TaskMetadata, req: CreateTaskRequest, id: Seq<char>, now: i64) -> bool {
    &&& meta.id@ == id
    &&& meta.name == req.name
    &&& meta.description == req.description
    &&& strictly_sorted(crate::text::views(meta.targets@))
    &&& forall|x: Seq<char>|
        crate::text::views(meta.targets@).contains(x) <==> crate::text::views(req.targets@).contains(x)
    &&& meta.status == status_code(TaskStatus::Pending)
    &&& meta.exit_code == 0
    &&& meta.error_message@.len() == 0
    &&& meta.created_at == now
    &&& meta.updated_at is None
    &&& meta.started_at is None
    &&& meta.finished_at is None
    &&& meta.log_path@.len() == 0
    &&& meta.progress == 0
    &&& Some(meta.workflow) == req.workflow
    &&& meta.domain_state == DomainPipelineState {
        current_stage: crate::domain::DomainStage::AssetDiscovery,
        assets_discovered: 0,
        fingerprints_collected: 0,
        findings_identified: 0,
        reports_generated: 0,
    }
}

fn step_problem_exec(step: &WorkflowStep, registered: &[String]) -> (res: Option<String>)
    ensures
        match res {
            Some(m) => step_problem(*step, crate::text::views(registered@)) == Some(m@),
            None => step_problem(*step, crate::text::views(registered@)) is None,
        },
{
    match map_step_to_command_id(step.step_type, step.tool.as_str()) {
        None => {
            let a = join_str("无效的 workflow step: type=", string_of(int_text_exec(step.step_type as i64).as_slice()).as_str());
            let b = join_str(a.as_str(), ", tool=");
            Some(join_str(b.as_str(), step.tool.as_str()))
        },
        Some(c) => {
            let known = crate::text::strings_contain(registered, c.as_str());
            proof {
                let rv = crate::text::views(registered@);
                if rv.contains(c@) {
                    let k = choose|k: int| 0 <= k < rv.len() && rv[k] == c@;
                    assert(registered@[k]@ == c@);
                }
                if known {
                    let k = choose|k: int| 0 <= k < registered@.len() && (#[trigger] registered@[k])@ == c@;
                    assert(rv[k] == c@);
                }
            }
            if known {
                None
            } else {
                Some(join_str("未注册的扫描工具: ", c.as_str()))
            }
        },
    }
}

fn first_step_problem_exec(steps: &Vec<WorkflowStep>, registered: &[String]) -> (res: Option<String>)
    ensures
        match res {
            Some(m) => first_step_problem(steps@, crate::text::views(registered@)) == Some(m@),
            None => first_step_problem(steps@, crate::text::views(registered@)) is None,
        },
{
    let ghost rv = crate::text::views(registered@);
    let mut i: usize = 0;
    assert(steps@.skip(0) =~= steps@);
    while i < steps.len()
        invariant
            i <= steps@.len(),
            rv == crate::text::views(registered@),
            first_step_problem(steps@, rv) == first_step_problem(steps@.skip(i as int), rv),
        decreases steps@.len() - i,
    {
        assert(steps@.skip(i as int)[0] == steps@[i as int]);
        assert(steps@.skip(i as int).drop_first() =~= steps@.skip(i + 1));
        match step_problem_exec(&steps[i], registered) {
            Some(m) => {
                return Some(m);
            },
            None => {},
        }
        i = i + 1;
    }
    None
}

/// The metadata of a new pending task with identifier `id`, created at
/// `now`: targets sorted and without repeats, status pending. Refused, as an
/// invalid argument, when the request is not acceptable.
pub fn new_task_metadata(req: CreateTaskRequest, registered: &[String], id: String, now: i64) -> (res: Result<TaskMetadata, RpcStatus>)
    ensures
        res is Ok <==> request_acceptable(req, crate::text::views(registered@)),
        match res {
            Ok(meta) => pending_metadata(meta, req, id@, now),
            Err(st) => st.code == RpcCode::InvalidArgument && refusal_for(
                req,
                crate::text::views(registered@),
                st.message@,
            ),
        },
{
    let ghost rv = crate::text::views(registered@);
    let targets = sorted_distinct(req.targets.as_slice());
    let ghost tv = crate::text::views(targets@);
    let ghost iv = crate::text::views(req.targets@);
    let name = trim_str(req.name.as_str());
    assert(iv == crate::text::views(req.targets@));
    if name.len() == 0 {
        return Err(refusal(RpcCode::InvalidArgument, "任务名称不能为空"));
    }
    if targets.len() == 0 {
        proof {
            if iv.len() > 0 {
                assert(iv.contains(iv[0]));
                assert(tv.contains(iv[0]));
            }
        }
        return Err(refusal(RpcCode::InvalidArgument, "扫描目标不能为空"));
    }
    proof {
        assert(tv.contains(tv[0]));
        assert(iv.contains(tv[0]));
    }
    let mut k: usize = 0;
    while k < targets.len()
        invariant
            k <= targets@.len(),
            tv == crate::text::views(targets@),
            iv == crate::text::views(req.targets@),
            rv == crate::text::views(registered@),
            trim(req.name@).len() > 0,
            iv.len() > 0,
            strictly_sorted(tv),
            forall|x: Seq<char>| tv.contains(x) <==> iv.contains(x),
            forall|m: int| 0 <= m < k ==> network_parses(#[trigger] tv[m]),
        decreases targets@.len() - k,
    {
        if !parses_as_network(targets[k].as_str()) {
            proof {
                let t = tv[k as int];
                assert(tv.contains(t));
                assert forall|u: Seq<char>| iv.contains(u) && text_lt(u, t) implies network_parses(u) by {
                    assert(tv.contains(u));
                    let j = choose|j: int| 0 <= j < tv.len() && tv[j] == u;
                    if j >= k {
                        if j == k {
                            lemma_text_lt_irreflexive(t);
                        } else {
                            assert(text_lt(tv[k as int], tv[j]));
                            lemma_text_lt_transitive(t, u, t);
                            lemma_text_lt_irreflexive(t);
                        }
                    }
                }
                assert(is_least_invalid(iv, t));
                assert(!all_targets_parse(iv));
            }
            let msg = join_str("无效的目标地址: ", targets[k].as_str());
            return Err(RpcStatus { code: RpcCode::InvalidArgument, message: msg });
        }
        k = k + 1;
    }
    proof {
        assert forall|u: Seq<char>| iv.contains(u) implies network_parses(u) by {
            assert(tv.contains(u));
            let j = choose|j: int| 0 <= j < tv.len() && tv[j] == u;
        }
    }
    let workflow = match req.workflow {
        Some(w) => w,
        None => {
            return Err(refusal(RpcCode::InvalidArgument, "Workflow is required"));
        },
    };
    if workflow.steps.len() == 0 {
        return Err(refusal(RpcCode::InvalidArgument, "Workflow 至少需要一个步骤"));
    }
    match first_step_problem_exec(&workflow.steps, registered) {
        Some(m) => {
            return Err(RpcStatus { code: RpcCode::InvalidArgument, message: m });
        },
        None => {},
    }
    Ok(TaskMetadata {
        id,
        name: req.name,
        description: req.description,
        targets,
        status: TaskStatus::Pending.as_i32(),
        progress: 0,
        exit_code: 0,
        error_message: String::new(),
        created_at: now,
        updated_at: None,
        started_at: None,
        finished_at: None,
        log_path: String::new(),
        workflow,
        domain_state: DomainPipelineState::default(),
    })
}

/// A new pending task for an acceptable request, with a fresh UUID as its
/// identifier and the current time as its creation time; refused as
/// `new_task_metadata` refuses.
pub fn create_task(req: CreateTaskRequest, registered: &[String]) -> (res: Result<TaskMetadata, RpcStatus>)
    ensures
        res is Ok <==> request_acceptable(req, crate::text::views(registered@)),
        match res {
            Ok(meta) => crate::ids::is_uuid_text(meta.id@) && pending_metadata(meta, req, meta.id@, meta.created_at),
            Err(st) => st.code == RpcCode::InvalidArgument && refusal_for(
                req,
                crate::text::views(registered@),
                st.message@,
            ),
        },
{
    let id = crate::ids::new_uuid_text();
    let ghost idv = id@;
    let now = crate::ids::now_millis();
    new_task_metadata(req, registered, id, now)
}

/// What follows the writing of a new task's files (its directory, targets
/// database, command specs and workflow list): the task is created, or it
/// is deleted again and the request refused.
#[derive(Debug, Clone)]
pub enum SetupFollowUp {
    Created(TaskMetadata),
    RollBack { task_id: String, refusal: RpcStatus },
}

/// The step after a new task's files were written: the task stands when
/// they were; otherwise the task `meta` names is to be deleted and the
/// request refused as an internal error naming why the files failed.
pub fn after_task_setup(meta: TaskMetadata, written: Result<(), String>) -> (res: SetupFollowUp)
    ensures
        match written {
            Ok(()) => res == SetupFollowUp::Created(meta),
            Err(e) => res matches SetupFollowUp::RollBack { task_id, refusal } && task_id@ == meta.id@
                && refusal.code == RpcCode::Internal && refusal.message@ == "Failed to setup task: "@ + e@,
        },
{
    match written {
        Ok(()) => SetupFollowUp::Created(meta),
        Err(e) => SetupFollowUp::RollBack {
            task_id: crate::text::owned(meta.id.as_str()),
            refusal: RpcStatus { code: RpcCode::Internal, message: join_str("Failed to setup task: ", e.as_str()) },
        },
    }
}

// ---------------------------------------------------------------------------
// Starting, stopping, restarting
// ---------------------------------------------------------------------------

/// The answer to a request to start a task: not found when it does not
/// exist, refused while it runs or once it is done, accepted otherwise.
pub open spec fn start_answer(status: Option<i32>) -> Option<(RpcCode, Seq<char>)> {
    match status {
        None => Some((RpcCode::NotFound, "任务未找到"@)),
        Some(s) => if s == status_code(TaskStatus::Running) {
            Some((RpcCode::FailedPrecondition, "任务正在运行中"@))
        } else if s == status_code(TaskStatus::Done) {
            Some((RpcCode::FailedPrecondition, "任务已完成，请使用重启功能"@))
        } else {
            None
        },
    }
}

/// Whether a task (with its status when it exists) may be started.
pub fn check_startable(status: Option<i32>) -> (res: Result<(), RpcStatus>)
    ensures
        match res {
            Ok(()) => start_answer(status) is None,
            Err(st) => start_answer(status) == Some((st.code, st.message@)),
        },
{
    match status {
        None => Err(refusal(RpcCode::NotFound, "任务未找到")),
        Some(s) => {
            if s == TaskStatus::Running.as_i32() {
                Err(refusal(RpcCode::FailedPrecondition, "任务正在运行中"))
            } else if s == TaskStatus::Done.as_i32() {
                Err(refusal(RpcCode::FailedPrecondition, "任务已完成，请使用重启功能"))
            } else {
                Ok(())
            }
        },
    }
}

/// The answer to a request to restart a task: not found when it does not
/// exist (or cannot be read), refused while it runs, accepted otherwise.
pub open spec fn restart_answer(status: Option<i32>) -> Option<(RpcCode, Seq<char>)> {
    match status {
        None => Some((RpcCode::NotFound, "任务不存在"@)),
        Some(s) => if s == status_code(TaskStatus::Running) {
            Some((RpcCode::FailedPrecondition, "任务正在运行中，请先停止任务后再重启"@))
        } else {
            None
        },
    }
}

/// Whether a task (with its status when it could be read) may be
/// restarted.
pub fn check_restartable(status: Option<i32>) -> (res: Result<(), RpcStatus>)
    ensures
        match res {
            Ok(()) => restart_answer(status) is None,
            Err(st) => restart_answer(status) == Some((st.code, st.message@)),
        },
{
    match status {
        None => Err(refusal(RpcCode::NotFound, "任务不存在")),
        Some(s) => {
            if s == TaskStatus::Running.as_i32() {
                Err(refusal(RpcCode::FailedPrecondition, "任务正在运行中，请先停止任务后再重启"))
            } else {
                Ok(())
            }
        },
    }
}

/// A task that is running can neither be started nor restarted, and a task
/// that can be restarted exists.
pub proof fn law_running_task_is_not_started_again(status: Option<i32>)
    ensures
        status == Some(status_code(TaskStatus::Running)) ==> start_answer(status) is Some
            && restart_answer(status) is Some,
        restart_answer(status) is None ==> status is Some,
        start_answer(status) is None ==> restart_answer(status) is None,
{
}

/// Milliseconds as a protocol timestamp: whole seconds and the remaining
/// nanoseconds, both truncated toward zero as Rust's `/` and `%` are.
pub open spec fn proto_timestamp(ms: i64) -> (i64, i32) {
    let q: int = if ms >= 0 {
        ms / 1000
    } else {
        -((-ms) / 1000)
    };
    let r: int = ms - q * 1000;
    (q as i64, (r * 1_000_000) as i32)
}

/// A timestamp in milliseconds as (seconds, nanoseconds).
pub fn to_proto_ts(ms: Option<i64>) -> (res: Option<(i64, i32)>)
    ensures
        match ms {
            Some(m) => res == Some(proto_timestamp(m)),
            None => res is None,
        },
{
    match ms {
        Some(m) => {
            let mu: i128 = m as i128;
            let (q, r): (i128, i128) = if mu >= 0 {
                (mu / 1000, mu % 1000)
            } else {
                let a: i128 = -mu;
                (-(a / 1000), -(a % 1000))
            };
            assert(q == (if m >= 0 {
                m / 1000
            } else {
                -((-m) / 1000)
            }));
            assert(r == m - q * 1000);
            assert(-1000 < r < 1000);
            Some((q as i64, (r * 1_000_000) as i32))
        },
        None => None,
    }
}

/// The configuration error of a workflow: its first built-in step of
/// unknown type, named in the message.
pub open spec fn workflow_error(steps: Seq<WorkflowStep>, e: AppError) -> bool {
    exists|k: int|
        0 <= k < steps.len() && step_command(steps[k].step_type, steps[k].tool@) is None && (forall|j: int|
            0 <= j < k ==> step_command(#[trigger] steps[j].step_type, steps[j].tool@) is Some) && e
            == AppError::Config(e->Config_0) && e->Config_0@ == "无效的 workflow step type: "@ + int_text(
            steps[k].step_type as int,
        )
}

/// The commands of a task's workflow, each over the task's targets and run
/// in the task's directory; a built-in step of unknown type is a
/// configuration error.
pub open spec fn workflow_specs_ok(
    steps: Seq<WorkflowStep>,
    targets: Seq<String>,
    task_dir: Seq<char>,
    specs: Seq<CommandSpec>,
) -> bool {
    &&& specs.len() == steps.len()
    &&& forall|k: int|
        0 <= k < steps.len() ==> {
            let c = step_command(steps[k].step_type, steps[k].tool@);
            &&& c is Some
            &&& (#[trigger] specs[k]).id@ == c->0
            &&& specs[k].program@ == c->0
            &&& specs[k].targets@ == targets
            &&& specs[k].args@.len() == 0
            &&& specs[k].env is None
            &&& specs[k].cwd matches Some(d) && d@ == task_dir
        }
}

/// The commands a task's workflow runs, or the configuration error for its
/// first built-in step of unknown type.
pub fn specs_from_workflow(meta: &TaskMetadata, task_dir: &str) -> (res: Result<Vec<CommandSpec>, AppError>)
    ensures
        match res {
            Ok(specs) => workflow_specs_ok(meta.workflow.steps@, meta.targets@, task_dir@, specs@),
            Err(e) => workflow_error(meta.workflow.steps@, e),
        },
{
    let ghost steps = meta.workflow.steps@;
    let mut specs: Vec<CommandSpec> = Vec::new();
    let mut i: usize = 0;
    while i < meta.workflow.steps.len()
        invariant
            i <= steps.len(),
            steps == meta.workflow.steps@,
            workflow_specs_ok(steps.take(i as int), meta.targets@, task_dir@, specs@),
        decreases steps.len() - i,
    {
        let step = &meta.workflow.steps[i];
        match map_step_to_command_id(step.step_type, step.tool.as_str()) {
            Some(cmd) => {
                let spec = CommandSpec {
                    id: crate::text::owned(cmd.as_str()),
                    program: cmd,
                    targets: crate::text::clone_strings(meta.targets.as_slice()),
                    args: Vec::new(),
                    env: None,
                    cwd: Some(crate::text::owned(task_dir)),
                };
                let ghost before = specs@;
                specs.push(spec);
                proof {
                    assert forall|k: int| 0 <= k < i + 1 implies {
                        let c = step_command(steps.take(i + 1)[k].step_type, steps.take(i + 1)[k].tool@);
                        &&& c is Some
                        &&& (#[trigger] specs@[k]).id@ == c->0
                        &&& specs@[k].program@ == c->0
                        &&& specs@[k].targets@ == meta.targets@
                        &&& specs@[k].args@.len() == 0
                        &&& specs@[k].env is None
                        &&& specs@[k].cwd matches Some(d) && d@ == task_dir@
                    } by {
                        if k < i {
                            assert(specs@[k] == before[k]);
                            assert(steps.take(i + 1)[k] == steps.take(i as int)[k]);
                        }
                    }
                }
            },
            None => {
                let digits = int_text_exec(step.step_type as i64);
                let msg = join_str("无效的 workflow step type: ", string_of(digits.as_slice()).as_str());
                proof {
                    assert forall|j: int| 0 <= j < i implies step_command(
                        #[trigger] steps[j].step_type,
                        steps[j].tool@,
                    ) is Some by {
                        assert(steps.take(i as int)[j] == steps[j]);
                        assert(specs@[j].id@ == specs@[j].id@);
                    }
                }
                return Err(AppError::Config(msg));
            },
        }
        i = i + 1;
    }
    assert(steps.take(i as int) =~= steps);
    Ok(specs)
}

// ---------------------------------------------------------------------------
// Running tasks
// ---------------------------------------------------------------------------

/// What deciding a start gives, for the running tasks `running`: refused
/// while the task runs; refused when it does not exist; its workflow's
/// commands when it has steps (or the error for a built-in step of unknown
/// type); none when its command file is to be read.
pub open spec fn start_plan(
    running: Set<Seq<char>>,
    id: Seq<char>,
    meta: Option<TaskMetadata>,
    task_dir: Seq<char>,
    res: Result<Option<Vec<CommandSpec>>, AppError>,
) -> bool {
    if running.contains(id) {
        res matches Err(AppError::Task(m)) && m@ == "任务已在运行中"@
    } else {
        match meta {
            None => res matches Err(AppError::Task(m)) && m@ == "Task not found"@,
            Some(t) => if t.workflow.steps@.len() == 0 {
                res matches Ok(None)
            } else {
                match res {
                    Ok(Some(specs)) => workflow_specs_ok(t.workflow.steps@, t.targets@, task_dir, specs@),
                    Ok(None) => false,
                    Err(e) => workflow_error(t.workflow.steps@, e),
                }
            },
        }
    }
}

/// A start is refused exactly when the task already runs, does not exist,
/// or has a built-in step of unknown type, with the refusal of the first of
/// these; a start that is not refused is for a task that does not run, so
/// marking it as running then adds just its id.
pub proof fn law_start_refusal(
    running: Set<Seq<char>>,
    id: Seq<char>,
    meta: Option<TaskMetadata>,
    task_dir: Seq<char>,
    res: Result<Option<Vec<CommandSpec>>, AppError>,
)
    requires
        start_plan(running, id, meta, task_dir, res),
    ensures
        res is Err <==> (running.contains(id) || meta is None || (meta matches Some(t) && exists|k: int|
            0 <= k < t.workflow.steps@.len() && step_command(
                (#[trigger] t.workflow.steps@[k]).step_type,
                t.workflow.steps@[k].tool@,
            ) is None)),
        running.contains(id) ==> (res matches Err(AppError::Task(m)) && m@ == "任务已在运行中"@),
        !running.contains(id) && meta is None ==> (res matches Err(AppError::Task(m)) && m@ == "Task not found"@),
        res is Ok ==> !running.contains(id) && running.insert(id).remove(id) == running,
{
    if !running.contains(id) {
        if let Some(t) = meta {
            let steps = t.workflow.steps@;
            if steps.len() > 0 {
                match res {
                    Ok(Some(specs)) => {
                        assert forall|k: int| 0 <= k < steps.len() implies step_command(
                            (#[trigger] steps[k]).step_type,
                            steps[k].tool@,
                        ) is Some by {
                            assert(specs@[k].id@ == specs@[k].id@);
                        }
                    },
                    _ => {},
                }
            }
        }
        assert(running.insert(id).remove(id) =~= running);
    }
}

/// The identifiers of the tasks that run, each once.
pub struct RunningTasks {
    ids: Vec<String>,
}

impl RunningTasks {
    /// The identifiers, as a set.
    pub closed spec fn running(&self) -> Set<Seq<char>> {
        crate::text::views(self.ids@).to_set()
    }

    /// No identifier twice.
    pub closed spec fn wf(&self) -> bool {
        crate::text::views(self.ids@).no_duplicates()
    }

    /// No task runs.
    pub fn new() -> (res: Self)
        ensures
            res.wf(),
            res.running() == Set::<Seq<char>>::empty(),
    {
        let r = RunningTasks { ids: Vec::new() };
        assert(crate::text::views(r.ids@).to_set() =~= Set::<Seq<char>>::empty());
        r
    }

    fn position(&self, id: &str) -> (res: Option<usize>)
        ensures
            match res {
                Some(k) => k < self.ids@.len() && self.ids@[k as int]@ == id@,
                None => !self.running().contains(id@),
            },
    {
        let idc = chars_of(id);
        let mut k: usize = 0;
        while k < self.ids.len()
            invariant
                k <= self.ids@.len(),
                idc@ == id@,
                forall|m: int| 0 <= m < k ==> (#[trigger] self.ids@[m])@ != id@,
            decreases self.ids@.len() - k,
        {
            let c = chars_of(self.ids[k].as_str());
            if crate::text::chars_eq(c.as_slice(), idc.as_slice()) {
                return Some(k);
            }
            k = k + 1;
        }
        proof {
            let v = crate::text::views(self.ids@);
            if v.to_set().contains(id@) {
                assert(v.contains(id@));
                let m = choose|m: int| 0 <= m < v.len() && v[m] == id@;
                assert(self.ids@[m]@ == id@);
            }
        }
        None
    }

    /// Whether the task runs.
    pub fn is_running(&self, id: &str) -> (res: bool)
        ensures
            res == self.running().contains(id@),
    {
        match self.position(id) {
            Some(k) => {
                proof {
                    let v = crate::text::views(self.ids@);
                    assert(v[k as int] == id@);
                    assert(v.contains(id@));
                }
                true
            },
            None => false,
        }
    }

    /// Marks a task as running; refused while it already runs.
    pub fn try_register(&mut self, id: &str) -> (res: Result<(), AppError>)
        requires
            old(self).wf(),
        ensures
            final(self).wf(),
            match res {
                Ok(()) => !old(self).running().contains(id@) && final(self).running() == old(self).running().insert(id@),
                Err(e) => old(self).running().contains(id@) && final(self).running() == old(self).running()
                    && e == AppError::Task(e->Task_0) && e->Task_0@ == "任务已在运行中"@,
            },
    {
        if self.is_running(id) {
            return Err(AppError::Task(crate::text::owned("任务已在运行中")));
        }
        let ghost before = crate::text::views(self.ids@);
        self.ids.push(crate::text::owned(id));
        proof {
            let v = crate::text::views(self.ids@);
            assert(v =~= before.push(id@));
            assert(v.to_set() =~= before.to_set().insert(id@)) by {
                assert forall|x: Seq<char>| v.to_set().contains(x) <==> before.to_set().insert(id@).contains(x) by {
                    if v.contains(x) {
                        let m = choose|m: int| 0 <= m < v.len() && v[m] == x;
                        if m < before.len() {
                            assert(before[m] == x);
                        }
                    }
                    if before.contains(x) {
                        let m = choose|m: int| 0 <= m < before.len() && before[m] == x;
                        assert(v[m] == x);
                    }
                    if x == id@ {
                        assert(v[before.len() as int] == x);
                    }
                }
            }
            assert forall|a: int, b: int| 0 <= a < b < v.len() implies v[a] != v[b] by {
                if b == before.len() {
                    assert(before.contains(before[a]));
                }
            }
        }
        Ok(())
    }

    /// What starting a task needs, decided before it is marked as running
    /// and in this order: refused while the task runs; refused when it does
    /// not exist; the commands of its workflow when it has steps (refused
    /// for a built-in step of unknown type); none, when the task directory's
    /// command file is to be read instead. The running tasks are left as
    /// they are; a caller marks the task with `try_register` once the rest
    /// of the start has succeeded.
    pub fn plan_start(&self, id: &str, meta: Option<TaskMetadata>, task_dir: &str) -> (res: Result<
        Option<Vec<CommandSpec>>,
        AppError,
    >)
        requires
            self.wf(),
        ensures
            start_plan(self.running(), id@, meta, task_dir@, res),
    {
        if self.is_running(id) {
            return Err(AppError::Task(crate::text::owned("任务已在运行中")));
        }
        match meta {
            None => Err(AppError::Task(crate::text::owned("Task not found"))),
            Some(t) => {
                if t.workflow.steps.len() == 0 {
                    Ok(None)
                } else {
                    match specs_from_workflow(&t, task_dir) {
                        Ok(specs) => Ok(Some(specs)),
                        Err(e) => Err(e),
                    }
                }
            },
        }
    }

    /// Marks a task as no longer running; whether it ran.
    pub fn unregister(&mut self, id: &str) -> (res: bool)
        requires
            old(self).wf(),
        ensures
            final(self).wf(),
            res == old(self).running().contains(id@),
            final(self).running() == old(self).running().remove(id@),
    {
        match self.position(id) {
            Some(k) => {
                let ghost before = crate::text::views(self.ids@);
                self.ids.remove(k);
                proof {
                    let v = crate::text::views(self.ids@);
                    assert(v =~= before.remove(k as int));
                    assert(before[k as int] == id@);
                    assert(before.contains(id@));
                    assert forall|x: Seq<char>| v.to_set().contains(x) <==> before.to_set().remove(id@).contains(x) by {
                        if v.contains(x) {
                            let m = choose|m: int| 0 <= m < v.len() && v[m] == x;
                            if m < k {
                                assert(before[m] == x);
                            } else {
                                assert(before[m + 1] == x);
                            }
                            assert(x != id@);
                        }
                        if before.contains(x) && x != id@ {
                            let m = choose|m: int| 0 <= m < before.len() && before[m] == x;
                            if m < k {
                                assert(v[m] == x);
                            } else {
                                assert(m != k);
                                assert(v[m - 1] == x);
                            }
                        }
                    }
                    assert(v.to_set() =~= before.to_set().remove(id@));
                    assert forall|a: int, b: int| 0 <= a < b < v.len() implies v[a] != v[b] by {
                        let a2 = if a < k { a } else { a + 1 };
                        let b2 = if b < k { b } else { b + 1 };
                        assert(v[a] == before[a2] && v[b] == before[b2]);
                    }
                }
                true
            },
            None => {
                assert(self.running() =~= self.running().remove(id@));
                false
            },
        }
    }
}

/// A built-in workflow step runs the command of its type: 1 the port scan,
/// 2 httpx, 3 nuclei, 4 fscan, and no command for any other type; a step of
/// any other tool runs that tool, whatever its type.
pub proof fn law_step_command_table(step_type: i32, tool: Seq<char>)
    ensures
        step_command(1, "builtin"@) == Some("builtin_port_scan"@),
        step_command(2, "builtin"@) == Some("httpx"@),
        step_command(3, "builtin"@) == Some("nuclei"@),
        step_command(4, "builtin"@) == Some("fscan"@),
        !(1 <= step_type <= 4) ==> step_command(step_type, "builtin"@) is None,
        tool != "builtin"@ ==> step_command(step_type, tool) == Some(tool),
{
}

/// A missing task is not found, whether started or restarted; a running
/// task is refused either way; a finished task cannot be started but can be
/// restarted; a pending, failed, stopped or unspecified task can be started
/// and restarted.
pub proof fn law_start_restart_table(s: i32)
    ensures
        start_answer(None) matches Some((code, _)) && code == RpcCode::NotFound,
        restart_answer(None) matches Some((code, _)) && code == RpcCode::NotFound,
        start_answer(Some(2)) matches Some((code, _)) && code == RpcCode::FailedPrecondition,
        restart_answer(Some(2)) matches Some((code, _)) && code == RpcCode::FailedPrecondition,
        start_answer(Some(3)) matches Some((code, _)) && code == RpcCode::FailedPrecondition,
        restart_answer(Some(3)) is None,
        s != 2 && s != 3 ==> start_answer(Some(s)) is None && restart_answer(Some(s)) is None,
{
}

/// A configuration error is refused as an invalid argument and every other
/// error as internal; database, I/O, task and configuration errors show
/// their own text, the others show it behind an internal-error prefix.
pub proof fn law_error_refusals(e: AppError)
    ensures
        (status_of_error(e).0 == RpcCode::InvalidArgument) == (e is Config),
        !(e is Config) ==> status_of_error(e).0 == RpcCode::Internal,
        (e is Config || e is Database || e is Io || e is Task) ==> status_of_error(e).1 == app_error_text(e),
        !(e is Config || e is Database || e is Io || e is Task) ==> status_of_error(e).1 == "内部错误: "@
            + app_error_text(e),
{
}

/// A timestamp in milliseconds splits into whole seconds and nanoseconds
/// that add back up to it: the nanoseconds are a whole number of
/// milliseconds below one second, with the sign of the timestamp.
pub proof fn law_proto_timestamp_splits(ms: i64)
    ensures
        ({
            let (secs, nanos) = proto_timestamp(ms);
            &&& secs * 1000 + nanos / 1_000_000 == ms
            &&& nanos % 1_000_000 == 0
            &&& -1_000_000_000 < nanos < 1_000_000_000
            &&& ms >= 0 ==> nanos >= 0
            &&& ms < 0 ==> nanos <= 0
        }),
{
    let q: int = if ms >= 0 {
        ms / 1000
    } else {
        -((-ms) / 1000)
    };
    let r: int = ms - q * 1000;
    if ms >= 0 {
        assert(0 <= r < 1000);
    } else {
        assert(-1000 < r <= 0);
    }
    assert(i64::MIN <= q <= i64::MAX);
    assert(-1_000_000_000 < r * 1_000_000 < 1_000_000_000) by (nonlinear_arith)
        requires
            -1000 < r < 1000,
    ;
    assert((r * 1_000_000) / 1_000_000 == r) by (nonlinear_arith);
    assert((r * 1_000_000) % 1_000_000 == 0) by (nonlinear_arith);
    if ms >= 0 {
        assert(r * 1_000_000 >= 0) by (nonlinear_arith)
            requires
                r >= 0,
        ;
    } else {
        assert(r * 1_000_000 <= 0) by (nonlinear_arith)
            requires
                r <= 0,
        ;
    }
}

/// Texts are ordered as `String`'s `Ord` orders them: a proper prefix comes
/// first, and after a common prefix the smaller character decides, whatever
/// follows.
pub proof fn law_text_order(p: Seq<char>, b: Seq<char>, c1: char, c2: char, x: Seq<char>, y: Seq<char>)
    ensures
        b.len() > 0 ==> text_lt(p, p + b),
        !text_lt(p + b, p),
        c1 < c2 ==> text_lt(p + seq![c1] + x, p + seq![c2] + y),
    decreases p.len(),
{
    if p.len() > 0 {
        law_text_order(p.drop_first(), b, c1, c2, x, y);
        assert((p + b).drop_first() =~= p.drop_first() + b);
        assert((p + b)[0] == p[0]);
        assert((p + seq![c1] + x).drop_first() =~= p.drop_first() + seq![c1] + x);
        assert((p + seq![c2] + y).drop_first() =~= p.drop_first() + seq![c2] + y);
        assert((p + seq![c1] + x)[0] == p[0]);
        assert((p + seq![c2] + y)[0] == p[0]);
    } else {
        assert(p + b =~= b);
        assert((p + seq![c1] + x)[0] == c1);
        assert((p + seq![c2] + y)[0] == c2);
    }
}

} // verus!
