//! Port scanning through an external `nmap` binary.
use vstd::prelude::*;
use crate::records::{CommandSpec, PortRow};
use crate::tasks::AppError;
use crate::text::{
    append_strings, chars_of, clone_strings, contains, contains_str, decimal, join_str, lines,
    lines_exec, owned, parse_int, parse_int_exec, split_all, split_exec, split_once, split_once_exec,
    string_of, trim, trim_chars, trim_str,
};

verus! {

/// Runs nmap with configured default arguments.
#[derive(Clone)]
pub struct NmapCommand {
    binary: String,
    default_args: Vec<String>,
    timeout_secs: u64,
}

impl NmapCommand {
    /// A scanner using `binary`, `default_args` and a per-target timeout.
    pub fn new(binary: String, default_args: Vec<String>, timeout_secs: u64) -> (res: NmapCommand)
        ensures
            res.binary() == binary,
            res.default_args() == default_args@,
            res.timeout_secs() == timeout_secs,
    {
        NmapCommand { binary, default_args, timeout_secs }
    }

    pub closed spec fn binary(&self) -> String {
        self.binary
    }

    pub closed spec fn default_args(&self) -> Seq<String> {
        self.default_args@
    }

    pub closed spec fn timeout_secs(&self) -> u64 {
        self.timeout_secs
    }

    /// The configured binary.
    pub fn binary_path(&self) -> (res: String)
        ensures
            res == self.binary(),
    {
        self.binary.clone()
    }

    /// The configured default arguments.
    pub fn default_arguments(&self) -> (res: Vec<String>)
        ensures
            res@ == self.default_args(),
    {
        clone_strings(self.default_args.as_slice())
    }

    /// The per-target timeout in seconds.
    pub fn timeout(&self) -> (res: u64)
        ensures
            res == self.timeout_secs(),
    {
        self.timeout_secs
    }

    /// The command identifier.
    pub fn id(&self) -> (res: &'static str)
        ensures
            res@ == "nmap"@,
    {
        "nmap"
    }

    /// A short description.
    pub fn description(&self) -> (res: &'static str)
        ensures
            res@ == "Nmap Port Scanner"@,
    {
        "Nmap Port Scanner"
    }

    /// The configured binary with the default arguments followed by `args`.
    pub fn build_spec(&self, targets: &[String], args: &[String]) -> (res: CommandSpec)
        ensures
            res.id@ == "nmap"@,
            res.program == self.binary(),
            res.args@ == self.default_args() + args@,
            res.targets@ == targets@,
            res.env is None,
            res.cwd is None,
    {
        let merged = append_strings(clone_strings(self.default_args.as_slice()), args);
        CommandSpec {
            id: owned("nmap"),
            program: self.binary.clone(),
            args: merged,
            targets: clone_strings(targets),
            env: None,
            cwd: None,
        }
    }
    /// The arguments nmap runs with for one target: the defaults, the
    /// target, and grepable output to standard output.
    pub fn scan_args(&self, target: &str) -> (res: Vec<String>)
        ensures
            res@.len() == self.default_args().len() + 3,
            forall|k: int| 0 <= k < self.default_args().len() ==> (#[trigger] res@[k])@ == self.default_args()[k]@,
            res@[self.default_args().len() as int]@ == target@,
            res@[self.default_args().len() as int + 1]@ == "-oG"@,
            res@[self.default_args().len() as int + 2]@ == "-"@,
    {
        let mut v = clone_strings(self.default_args.as_slice());
        v.push(owned(target));
        v.push(owned("-oG"));
        v.push(owned("-"));
        v
    }
}

/// The error of a scan that ran past its time limit.
pub fn scan_timeout_error(target: &str, timeout_secs: u64) -> (res: AppError)
    ensures
        res matches AppError::Task(m) && m@ == "Nmap 扫描超时: "@ + target@ + " ("@ + decimal(
            timeout_secs as nat,
        ) + "s)"@,
{
    let a = join_str("Nmap 扫描超时: ", target);
    let b = join_str(a.as_str(), " (");
    let n = string_of(crate::text::decimal_exec(timeout_secs).as_slice());
    let c = join_str(b.as_str(), n.as_str());
    AppError::Task(join_str(c.as_str(), "s)"))
}

/// The error of a scanner that could not be started.
pub fn scan_launch_error(cause: &str) -> (res: AppError)
    ensures
        res matches AppError::Task(m) && m@ == "无法启动 Nmap: "@ + cause@,
{
    AppError::Task(join_str("无法启动 Nmap: ", cause))
}

/// The error of a scan that exited unsuccessfully, with its error output
/// trimmed.
pub fn scan_failure_error(target: &str, stderr: &str) -> (res: AppError)
    ensures
        res matches AppError::Task(m) && m@ == "Nmap 扫描失败 ["@ + target@ + "]: "@ + trim(stderr@),
{
    let a = join_str("Nmap 扫描失败 [", target);
    let b = join_str(a.as_str(), "]: ");
    let t = string_of(trim_str(stderr).as_slice());
    AppError::Task(join_str(b.as_str(), t.as_str()))
}

/// A port entry of grepable output (`port/state/protocol/owner/service/...`):
/// its port, protocol, state and service (`unknown` when blank); none when
/// it has fewer than five fields, a port that is no `i32`, or a blank state
/// or protocol.
pub open spec fn nmap_entry(entry: Seq<char>) -> Option<(int, Seq<char>, Seq<char>, Seq<char>)> {
    let fields = split_all(trim(entry), "/"@);
    if fields.len() < 5 {
        None
    } else {
        match parse_int(trim(fields[0]), i32::MIN as int, i32::MAX as int) {
            None => None,
            Some(port) => {
                let state = trim(fields[1]);
                let protocol = trim(fields[2]);
                let service = trim(fields[4]);
                if state.len() == 0 || protocol.len() == 0 {
                    None
                } else {
                    Some(
                        (
                            port,
                            protocol,
                            state,
                            if service.len() == 0 {
                                "unknown"@
                            } else {
                                service
                            },
                        ),
                    )
                }
            },
        }
    }
}

/// The port entries of some comma-separated pieces, in order.
pub open spec fn entries_rows(es: Seq<Seq<char>>) -> Seq<(int, Seq<char>, Seq<char>, Seq<char>)>
    decreases es.len(),
{
    if es.len() == 0 {
        Seq::empty()
    } else {
        match nmap_entry(es.last()) {
            Some(r) => entries_rows(es.drop_last()).push(r),
            None => entries_rows(es.drop_last()),
        }
    }
}

/// The port entries of a line that names a host and its ports.
pub open spec fn nmap_line_rows(line: Seq<char>) -> Seq<(int, Seq<char>, Seq<char>, Seq<char>)> {
    if !contains(line, "Host:"@) || !contains(line, "Ports:"@) {
        Seq::empty()
    } else {
        match split_once(line, "Ports:"@) {
            Some((_, ports)) => entries_rows(split_all(ports, ","@)),
            None => Seq::empty(),
        }
    }
}

/// The port entries of some lines, in order.
pub open spec fn nmap_rows(ls: Seq<Seq<char>>) -> Seq<(int, Seq<char>, Seq<char>, Seq<char>)>
    decreases ls.len(),
{
    if ls.len() == 0 {
        Seq::empty()
    } else {
        nmap_rows(ls.drop_last()) + nmap_line_rows(ls.last())
    }
}

/// The stored row of a port entry of `target`.
pub open spec fn nmap_port_row(target: Seq<char>, e: (int, Seq<char>, Seq<char>, Seq<char>), row: PortRow) -> bool {
    &&& row.ip@ == target
    &&& row.port as int == e.0
    &&& row.protocol@ == e.1
    &&& row.state@ == e.2
    &&& row.service@ == e.3
    &&& row.tool@ == "nmap"@
}

fn entry_row(target: &str, entry: &[char]) -> (res: Option<PortRow>)
    ensures
        match res {
            Some(row) => nmap_entry(entry@) matches Some(e) && nmap_port_row(target@, e, row),
            None => nmap_entry(entry@) is None,
        },
{
    proof {
        reveal_strlit("/");
        reveal_strlit("unknown");
    }
    let t = trim_chars(entry);
    let slash = chars_of("/");
    let fields = split_exec(t.as_slice(), slash.as_slice());
    let ghost fv = fields@.map_values(|v: Vec<char>| v@);
    if fields.len() < 5 {
        return None;
    }
    assert(fv[0] == fields@[0]@ && fv[1] == fields@[1]@ && fv[2] == fields@[2]@ && fv[4] == fields@[4]@);
    let p = trim_chars(fields[0].as_slice());
    let port = match parse_int_exec(p.as_slice(), i32::MIN as i64, i32::MAX as i64) {
        Some(v) => v as i32,
        None => {
            return None;
        },
    };
    let state = trim_chars(fields[1].as_slice());
    let protocol = trim_chars(fields[2].as_slice());
    let service = trim_chars(fields[4].as_slice());
    if state.len() == 0 || protocol.len() == 0 {
        return None;
    }
    let svc = if service.len() == 0 {
        owned("unknown")
    } else {
        string_of(service.as_slice())
    };
    Some(
        PortRow {
            ip: owned(target),
            port,
            protocol: string_of(protocol.as_slice()),
            state: string_of(state.as_slice()),
            service: svc,
            tool: owned("nmap"),
        },
    )
}

/// The port rows nmap's grepable output gives for a target: for each line
/// that names a host and its ports, each well-formed comma-separated port
/// entry, in order.
pub fn parse_grepable_output(target: &str, stdout: &str) -> (res: Vec<PortRow>)
    ensures
        res@.len() == nmap_rows(lines(stdout@)).len(),
        forall|k: int|
            0 <= k < res@.len() ==> nmap_port_row(target@, nmap_rows(lines(stdout@))[k], #[trigger] res@[k]),
{
    proof {
        reveal_strlit(",");
        reveal_strlit("Ports:");
    }
    let c = chars_of(stdout);
    let ls = lines_exec(c.as_slice());
    let ghost lv = ls@.map_values(|v: Vec<char>| v@);
    let ports_key = chars_of("Ports:");
    let comma = chars_of(",");
    assert(comma@.len() == 1);
    let mut out: Vec<PortRow> = Vec::new();
    let mut i: usize = 0;
    assert(lv.take(0) =~= Seq::<Seq<char>>::empty());
    while i < ls.len()
        invariant
            i <= ls@.len(),
            lv == ls@.map_values(|v: Vec<char>| v@),
            lv == lines(stdout@),
            ports_key@ == "Ports:"@,
            comma@ == ","@,
            comma@.len() == 1,
            out@.len() == nmap_rows(lv.take(i as int)).len(),
            forall|k: int|
                0 <= k < out@.len() ==> nmap_port_row(target@, nmap_rows(lv.take(i as int))[k], #[trigger] out@[k]),
        decreases ls@.len() - i,
    {
        let line = &ls[i];
        proof {
            assert(lv[i as int] == line@);
            assert(lv.take(i + 1).drop_last() =~= lv.take(i as int));
            assert(lv.take(i + 1).last() == line@);
        }
        let ghost before = out@;
        let ghost prev = nmap_rows(lv.take(i as int));
        if contains_str(line.as_slice(), "Host:") && contains_exec_ports(line.as_slice(), ports_key.as_slice()) {
            match split_once_exec(line.as_slice(), ports_key.as_slice()) {
                Some((_, ports)) => {
                    let entries = split_exec(ports.as_slice(), comma.as_slice());
                    let ghost ev = entries@.map_values(|v: Vec<char>| v@);
                    let mut k: usize = 0;
                    assert(ev.take(0) =~= Seq::<Seq<char>>::empty());
                    while k < entries.len()
                        invariant
                            k <= entries@.len(),
                            ev == entries@.map_values(|v: Vec<char>| v@),
                            out@.len() == before.len() + entries_rows(ev.take(k as int)).len(),
                            before.len() == prev.len(),
                            forall|m: int| 0 <= m < before.len() ==> out@[m] == before[m],
                            forall|m: int|
                                0 <= m < before.len() ==> nmap_port_row(target@, prev[m], #[trigger] before[m]),
                            forall|m: int|
                                0 <= m < entries_rows(ev.take(k as int)).len() ==> nmap_port_row(
                                    target@,
                                    entries_rows(ev.take(k as int))[m],
                                    #[trigger] out@[before.len() + m],
                                ),
                        decreases entries@.len() - k,
                    {
                        proof {
                            assert(ev.take(k + 1).drop_last() =~= ev.take(k as int));
                            assert(ev.take(k + 1).last() == entries@[k as int]@);
                        }
                        match entry_row(target, entries[k].as_slice()) {
                            Some(row) => {
                                out.push(row);
                            },
                            None => {},
                        }
                        k = k + 1;
                    }
                    assert(ev.take(k as int) =~= ev);
                    proof {
                        let add = entries_rows(ev);
                        assert(nmap_rows(lv.take(i + 1)) == prev + add);
                        assert forall|m: int| 0 <= m < out@.len() implies nmap_port_row(
                            target@,
                            nmap_rows(lv.take(i + 1))[m],
                            #[trigger] out@[m],
                        ) by {
                            if m < before.len() {
                                assert(out@[m] == before[m]);
                            } else {
                                assert(out@[before.len() + (m - before.len())] == out@[m]);
                            }
                        }
                    }
                },
                None => {
                    assert(nmap_rows(lv.take(i + 1)) =~= prev);
                },
            }
        } else {
            assert(nmap_rows(lv.take(i + 1)) =~= prev);
        }
        i = i + 1;
    }
    assert(lv.take(i as int) =~= lv);
    out
}

fn contains_exec_ports(line: &[char], key: &[char]) -> (res: bool)
    ensures
        res == contains(line@, key@),
{
    crate::text::contains_exec(line, key)
}

/// A port entry `port/state/protocol/owner/service/...` of grepable output,
/// with no `/` inside its first five fields and no blank state or
/// protocol, is that port with its protocol, state and service (trimmed;
/// `unknown` when the service is blank).
pub proof fn law_nmap_entry_fields(
    n: nat,
    state: Seq<char>,
    protocol: Seq<char>,
    owner: Seq<char>,
    service: Seq<char>,
    rest: Seq<char>,
)
    requires
        n <= i32::MAX,
        forall|k: int| 0 <= k < state.len() ==> state[k] != '/',
        forall|k: int| 0 <= k < protocol.len() ==> protocol[k] != '/',
        forall|k: int| 0 <= k < owner.len() ==> owner[k] != '/',
        forall|k: int| 0 <= k < service.len() ==> service[k] != '/',
        trim(state).len() > 0,
        trim(protocol).len() > 0,
        rest.len() == 0 || !crate::text::is_ws(rest.last()),
    ensures
        nmap_entry(
            crate::text::decimal(n) + "/"@ + state + "/"@ + protocol + "/"@ + owner + "/"@ + service + "/"@ + rest,
        ) == Some(
            (
                n as int,
                trim(protocol),
                trim(state),
                if trim(service).len() == 0 {
                    "unknown"@
                } else {
                    trim(service)
                },
            ),
        ),
{
    reveal_strlit("/");
    let sl = "/"@;
    assert(sl =~= seq!['/']);
    let d = crate::text::decimal(n);
    crate::text::law_decimal_reads_back(n);
    crate::text::law_int_text_reads_back(n as int, i32::MIN as int, i32::MAX as int);
    assert(crate::text::int_text(n as int) == d);
    assert forall|k: int| 0 <= k < d.len() implies d[k] != '/' by {
        assert(crate::text::is_ascii_digit(d[k]));
    }
    let r5 = rest;
    let r4 = service + sl + r5;
    let r3 = owner + sl + r4;
    let r2 = protocol + sl + r3;
    let r1 = state + sl + r2;
    let e = d + sl + r1;
    assert(e =~= d + sl + state + sl + protocol + sl + owner + sl + service + sl + rest);
    crate::text::lemma_split_char_prefix(service, r5, '/');
    crate::text::lemma_split_char_prefix(owner, r4, '/');
    crate::text::lemma_split_char_prefix(protocol, r3, '/');
    crate::text::lemma_split_char_prefix(state, r2, '/');
    crate::text::lemma_split_char_prefix(d, r1, '/');
    assert(e[0] == d[0]);
    assert(!crate::text::is_ws(d[0]));
    assert(e.last() == if rest.len() == 0 {
        '/'
    } else {
        rest.last()
    });
    assert(crate::text::trim_start(e) == e);
    assert(crate::text::trim_end(e) == e);
    assert(!crate::text::is_ws(d.last()));
    assert(crate::text::trim_start(d) == d);
    assert(crate::text::trim_end(d) == d);
    let fields = split_all(trim(e), sl);
    assert(fields == seq![d, state, protocol, owner, service] + split_all(r5, sl));
    assert(fields[0] == d && fields[1] == state && fields[2] == protocol && fields[4] == service);
}

} // verus!
