//! Internal-network scanning with fscan: its command line, and how its JSON
//! lines become port results and findings.
use vstd::prelude::*;
use crate::commands::httpx::{numbered_from, numbered_lines, numbered_prefix, parse_i32};
use crate::commands::rules::{
    build_target_args, field_get, location, location_exec, map_for, map_for_exec, maps_view,
    pair_get, pair_lookup, pairs_map, pairs_view, read_line_fields, LineFields, ParseFormat, ToolRule,
};
use crate::config::opt_view;
use crate::records::{CommandSpec, NewFinding, PortRow};
use crate::tasks::AppError;
use crate::text::{ascii_lower, ascii_upper, before_char, chars_of, int_text, join_str, owned, string_of, trim, views};

verus! {

/// A port given as `445`, or as `445/tcp`: the number before the first `/`.
pub open spec fn port_of(raw: Seq<char>) -> Option<int> {
    let t = trim(raw);
    if t.len() == 0 {
        None
    } else if parse_i32(t) is Some {
        parse_i32(t)
    } else {
        parse_i32(trim(before_char(t, '/')))
    }
}

fn parse_i32_exec(text: &[char]) -> (res: Option<i32>)
    ensures
        match res {
            Some(v) => parse_i32(text@) == Some(v as int),
            None => parse_i32(text@) is None,
        },
{
    match crate::text::parse_int_exec(text, i32::MIN as i64, i32::MAX as i64) {
        Some(v) => Some(v as i32),
        None => None,
    }
}

/// A port given as `445` or `445/tcp`.
pub fn parse_port(raw: &str) -> (res: Option<i32>)
    ensures
        match res {
            Some(p) => port_of(raw@) == Some(p as int),
            None => port_of(raw@) is None,
        },
{
    let t = crate::text::trim_str(raw);
    if t.len() == 0 {
        return None;
    }
    match parse_i32_exec(t.as_slice()) {
        Some(v) => Some(v),
        None => {
            let first = crate::text::before_char_exec(t.as_slice(), '/');
            let ft = crate::text::trim_chars(first.as_slice());
            parse_i32_exec(ft.as_slice())
        },
    }
}

/// One fscan result.
#[derive(Debug, Clone)]
pub struct ParsedFscanRecord {
    pub target: String,
    pub port: i32,
    pub protocol: String,
    pub service: String,
    pub banner: Option<String>,
    pub metadata_json: String,
}

/// The mathematical content of a result.
pub struct FscanRecordView {
    pub target: Seq<char>,
    pub port: int,
    pub protocol: Seq<char>,
    pub service: Seq<char>,
    pub banner: Option<Seq<char>>,
    pub metadata_json: Seq<char>,
}

impl View for ParsedFscanRecord {
    type V = FscanRecordView;

    open spec fn view(&self) -> FscanRecordView {
        FscanRecordView {
            target: self.target@,
            port: self.port as int,
            protocol: self.protocol@,
            service: self.service@,
            banner: opt_view(self.banner),
            metadata_json: self.metadata_json@,
        }
    }
}

/// A field's value trimmed, when it is set and not blank.
pub open spec fn trimmed_field(m: Map<Seq<char>, Seq<char>>, k: Seq<char>) -> Option<Seq<char>> {
    if m.contains_key(k) && trim(m[k]).len() > 0 {
        Some(trim(m[k]))
    } else {
        None
    }
}

/// The result the normalised fields of a line describe: the target is the
/// `target` field (else `host`), trimmed; the port must parse; the protocol
/// is lower-cased, `tcp` by default, then normalised; the service is
/// `unknown` by default.
pub open spec fn fscan_from_fields(m: Map<Seq<char>, Seq<char>>, rule: ToolRule, loc: Seq<char>, compact: Seq<char>) -> Result<FscanRecordView, Seq<char>> {
    let named = if m.contains_key("target"@) {
        Some(m["target"@])
    } else if m.contains_key("host"@) {
        Some(m["host"@])
    } else {
        None
    };
    if !(named matches Some(t) && trim(t).len() > 0) {
        Err("fscan 输出缺少 target ("@ + loc + ")"@)
    } else if !(m.contains_key("port"@) && port_of(m["port"@]) is Some) {
        Err("fscan 输出缺少或无效 port ("@ + loc + ")"@)
    } else {
        let proto0 = if m.contains_key("protocol"@) && ascii_lower(trim(m["protocol"@])).len() > 0 {
            ascii_lower(trim(m["protocol"@]))
        } else {
            "tcp"@
        };
        let protocol = match map_for(maps_view(rule.normalize_maps@), "protocol"@) {
            Some(nm) => match pair_lookup(nm, proto0) {
                Some(x) => x,
                None => proto0,
            },
            None => proto0,
        };
        Ok(
            FscanRecordView {
                target: trim(named->0),
                port: port_of(m["port"@])->0,
                protocol,
                service: match trimmed_field(m, "service"@) {
                    Some(s) => s,
                    None => "unknown"@,
                },
                banner: trimmed_field(m, "banner"@),
                metadata_json: compact,
            },
        )
    }
}

/// The result of one line of fscan output, or why it is skipped: the line
/// is not JSON, not an object, names no target or no valid port. Values
/// without their own normalisation entry are also looked up in lower case.
pub open spec fn fscan_record(line: Seq<char>, rule: ToolRule, file: Seq<char>, line_no: nat) -> Result<FscanRecordView, Seq<char>> {
    let loc = location(file, line_no);
    match crate::json::json_document(line) {
        Err(e) => Err("解析 fscan JSON 失败 ("@ + loc + "): "@ + e),
        Ok((v, compact)) => match v {
            crate::json::JsonValue::Object(obj) => fscan_from_fields(
                crate::commands::rules::normalized_fields(
                    crate::commands::rules::mapped_fields(obj@, pairs_view(rule.field_mappings@)),
                    maps_view(rule.normalize_maps@),
                    true,
                ),
                rule,
                loc,
                compact,
            ),
            _ => Err("fscan 输出不是 JSON 对象 ("@ + loc + ")"@),
        },
    }
}

fn trimmed_field_exec(fields: &Vec<(String, String)>, key: &str) -> (res: Option<String>)
    ensures
        opt_view(res) == trimmed_field(pairs_map(pairs_view(fields@)), key@),
{
    match field_get(fields, key) {
        Some(v) => {
            let t = crate::text::trim_str(v.as_str());
            if t.len() > 0 {
                Some(string_of(t.as_slice()))
            } else {
                None
            }
        },
        None => None,
    }
}

fn with_location(prefix: &str, loc: &String) -> (res: AppError)
    ensures
        res == AppError::Task(res->Task_0),
        res->Task_0@ == prefix@ + loc@ + ")"@,
{
    let a = join_str(prefix, loc.as_str());
    AppError::Task(join_str(a.as_str(), ")"))
}

fn record_from_fields(fields: &Vec<(String, String)>, rule: &ToolRule, loc: &String, compact: String) -> (res: Result<ParsedFscanRecord, AppError>)
    ensures
        match res {
            Ok(r) => fscan_from_fields(pairs_map(pairs_view(fields@)), *rule, loc@, compact@) == Ok::<FscanRecordView, Seq<char>>(r@),
            Err(e) => e is Task && fscan_from_fields(pairs_map(pairs_view(fields@)), *rule, loc@, compact@) == Err::<FscanRecordView, Seq<char>>(e->Task_0@),
        },
{
    let named = match field_get(fields, "target") {
        Some(t) => Some(t),
        None => field_get(fields, "host"),
    };
    let target = match named {
        Some(t) => {
            let tt = crate::text::trim_str(t.as_str());
            if tt.len() > 0 {
                string_of(tt.as_slice())
            } else {
                return Err(with_location("fscan 输出缺少 target (", loc));
            }
        },
        None => {
            return Err(with_location("fscan 输出缺少 target (", loc));
        },
    };
    let port = match field_get(fields, "port") {
        Some(p) => match parse_port(p.as_str()) {
            Some(v) => v,
            None => {
                return Err(with_location("fscan 输出缺少或无效 port (", loc));
            },
        },
        None => {
            return Err(with_location("fscan 输出缺少或无效 port (", loc));
        },
    };
    let proto0 = match field_get(fields, "protocol") {
        Some(p) => {
            let t = crate::text::trim_str(p.as_str());
            let l = crate::text::ascii_lower_exec(t.as_slice());
            if l.len() > 0 {
                string_of(l.as_slice())
            } else {
                owned("tcp")
            }
        },
        None => owned("tcp"),
    };
    let protocol = match map_for_exec(&rule.normalize_maps, "protocol") {
        Some(nm) => match pair_get(nm, chars_of(proto0.as_str()).as_slice()) {
            Some(x) => owned(x.as_str()),
            None => proto0,
        },
        None => proto0,
    };
    let service = match trimmed_field_exec(fields, "service") {
        Some(s) => s,
        None => owned("unknown"),
    };
    let banner = trimmed_field_exec(fields, "banner");
    Ok(ParsedFscanRecord { target, port, protocol, service, banner, metadata_json: compact })
}

/// The result of one line of fscan output.
pub fn build_parsed_record(line: &str, rule: &ToolRule, source_file: &str, line_no: usize) -> (res: Result<ParsedFscanRecord, AppError>)
    ensures
        match res {
            Ok(r) => fscan_record(line@, *rule, source_file@, line_no as nat) == Ok::<FscanRecordView, Seq<char>>(r@),
            Err(e) => e is Task && fscan_record(line@, *rule, source_file@, line_no as nat) == Err::<FscanRecordView, Seq<char>>(e->Task_0@),
        },
{
    let loc = location_exec(source_file, line_no);
    match read_line_fields(line, rule, true) {
        LineFields::ParseError(e) => {
            let a = join_str("解析 fscan JSON 失败 (", loc.as_str());
            let b = join_str(a.as_str(), "): ");
            Err(AppError::Task(join_str(b.as_str(), e.as_str())))
        },
        LineFields::NotObject => Err(with_location("fscan 输出不是 JSON 对象 (", &loc)),
        LineFields::Fields(fields, compact) => record_from_fields(&fields, rule, &loc, compact),
    }
}

/// The port row of a result: always open.
pub open spec fn fscan_port_row(r: FscanRecordView, row: PortRow) -> bool {
    &&& row.ip@ == r.target
    &&& row.port as int == r.port
    &&& row.protocol@ == r.protocol
    &&& row.state@ == "open"@
    &&& row.service@ == r.service
    &&& row.tool@ == "fscan"@
}

/// The open-port finding of a result, merged with earlier ones by target,
/// port and protocol.
pub open spec fn fscan_finding(r: FscanRecordView, binary: Seq<char>, f: NewFinding) -> bool {
    &&& opt_view(f.dedupe_key) == Some(
        "fscan|"@ + ascii_lower(r.target) + "|"@ + int_text(r.port) + "|"@ + ascii_lower(r.protocol),
    )
    &&& f.finding_type@ == "open_port"@
    &&& f.severity@ == "info"@
    &&& f.title@ == "Open "@ + ascii_upper(r.protocol) + " port "@ + int_text(r.port)
    &&& opt_view(f.detail) == Some(
        "service="@ + r.service + ", banner="@ + match r.banner {
            Some(b) => b,
            None => "-"@,
        },
    )
    &&& opt_view(f.ip) == Some(r.target)
    &&& f.port == Some(r.port as i64)
    &&& opt_view(f.protocol) == Some(r.protocol)
    &&& opt_view(f.source_tool) == Some("fscan"@)
    &&& opt_view(f.source_command) == Some(binary)
    &&& opt_view(f.metadata_json) == Some(r.metadata_json)
}

/// What a result stores: its port row and its finding.
pub fn record_outputs(record: &ParsedFscanRecord, binary: &str) -> (res: (PortRow, NewFinding))
    ensures
        fscan_port_row(record@, res.0),
        fscan_finding(record@, binary@, res.1),
{
    let port_text = string_of(crate::text::int_text_exec(record.port as i64).as_slice());
    let row = PortRow {
        ip: owned(record.target.as_str()),
        port: record.port,
        protocol: owned(record.protocol.as_str()),
        state: owned("open"),
        service: owned(record.service.as_str()),
        tool: owned("fscan"),
    };
    let tl = string_of(crate::text::ascii_lower_exec(chars_of(record.target.as_str()).as_slice()).as_slice());
    let pl = string_of(crate::text::ascii_lower_exec(chars_of(record.protocol.as_str()).as_slice()).as_slice());
    let pu = string_of(crate::text::ascii_upper_exec(chars_of(record.protocol.as_str()).as_slice()).as_slice());
    let k1 = join_str("fscan|", tl.as_str());
    let k2 = join_str(k1.as_str(), "|");
    let k3 = join_str(k2.as_str(), port_text.as_str());
    let k4 = join_str(k3.as_str(), "|");
    let key = join_str(k4.as_str(), pl.as_str());
    let t1 = join_str("Open ", pu.as_str());
    let t2 = join_str(t1.as_str(), " port ");
    let title = join_str(t2.as_str(), port_text.as_str());
    let d1 = join_str("service=", record.service.as_str());
    let d2 = join_str(d1.as_str(), ", banner=");
    let detail = match &record.banner {
        Some(b) => join_str(d2.as_str(), b.as_str()),
        None => join_str(d2.as_str(), "-"),
    };
    let finding = NewFinding {
        dedupe_key: Some(key),
        finding_type: owned("open_port"),
        severity: owned("info"),
        title,
        detail: Some(detail),
        ip: Some(owned(record.target.as_str())),
        port: Some(record.port as i64),
        protocol: Some(owned(record.protocol.as_str())),
        source_tool: Some(owned("fscan")),
        source_command: Some(owned(binary)),
        metadata_json: Some(owned(record.metadata_json.as_str())),
    };
    (row, finding)
}

/// The records of the numbered lines that parse, in line order.
pub open spec fn fscan_accepted(nl: Seq<(nat, Seq<char>)>, rule: ToolRule, file: Seq<char>) -> Seq<FscanRecordView>
    decreases nl.len(),
{
    if nl.len() == 0 {
        Seq::empty()
    } else {
        let rest = fscan_accepted(nl.drop_last(), rule, file);
        match fscan_record(nl.last().1, rule, file, nl.last().0) {
            Ok(r) => rest.push(r),
            Err(_) => rest,
        }
    }
}

/// The messages of the numbered lines that do not parse, in line order.
pub open spec fn fscan_rejected(nl: Seq<(nat, Seq<char>)>, rule: ToolRule, file: Seq<char>) -> Seq<Seq<char>>
    decreases nl.len(),
{
    if nl.len() == 0 {
        Seq::empty()
    } else {
        let rest = fscan_rejected(nl.drop_last(), rule, file);
        match fscan_record(nl.last().1, rule, file, nl.last().0) {
            Ok(_) => rest,
            Err(m) => rest.push(m),
        }
    }
}

/// The outputs of a whole fscan output file: output `k` is the port row
/// and finding of the `k`-th line that parses, and skip `k` the message of
/// the `k`-th line that does not, both in line order.
pub open spec fn fscan_file_outputs(
    content: Seq<char>,
    rule: ToolRule,
    file: Seq<char>,
    binary: Seq<char>,
    res: (Vec<(PortRow, NewFinding)>, Vec<String>),
) -> bool {
    &&& res.0@.len() == fscan_accepted(numbered_lines(content), rule, file).len()
    &&& forall|k: int|
        0 <= k < res.0@.len() ==> fscan_port_row(
            fscan_accepted(numbered_lines(content), rule, file)[k],
            (#[trigger] res.0@[k]).0,
        ) && fscan_finding(fscan_accepted(numbered_lines(content), rule, file)[k], binary, res.0@[k].1)
    &&& views(res.1@) == fscan_rejected(numbered_lines(content), rule, file)
}

proof fn lemma_accepted_rejected_count(nl: Seq<(nat, Seq<char>)>, rule: ToolRule, file: Seq<char>)
    ensures
        fscan_accepted(nl, rule, file).len() + fscan_rejected(nl, rule, file).len() == nl.len(),
    decreases nl.len(),
{
    if nl.len() > 0 {
        lemma_accepted_rejected_count(nl.drop_last(), rule, file);
    }
}

/// What a whole fscan output file yields: every non-blank line is either
/// stored or skipped with its message, so reading never fails; each stored
/// line gives an open port row from fscan and an informational open-port
/// finding keyed by tool, lower-cased target, port and lower-cased
/// protocol.
pub proof fn law_fscan_file(
    content: Seq<char>,
    rule: ToolRule,
    file: Seq<char>,
    binary: Seq<char>,
    res: (Vec<(PortRow, NewFinding)>, Vec<String>),
)
    requires
        fscan_file_outputs(content, rule, file, binary, res),
    ensures
        res.0@.len() + res.1@.len() == numbered_lines(content).len(),
        forall|k: int|
            0 <= k < res.0@.len() ==> {
                let r = fscan_accepted(numbered_lines(content), rule, file)[k];
                &&& (#[trigger] res.0@[k]).0.state@ == "open"@
                &&& res.0@[k].0.tool@ == "fscan"@
                &&& res.0@[k].1.finding_type@ == "open_port"@
                &&& res.0@[k].1.severity@ == "info"@
                &&& opt_view(res.0@[k].1.dedupe_key) == Some(
                    "fscan|"@ + ascii_lower(r.target) + "|"@ + int_text(r.port) + "|"@ + ascii_lower(r.protocol),
                )
            },
{
    lemma_accepted_rejected_count(numbered_lines(content), rule, file);
    assert(views(res.1@).len() == res.1@.len());
}

/// The outputs of an output file: output `k` is the port row and finding
/// of the `k`-th line that parses, and skip `k` the message of the `k`-th
/// line that does not, both in line order.
pub fn process_output(content: &str, rule: &ToolRule, source_file: &str, binary: &str) -> (res: (Vec<(PortRow, NewFinding)>, Vec<String>))
    ensures
        fscan_file_outputs(content@, *rule, source_file@, binary@, res),
{
    let cs = chars_of(content);
    let ls = crate::text::lines_exec(cs.as_slice());
    let ghost lv = ls@.map_values(|v: Vec<char>| v@);
    let mut outs: Vec<(PortRow, NewFinding)> = Vec::new();
    let mut skipped: Vec<String> = Vec::new();
    let mut i: usize = 0;
    assert(numbered_from(lv, 0) == numbered_lines(content@));
    assert(views(skipped@) =~= Seq::<Seq<char>>::empty());
    while i < ls.len()
        invariant
            i <= lv.len(),
            lv == ls@.map_values(|v: Vec<char>| v@),
            numbered_lines(content@) == numbered_prefix(lv, i as nat) + numbered_from(lv, i as nat),
            outs@.len() == fscan_accepted(numbered_prefix(lv, i as nat), *rule, source_file@).len(),
            forall|k: int|
                0 <= k < outs@.len() ==> fscan_port_row(
                    fscan_accepted(numbered_prefix(lv, i as nat), *rule, source_file@)[k],
                    (#[trigger] outs@[k]).0,
                ) && fscan_finding(
                    fscan_accepted(numbered_prefix(lv, i as nat), *rule, source_file@)[k],
                    binary@,
                    outs@[k].1,
                ),
            views(skipped@) == fscan_rejected(numbered_prefix(lv, i as nat), *rule, source_file@),
        decreases lv.len() - i,
    {
        let line = string_of(ls[i].as_slice());
        assert(line@ == lv[i as int]);
        let blank = crate::text::trim_str(line.as_str()).len() == 0;
        proof {
            crate::commands::httpx::lemma_numbered_step_pub(lv, i as nat);
        }
        let ghost p0 = numbered_prefix(lv, i as nat);
        let ghost p1 = numbered_prefix(lv, (i + 1) as nat);
        if !blank {
            proof {
                assert(p1 == p0.push(((i + 1) as nat, lv[i as int])));
                assert(p1.drop_last() =~= p0);
                assert(p1.last() == ((i + 1) as nat, lv[i as int]));
            }
            match build_parsed_record(line.as_str(), rule, source_file, i + 1) {
                Ok(r) => {
                    let o = record_outputs(&r, binary);
                    let ghost before = outs@;
                    outs.push(o);
                    proof {
                        let a1 = fscan_accepted(p1, *rule, source_file@);
                        let a0 = fscan_accepted(p0, *rule, source_file@);
                        assert(a1 == a0.push(r@));
                        assert(fscan_rejected(p1, *rule, source_file@) == fscan_rejected(p0, *rule, source_file@));
                        assert forall|k: int| 0 <= k < outs@.len() implies fscan_port_row(
                            a1[k],
                            (#[trigger] outs@[k]).0,
                        ) && fscan_finding(a1[k], binary@, outs@[k].1) by {
                            if k < before.len() {
                                assert(outs@[k] == before[k]);
                                assert(a1[k] == a0[k]);
                            }
                        }
                    }
                },
                Err(e) => {
                    let msg = match e {
                        AppError::Task(m) => m,
                        _ => String::new(),
                    };
                    let ghost before = skipped@;
                    skipped.push(msg);
                    proof {
                        let a1 = fscan_accepted(p1, *rule, source_file@);
                        let a0 = fscan_accepted(p0, *rule, source_file@);
                        assert(a1 == a0);
                        assert(fscan_rejected(p1, *rule, source_file@) == fscan_rejected(
                            p0,
                            *rule,
                            source_file@,
                        ).push(msg@));
                        assert(views(skipped@) =~= views(before).push(msg@));
                    }
                },
            }
        } else {
            proof {
                assert(p1 == p0);
            }
        }
        i = i + 1;
    }
    proof {
        assert(numbered_from(lv, i as nat) =~= Seq::<(nat, Seq<char>)>::empty());
        assert(numbered_lines(content@) =~= numbered_prefix(lv, i as nat));
    }
    (outs, skipped)
}

// ---------------------------------------------------------------------------
// The command
// ---------------------------------------------------------------------------

/// Internal-network scanning with fscan.
#[derive(Debug, Clone)]
pub struct FscanCommand {
    binary: String,
    rule: Option<ToolRule>,
}

/// The arguments fscan runs with when neither the caller nor the rule gives
/// any.
pub open spec fn fscan_default_args() -> Seq<Seq<char>> {
    seq!["-json"@, "-h"@, "{{target}}"@]
}

impl FscanCommand {
    /// The program to run.
    pub closed spec fn binary_view(&self) -> Seq<char> {
        self.binary@
    }

    /// The output rule, when one was loaded.
    pub closed spec fn rule_view(&self) -> Option<ToolRule> {
        self.rule
    }

    /// fscan at `binary`, without a loaded rule.
    pub fn new(binary: String) -> (res: Self)
        ensures
            res.binary_view() == binary@,
            res.rule_view() is None,
    {
        FscanCommand { binary, rule: None }
    }

    /// fscan at `binary` with its output rule.
    pub fn with_rule(binary: String, rule: ToolRule) -> (res: Self)
        ensures
            res.binary_view() == binary@,
            res.rule_view() == Some(rule),
    {
        FscanCommand { binary, rule: Some(rule) }
    }

    /// The command identifier.
    pub fn id(&self) -> (res: &'static str)
        ensures
            res@ == "fscan"@,
    {
        "fscan"
    }

    /// A short description.
    pub fn description(&self) -> (res: &'static str)
        ensures
            res@ == "Fscan Fast Internal Scanner"@,
    {
        "Fscan Fast Internal Scanner"
    }

    /// The output rule; a configuration error when none was loaded.
    pub fn load_rule(&self) -> (res: Result<&ToolRule, AppError>)
        ensures
            match res {
                Ok(r) => self.rule_view() == Some(*r),
                Err(e) => self.rule_view() is None && e is Config,
            },
    {
        match &self.rule {
            Some(r) => Ok(r),
            None => Err(AppError::Config(owned("加载 fscan 规则失败: 未加载规则"))),
        }
    }

    /// The rule's argument template for one target.
    pub fn build_target_args(rule: &ToolRule, target: &str) -> (res: Vec<String>)
        ensures
            views(res@) == views(rule.args_template@).map_values(
                |a: Seq<char>| crate::text::replace_all(a, "{{target}}"@, target@),
            ),
    {
        build_target_args(rule, target)
    }

    /// The command over `targets`: the caller's arguments, else the rule's,
    /// else the defaults.
    pub fn build_spec(&self, targets: &[String], args: &[String]) -> (res: CommandSpec)
        ensures
            res.id@ == "fscan"@,
            res.program@ == self.binary_view(),
            res.targets@ == targets@,
            res.env is None,
            res.cwd is None,
            views(res.args@) == if args@.len() > 0 {
                views(args@)
            } else if self.rule_view() matches Some(r) && r.args_template@.len() > 0 {
                views(self.rule_view()->0.args_template@)
            } else {
                fscan_default_args()
            },
    {
        let merged: Vec<String> = if args.len() > 0 {
            crate::text::clone_strings(args)
        } else {
            match &self.rule {
                Some(r) => crate::text::clone_strings(r.args_template.as_slice()),
                None => Vec::new(),
            }
        };
        let merged = if merged.len() == 0 {
            let mut v: Vec<String> = Vec::new();
            v.push(owned("-json"));
            v.push(owned("-h"));
            v.push(owned("{{target}}"));
            assert(views(v@) =~= fscan_default_args());
            v
        } else {
            merged
        };
        CommandSpec {
            id: owned("fscan"),
            program: owned(self.binary.as_str()),
            args: merged,
            targets: crate::text::clone_strings(targets),
            env: None,
            cwd: None,
        }
    }

    /// The rule for processing output; it must describe JSON lines.
    pub fn output_rule(&self) -> (res: Result<&ToolRule, AppError>)
        ensures
            match res {
                Ok(r) => self.rule_view() == Some(*r) && r.format is Jsonl,
                Err(e) => e is Config,
            },
    {
        let rule = self.load_rule()?;
        match &rule.format {
            ParseFormat::Jsonl => Ok(rule),
            ParseFormat::Other(name) => Err(
                AppError::Config(join_str("fscan 当前仅支持 jsonl 解析，实际为 ", name.as_str())),
            ),
        }
    }
}

/// A port written as its number, alone or followed by `/` and a protocol
/// (`445`, `445/tcp`), is that number.
pub proof fn law_port_of_number(n: nat, proto: Seq<char>)
    requires
        n <= i32::MAX,
        proto.len() == 0 || !crate::text::is_ws(proto.last()),
    ensures
        port_of(crate::text::decimal(n)) == Some(n as int),
        port_of(crate::text::decimal(n) + "/"@ + proto) == Some(n as int),
{
    reveal_strlit("/");
    let d = crate::text::decimal(n);
    crate::text::law_decimal_reads_back(n);
    crate::text::law_int_text_reads_back(n as int, i32::MIN as int, i32::MAX as int);
    assert(crate::text::int_text(n as int) == d);
    assert(!crate::text::is_ws(d[0]));
    assert(!crate::text::is_ws(d.last()));
    assert(crate::text::trim_start(d) == d);
    assert(crate::text::trim_end(d) == d);
    assert(parse_i32(d) == Some(n as int));
    let t = d + "/"@ + proto;
    assert(t[0] == d[0]);
    assert(t.last() == if proto.len() == 0 {
        '/'
    } else {
        proto.last()
    });
    assert(crate::text::trim_start(t) == t);
    assert(crate::text::trim_end(t) == t);
    assert(t[d.len() as int] == '/');
    assert(!crate::text::all_digits(t)) by {
        assert(!crate::text::is_ascii_digit(t[d.len() as int]));
    }
    assert(t[0] != '+' && t[0] != '-');
    assert(parse_i32(t) is None);
    crate::text::lemma_index_of(t, '/');
    assert(crate::text::index_of(t, '/') == Some(d.len() as int)) by {
        match crate::text::index_of(t, '/') {
            Some(i) => {
                if i < d.len() {
                    assert(t[i] == d[i]);
                    assert(crate::text::is_ascii_digit(d[i]));
                }
            },
            None => {},
        }
    }
    assert(before_char(t, '/') =~= d);
}

/// An fscan result names its target by the `target` field before the `host`
/// field, trimmed; without a protocol field (and no normalisation of
/// protocols) it is `tcp`, and without a service `unknown`. Its finding is
/// an informational open port, and results that agree on target and
/// protocol (in ASCII lower case) and on port are merged into one finding.
pub proof fn law_fscan_results(
    m: Map<Seq<char>, Seq<char>>,
    rule: ToolRule,
    loc: Seq<char>,
    compact: Seq<char>,
    r1: FscanRecordView,
    b1: Seq<char>,
    f1: NewFinding,
    r2: FscanRecordView,
    b2: Seq<char>,
    f2: NewFinding,
)
    requires
        fscan_finding(r1, b1, f1),
        fscan_finding(r2, b2, f2),
    ensures
        fscan_from_fields(m, rule, loc, compact) matches Ok(r) ==> ({
            &&& (m.contains_key("target"@) ==> r.target == trim(m["target"@]))
            &&& (!m.contains_key("target"@) ==> r.target == trim(m["host"@]))
            &&& (!m.contains_key("protocol"@) && map_for(maps_view(rule.normalize_maps@), "protocol"@) is None
                ==> r.protocol == "tcp"@)
            &&& (!m.contains_key("service"@) ==> r.service == "unknown"@)
            &&& r.port == port_of(m["port"@])->0
        }),
        f1.finding_type@ == "open_port"@ && f1.severity@ == "info"@,
        (ascii_lower(r1.target) == ascii_lower(r2.target) && r1.port == r2.port && ascii_lower(r1.protocol)
            == ascii_lower(r2.protocol)) ==> opt_view(f1.dedupe_key) == opt_view(f2.dedupe_key),
{
}

} // verus!
