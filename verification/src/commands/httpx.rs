//! HTTP fingerprinting with httpx: its command line, and how its JSON lines
//! become port results and findings.
use vstd::prelude::*;
use crate::commands::rules::{
    build_target_args, field_get, field_or_empty, field_or_empty_exec, location, location_exec,
    map_for, map_for_exec, maps_view, pair_get, pair_lookup, pairs_map, pairs_view, read_line_fields,
    has_persistable_field, line_fields_ok, LineFields, ToolRule, ParseFormat,
};
use crate::config::opt_view;
use crate::records::{CommandSpec, NewFinding, PortRow};
use crate::tasks::AppError;
use crate::text::{
    before_char, chars_of, decimal, has_prefix, index_of, int_text, join_str, owned, parse_int,
    rsplit_once_char, split_once, string_of, trim, views,
};

verus! {

// ---------------------------------------------------------------------------
// URLs
// ---------------------------------------------------------------------------

/// `text` as an `i32`.
pub open spec fn parse_i32(text: Seq<char>) -> Option<int> {
    parse_int(text, i32::MIN as int, i32::MAX as int)
}

fn parse_i32_exec(text: &[char]) -> (res: Option<i32>)
    ensures
        match res {
            Some(v) => parse_i32(text@) == Some(v as int),
            None => parse_i32(text@) is None,
        },
{
    match crate::text::parse_int_exec(text, i32::MIN as i64, i32::MAX as i64) {
        Some(v) => Some(v as i32),
        None => None,
    }
}

/// Scheme, host and port of a URL, as far as it names them. The authority
/// is what precedes the first `/` after `scheme://`; a bracketed IPv6 host
/// loses its brackets, and a port counts only when it parses.
pub open spec fn url_host_port(url: Seq<char>) -> (Option<Seq<char>>, Option<Seq<char>>, Option<int>) {
    let t = trim(url);
    if t.len() == 0 {
        (None, None, None)
    } else {
        let scheme = match split_once(t, "://"@) {
            Some((s, r)) => Some(s),
            None => None,
        };
        let rest = match split_once(t, "://"@) {
            Some((s, r)) => r,
            None => t,
        };
        let auth = before_char(rest, '/');
        if auth.len() == 0 {
            (scheme, None, None)
        } else if auth[0] == '[' && index_of(auth, ']') is Some {
            let e = index_of(auth, ']')->0;
            let remain = auth.skip(e + 1);
            let port = if remain.len() > 0 && remain[0] == ':' {
                parse_i32(remain.skip(1))
            } else {
                None
            };
            (scheme, Some(auth.subrange(1, e)), port)
        } else {
            match rsplit_once_char(auth, ':') {
                Some((h, p)) => if index_of(h, ':') is None && parse_i32(p) is Some {
                    (scheme, Some(h), parse_i32(p))
                } else {
                    (scheme, Some(auth), None)
                },
                None => (scheme, Some(auth), None),
            }
        }
    }
}

/// Scheme, host and port of a URL, as far as it names them.
pub fn parse_url_host_port(url: &str) -> (res: (Option<String>, Option<String>, Option<i32>))
    ensures
        (opt_view(res.0), opt_view(res.1), match res.2 {
            Some(p) => Some(p as int),
            None => None,
        }) == url_host_port(url@),
{
    let t = crate::text::trim_str(url);
    if t.len() == 0 {
        return (None, None, None);
    }
    proof {
        reveal_strlit("://");
    }
    let sep = chars_of("://");
    let (scheme, rest): (Option<String>, Vec<char>) = match crate::text::split_once_exec(t.as_slice(), sep.as_slice()) {
        Some((s, r)) => (Some(string_of(s.as_slice())), r),
        None => (None, t),
    };
    let auth = crate::text::before_char_exec(rest.as_slice(), '/');
    if auth.len() == 0 {
        return (scheme, None, None);
    }
    if auth[0] == '[' {
        proof {
            crate::text::lemma_index_of(auth@, ']');
        }
        match crate::text::index_of_exec(auth.as_slice(), ']') {
            Some(e) => {
                let host = crate::text::slice_of(auth.as_slice(), 1, e);
                let remain = crate::text::slice_of(auth.as_slice(), e + 1, auth.len());
                assert(remain@ =~= auth@.skip(e + 1));
                let port = if remain.len() > 0 && remain[0] == ':' {
                    let p = crate::text::slice_of(remain.as_slice(), 1, remain.len());
                    assert(p@ =~= remain@.skip(1));
                    parse_i32_exec(p.as_slice())
                } else {
                    None
                };
                return (scheme, Some(string_of(host.as_slice())), port);
            },
            None => {},
        }
    }
    match crate::text::rsplit_once_char_exec(auth.as_slice(), ':') {
        Some((h, p)) => {
            if !crate::text::has_char(h.as_slice(), ':') {
                match parse_i32_exec(p.as_slice()) {
                    Some(port) => {
                        return (scheme, Some(string_of(h.as_slice())), Some(port));
                    },
                    None => {},
                }
            }
        },
        None => {},
    }
    (scheme, Some(string_of(auth.as_slice())), None)
}

/// The port a scheme implies: 443 for `https`, 80 otherwise.
pub open spec fn scheme_port(scheme: Seq<char>) -> int {
    if scheme == "https"@ {
        443
    } else {
        80
    }
}

/// The port a scheme implies.
pub fn default_port_for_scheme(scheme: &str) -> (res: i32)
    ensures
        res as int == scheme_port(scheme@),
{
    if crate::text::eq_str(chars_of(scheme).as_slice(), "https") {
        443
    } else {
        80
    }
}

// ---------------------------------------------------------------------------
// Records
// ---------------------------------------------------------------------------

/// One httpx result.
#[derive(Debug, Clone)]
pub struct ParsedHttpxRecord {
    pub target: String,
    pub host: String,
    pub url: String,
    pub title: Option<String>,
    pub status_code: Option<i32>,
    pub scheme: String,
    pub port: i32,
}

/// The mathematical content of a result.
pub struct HttpxRecordView {
    pub target: Seq<char>,
    pub host: Seq<char>,
    pub url: Seq<char>,
    pub title: Option<Seq<char>>,
    pub status_code: Option<int>,
    pub scheme: Seq<char>,
    pub port: int,
}

impl View for ParsedHttpxRecord {
    type V = HttpxRecordView;

    open spec fn view(&self) -> HttpxRecordView {
        HttpxRecordView {
            target: self.target@,
            host: self.host@,
            url: self.url@,
            title: opt_view(self.title),
            status_code: match self.status_code {
                Some(c) => Some(c as int),
                None => None,
            },
            scheme: self.scheme@,
            port: self.port as int,
        }
    }
}

/// Some field worth keeping is present.
pub open spec fn persistable(m: Map<Seq<char>, Seq<char>>, targets: Seq<String>) -> bool {
    exists|k: int| 0 <= k < targets.len() && m.contains_key((#[trigger] targets[k])@)
}

/// The result the normalised fields of a line describe. The host is the
/// field's, else the URL's, else the target; the target is the field's,
/// else the host; the scheme is the field's, else the URL's, else `http`,
/// then normalised; the port is the URL's, else the scheme's.
pub open spec fn httpx_from_fields(m: Map<Seq<char>, Seq<char>>, rule: ToolRule, loc: Seq<char>) -> Result<HttpxRecordView, Seq<char>> {
    if !persistable(m, rule.persist_targets@) {
        Err("httpx 输出不包含可持久化字段 ("@ + loc + ")"@)
    } else {
        let raw_target = field_or_empty(m, "target"@);
        let raw_host = field_or_empty(m, "host"@);
        let raw_url = field_or_empty(m, "url"@);
        if raw_target.len() == 0 && raw_host.len() == 0 && raw_url.len() == 0 {
            Err("httpx 输出缺少 target/host/url ("@ + loc + ")"@)
        } else {
            let (us, uh, up) = url_host_port(raw_url);
            let host = if raw_host.len() > 0 {
                raw_host
            } else {
                match uh {
                    Some(h) => h,
                    None => raw_target,
                }
            };
            let target = if raw_target.len() > 0 {
                raw_target
            } else {
                host
            };
            let scheme0 = if m.contains_key("scheme"@) {
                m["scheme"@]
            } else {
                match us {
                    Some(s) => s,
                    None => "http"@,
                }
            };
            let scheme = match map_for(maps_view(rule.normalize_maps@), "scheme"@) {
                Some(nm) => match pair_lookup(nm, scheme0) {
                    Some(x) => x,
                    None => scheme0,
                },
                None => scheme0,
            };
            let status = if m.contains_key("status_code"@) {
                parse_i32(m["status_code"@])
            } else {
                None
            };
            let port = match up {
                Some(p) => p,
                None => scheme_port(scheme),
            };
            let title = if m.contains_key("title"@) && trim(m["title"@]).len() > 0 {
                Some(trim(m["title"@]))
            } else {
                None
            };
            Ok(
                HttpxRecordView {
                    target,
                    host,
                    url: raw_url,
                    title,
                    status_code: status,
                    scheme,
                    port,
                },
            )
        }
    }
}

/// The result of one line of httpx output, or the error that stops the
/// processing: the line is not JSON, not an object, has no field worth
/// keeping, or names no target, host or URL.
pub open spec fn httpx_record(line: Seq<char>, rule: ToolRule, file: Seq<char>, line_no: nat) -> Result<HttpxRecordView, Seq<char>> {
    let loc = location(file, line_no);
    match crate::json::json_document(line) {
        Err(e) => Err("解析 httpx JSON 失败 ("@ + loc + "): "@ + e),
        Ok((v, compact)) => match v {
            crate::json::JsonValue::Object(obj) => httpx_from_fields(
                crate::commands::rules::normalized_fields(
                    crate::commands::rules::mapped_fields(obj@, pairs_view(rule.field_mappings@)),
                    maps_view(rule.normalize_maps@),
                    false,
                ),
                rule,
                loc,
            ),
            _ => Err("httpx 输出不是 JSON 对象 ("@ + loc + ")"@),
        },
    }
}

fn task_error(msg: String) -> (res: AppError)
    ensures
        res == AppError::Task(msg),
{
    AppError::Task(msg)
}

fn record_from_fields(fields: &Vec<(String, String)>, rule: &ToolRule, loc: &String) -> (res: Result<ParsedHttpxRecord, AppError>)
    ensures
        match res {
            Ok(r) => httpx_from_fields(pairs_map(pairs_view(fields@)), *rule, loc@) == Ok::<HttpxRecordView, Seq<char>>(r@),
            Err(e) => e is Task && httpx_from_fields(pairs_map(pairs_view(fields@)), *rule, loc@) == Err::<HttpxRecordView, Seq<char>>(e->Task_0@),
        },
{
    let ghost m = pairs_map(pairs_view(fields@));
    if !has_persistable_field(fields, &rule.persist_targets) {
        let a = join_str("httpx 输出不包含可持久化字段 (", loc.as_str());
        return Err(task_error(join_str(a.as_str(), ")")));
    }
    let raw_target = field_or_empty_exec(fields, "target");
    let raw_host = field_or_empty_exec(fields, "host");
    let raw_url = field_or_empty_exec(fields, "url");
    let nt = chars_of(raw_target.as_str()).len();
    let nh = chars_of(raw_host.as_str()).len();
    let nu = chars_of(raw_url.as_str()).len();
    if nt == 0 && nh == 0 && nu == 0 {
        let a = join_str("httpx 输出缺少 target/host/url (", loc.as_str());
        return Err(task_error(join_str(a.as_str(), ")")));
    }
    let (us, uh, up) = parse_url_host_port(raw_url.as_str());
    let host = if nh > 0 {
        owned(raw_host.as_str())
    } else {
        match uh {
            Some(h) => h,
            None => owned(raw_target.as_str()),
        }
    };
    let target = if nt > 0 {
        raw_target
    } else {
        owned(host.as_str())
    };
    let scheme0 = match field_get(fields, "scheme") {
        Some(s) => s,
        None => match us {
            Some(s) => s,
            None => owned("http"),
        },
    };
    let scheme = match map_for_exec(&rule.normalize_maps, "scheme") {
        Some(nm) => match pair_get(nm, chars_of(scheme0.as_str()).as_slice()) {
            Some(x) => owned(x.as_str()),
            None => scheme0,
        },
        None => scheme0,
    };
    let status = match field_get(fields, "status_code") {
        Some(s) => parse_i32_exec(chars_of(s.as_str()).as_slice()),
        None => None,
    };
    let port = match up {
        Some(p) => p,
        None => default_port_for_scheme(scheme.as_str()),
    };
    let title = match field_get(fields, "title") {
        Some(t) => {
            let tt = crate::text::trim_str(t.as_str());
            if tt.len() > 0 {
                Some(string_of(tt.as_slice()))
            } else {
                None
            }
        },
        None => None,
    };
    Ok(ParsedHttpxRecord { target, host, url: raw_url, title, status_code: status, scheme, port })
}

/// The result of one line of httpx output.
pub fn build_parsed_record(line: &str, rule: &ToolRule, source_file: &str, line_no: usize) -> (res: Result<ParsedHttpxRecord, AppError>)
    ensures
        match res {
            Ok(r) => httpx_record(line@, *rule, source_file@, line_no as nat) == Ok::<HttpxRecordView, Seq<char>>(r@),
            Err(e) => e is Task && httpx_record(line@, *rule, source_file@, line_no as nat) == Err::<HttpxRecordView, Seq<char>>(e->Task_0@),
        },
{
    let loc = location_exec(source_file, line_no);
    match read_line_fields(line, rule, false) {
        LineFields::ParseError(e) => {
            let a = join_str("解析 httpx JSON 失败 (", loc.as_str());
            let b = join_str(a.as_str(), "): ");
            Err(task_error(join_str(b.as_str(), e.as_str())))
        },
        LineFields::NotObject => {
            let a = join_str("httpx 输出不是 JSON 对象 (", loc.as_str());
            Err(task_error(join_str(a.as_str(), ")")))
        },
        LineFields::Fields(fields, _) => record_from_fields(&fields, rule, &loc),
    }
}

/// A result is worth a finding when it has a title or an error status.
pub open spec fn worth_finding(r: HttpxRecordView) -> bool {
    r.title is Some || (r.status_code matches Some(c) && c >= 400)
}

/// Whether a result is worth a finding.
pub fn should_write_finding(record: &ParsedHttpxRecord) -> (res: bool)
    ensures
        res == worth_finding(record@),
{
    record.title.is_some() || match record.status_code {
        Some(c) => c >= 400,
        None => false,
    }
}

/// Severity of an HTTP status (none counts as 0): 5xx high, 401 and 403
/// medium, other 4xx low, anything else info.
pub open spec fn status_severity(code: Option<int>) -> Seq<char> {
    let c = match code {
        Some(c) => c,
        None => 0,
    };
    if 500 <= c <= 599 {
        "high"@
    } else if c == 401 || c == 403 {
        "medium"@
    } else if 400 <= c <= 499 {
        "low"@
    } else {
        "info"@
    }
}

/// Severity of an HTTP status.
pub fn finding_severity(status_code: Option<i32>) -> (res: &'static str)
    ensures
        res@ == status_severity(match status_code {
            Some(c) => Some(c as int),
            None => None,
        }),
{
    let c: i32 = match status_code {
        Some(c) => c,
        None => 0,
    };
    if 500 <= c && c <= 599 {
        "high"
    } else if c == 401 || c == 403 {
        "medium"
    } else if 400 <= c && c <= 499 {
        "low"
    } else {
        "info"
    }
}

/// The port row of a result: an error state for error statuses.
pub open spec fn httpx_port_row(r: HttpxRecordView, row: PortRow) -> bool {
    &&& row.ip@ == r.target
    &&& row.port as int == r.port
    &&& row.protocol@ == r.scheme
    &&& row.state@ == if r.status_code matches Some(c) && c >= 400 {
        "error"@
    } else {
        "open"@
    }
    &&& row.service@ == "http"@
    &&& row.tool@ == "httpx"@
}

/// A status as text, `-` when there is none.
pub open spec fn status_text(code: Option<int>) -> Seq<char> {
    match code {
        Some(c) => int_text(c),
        None => "-"@,
    }
}

/// The finding of a result worth one.
pub open spec fn httpx_finding(r: HttpxRecordView, f: NewFinding) -> bool {
    &&& f.dedupe_key is None
    &&& f.finding_type@ == "http_response"@
    &&& f.severity@ == status_severity(r.status_code)
    &&& f.title@ == match r.title {
        Some(t) => t,
        None => "HTTP "@ + int_text(
            match r.status_code {
                Some(c) => c,
                None => 0,
            },
        ) + " on "@ + r.host,
    }
    &&& opt_view(f.detail) == Some(
        "url="@ + (if r.url.len() == 0 {
            "-"@
        } else {
            r.url
        }) + ", status_code="@ + status_text(r.status_code),
    )
    &&& opt_view(f.ip) == Some(r.target)
    &&& f.port == Some(r.port as i64)
    &&& opt_view(f.protocol) == Some(r.scheme)
    &&& opt_view(f.source_tool) == Some("httpx"@)
    &&& opt_view(f.source_command) == Some("httpx"@)
    &&& opt_view(f.metadata_json) == Some(
        "{\"status_code\":"@ + match r.status_code {
            Some(c) => int_text(c),
            None => "null"@,
        } + ",\"url\":"@ + crate::json::json_quoted(r.url) + "}"@,
    )
}

/// What a result stores: its port row, and its finding when it is worth
/// one.
pub fn record_outputs(record: &ParsedHttpxRecord) -> (res: (PortRow, Option<NewFinding>))
    ensures
        httpx_port_row(record@, res.0),
        match res.1 {
            Some(f) => worth_finding(record@) && httpx_finding(record@, f),
            None => !worth_finding(record@),
        },
{
    let error = match record.status_code {
        Some(c) => c >= 400,
        None => false,
    };
    let row = PortRow {
        ip: owned(record.target.as_str()),
        port: record.port,
        protocol: owned(record.scheme.as_str()),
        state: owned(if error { "error" } else { "open" }),
        service: owned("http"),
        tool: owned("httpx"),
    };
    if !should_write_finding(record) {
        return (row, None);
    }
    let code_or_zero: i32 = match record.status_code {
        Some(c) => c,
        None => 0,
    };
    let title = match &record.title {
        Some(t) => owned(t.as_str()),
        None => {
            let a = join_str("HTTP ", string_of(crate::text::int_text_exec(code_or_zero as i64).as_slice()).as_str());
            let b = join_str(a.as_str(), " on ");
            join_str(b.as_str(), record.host.as_str())
        },
    };
    let url_shown = if chars_of(record.url.as_str()).len() == 0 {
        owned("-")
    } else {
        owned(record.url.as_str())
    };
    let status_shown = match record.status_code {
        Some(c) => string_of(crate::text::int_text_exec(c as i64).as_slice()),
        None => owned("-"),
    };
    let d1 = join_str("url=", url_shown.as_str());
    let d2 = join_str(d1.as_str(), ", status_code=");
    let detail = join_str(d2.as_str(), status_shown.as_str());
    let code_json = match record.status_code {
        Some(c) => string_of(crate::text::int_text_exec(c as i64).as_slice()),
        None => owned("null"),
    };
    let m1 = join_str("{\"status_code\":", code_json.as_str());
    let m2 = join_str(m1.as_str(), ",\"url\":");
    let q = crate::json::quote_json(record.url.as_str());
    let m3 = join_str(m2.as_str(), q.as_str());
    let metadata = join_str(m3.as_str(), "}");
    let finding = NewFinding {
        dedupe_key: None,
        finding_type: owned("http_response"),
        severity: owned(finding_severity(record.status_code)),
        title,
        detail: Some(detail),
        ip: Some(owned(record.target.as_str())),
        port: Some(record.port as i64),
        protocol: Some(owned(record.scheme.as_str())),
        source_tool: Some(owned("httpx")),
        source_command: Some(owned("httpx")),
        metadata_json: Some(metadata),
    };
    (row, Some(finding))
}

/// The non-blank lines of an output with their numbers (from 1).
pub open spec fn numbered_lines(content: Seq<char>) -> Seq<(nat, Seq<char>)>
    decreases crate::text::lines(content).len(),
{
    numbered_from(crate::text::lines(content), 0)
}

/// Non-blank lines of `ls` from position `i`, numbered from `i + 1`.
pub open spec fn numbered_from(ls: Seq<Seq<char>>, i: nat) -> Seq<(nat, Seq<char>)>
    decreases ls.len() - i,
{
    if i >= ls.len() {
        Seq::empty()
    } else if trim(ls[i as int]).len() == 0 {
        numbered_from(ls, i + 1)
    } else {
        seq![(i + 1, ls[i as int])] + numbered_from(ls, i + 1)
    }
}

/// The stored outputs of a whole output file: each non-blank line's
/// outputs in order, or the error of the first line that fails.
/// The outputs of a whole httpx output file: each non-blank line's port
/// row and finding (when worth one) in order, or the error of the first
/// line that fails.
pub open spec fn httpx_file_outputs(
    content: Seq<char>,
    rule: ToolRule,
    file: Seq<char>,
    res: Result<Vec<(PortRow, Option<NewFinding>)>, AppError>,
) -> bool {
        match res {
            Ok(outs) => {
                let nl = numbered_lines(content);
                &&& outs@.len() == nl.len()
                &&& forall|k: int|
                    0 <= k < nl.len() ==> (httpx_record(nl[k].1, rule, file, nl[k].0) matches Ok(
                        r,
                    ) && httpx_port_row(r, (#[trigger] outs@[k]).0) && match outs@[k].1 {
                        Some(f) => worth_finding(r) && httpx_finding(r, f),
                        None => !worth_finding(r),
                    })
            },
            Err(e) => e is Task && exists|k: int|
                0 <= k < numbered_lines(content).len() && httpx_record(
                    numbered_lines(content)[k].1,
                    rule,
                    file,
                    numbered_lines(content)[k].0,
                ) == Err::<HttpxRecordView, Seq<char>>(e->Task_0@) && forall|j: int|
                    0 <= j < k ==> httpx_record(
                        numbered_lines(content)[j].1,
                        rule,
                        file,
                        numbered_lines(content)[j].0,
                    ) is Ok,
        }
}

/// What a whole httpx output file yields: it is read exactly when every
/// non-blank line parses; then each line gives its port row, in the error
/// state when the status is 400 or more and open otherwise, and a finding
/// exactly when it has a title or a status of 400 or more, whose severity
/// is high for 5xx, medium for 401 and 403, low for other 4xx and info
/// otherwise; a file without non-blank lines gives nothing.
pub proof fn law_httpx_file(
    content: Seq<char>,
    rule: ToolRule,
    file: Seq<char>,
    res: Result<Vec<(PortRow, Option<NewFinding>)>, AppError>,
)
    requires
        httpx_file_outputs(content, rule, file, res),
    ensures
        res is Ok <==> forall|k: int|
            0 <= k < numbered_lines(content).len() ==> httpx_record(
                (#[trigger] numbered_lines(content)[k]).1,
                rule,
                file,
                numbered_lines(content)[k].0,
            ) is Ok,
        res matches Ok(outs) ==> forall|k: int|
            0 <= k < outs@.len() ==> (httpx_record(
                numbered_lines(content)[k].1,
                rule,
                file,
                numbered_lines(content)[k].0,
            ) matches Ok(r) && (#[trigger] outs@[k]).0.state@ == (if r.status_code matches Some(c) && c >= 400 {
                "error"@
            } else {
                "open"@
            }) && (outs@[k].1 is Some <==> (r.title is Some || (r.status_code matches Some(c) && c >= 400)))
                && (outs@[k].1 matches Some(f) ==> f.severity@ == status_severity(r.status_code))),
        numbered_lines(content).len() == 0 ==> (res matches Ok(outs) && outs@.len() == 0),
{
    let nl = numbered_lines(content);
    if res is Err {
        let e = res->Err_0;
        let k = choose|k: int|
            0 <= k < nl.len() && httpx_record(nl[k].1, rule, file, nl[k].0) == Err::<HttpxRecordView, Seq<char>>(
                e->Task_0@,
            ) && forall|j: int| 0 <= j < k ==> httpx_record(nl[j].1, rule, file, nl[j].0) is Ok;
        assert(!(httpx_record(nl[k].1, rule, file, nl[k].0) is Ok));
    } else {
        let outs = res->Ok_0;
        assert forall|k: int| 0 <= k < nl.len() implies httpx_record(
            (#[trigger] nl[k]).1,
            rule,
            file,
            nl[k].0,
        ) is Ok by {
            assert(outs@[k] == outs@[k]);
        }
    }
}

pub fn process_output(content: &str, rule: &ToolRule, source_file: &str) -> (res: Result<Vec<(PortRow, Option<NewFinding>)>, AppError>)
    ensures
        httpx_file_outputs(content@, *rule, source_file@, res),
{
    let cs = chars_of(content);
    let ls = crate::text::lines_exec(cs.as_slice());
    let ghost lv = ls@.map_values(|v: Vec<char>| v@);
    let mut outs: Vec<(PortRow, Option<NewFinding>)> = Vec::new();
    let mut i: usize = 0;
    assert(numbered_from(lv, 0) == numbered_lines(content@));
    while i < ls.len()
        invariant
            i <= lv.len(),
            lv == ls@.map_values(|v: Vec<char>| v@),
            lv == crate::text::lines(content@),
            numbered_lines(content@) == numbered_prefix(lv, i as nat) + numbered_from(lv, i as nat),
            outs@.len() == numbered_prefix(lv, i as nat).len(),
            forall|k: int|
                0 <= k < outs@.len() ==> (httpx_record(
                    numbered_prefix(lv, i as nat)[k].1,
                    *rule,
                    source_file@,
                    numbered_prefix(lv, i as nat)[k].0,
                ) matches Ok(r) && httpx_port_row(r, (#[trigger] outs@[k]).0) && match outs@[k].1 {
                    Some(f) => worth_finding(r) && httpx_finding(r, f),
                    None => !worth_finding(r),
                }),
        decreases lv.len() - i,
    {
        let line = string_of(ls[i].as_slice());
        assert(line@ == lv[i as int]);
        let blank = crate::text::trim_str(line.as_str()).len() == 0;
        proof {
            lemma_numbered_step(lv, i as nat);
        }
        if !blank {
            match build_parsed_record(line.as_str(), rule, source_file, i + 1) {
                Ok(r) => {
                    let o = record_outputs(&r);
                    let ghost before = outs@;
                    outs.push(o);
                    proof {
                        let np = numbered_prefix(lv, (i + 1) as nat);
                        assert(np == numbered_prefix(lv, i as nat).push(((i + 1) as nat, lv[i as int])));
                        assert forall|k: int| 0 <= k < outs@.len() implies (httpx_record(
                            np[k].1,
                            *rule,
                            source_file@,
                            np[k].0,
                        ) matches Ok(r2) && httpx_port_row(r2, (#[trigger] outs@[k]).0) && match outs@[k].1 {
                            Some(f) => worth_finding(r2) && httpx_finding(r2, f),
                            None => !worth_finding(r2),
                        }) by {
                            if k < before.len() {
                                assert(outs@[k] == before[k]);
                                assert(np[k] == numbered_prefix(lv, i as nat)[k]);
                            }
                        }
                    }
                },
                Err(e) => {
                    proof {
                        let nl = numbered_lines(content@);
                        let p = numbered_prefix(lv, i as nat);
                        assert(numbered_from(lv, i as nat)[0] == ((i + 1) as nat, lv[i as int]));
                        assert(nl[p.len() as int] == ((i + 1) as nat, lv[i as int]));
                        assert forall|j: int| 0 <= j < p.len() implies httpx_record(
                            nl[j].1,
                            *rule,
                            source_file@,
                            nl[j].0,
                        ) is Ok by {
                            assert(nl[j] == p[j]);
                            let o = outs@[j];
                            assert(httpx_record(p[j].1, *rule, source_file@, p[j].0) is Ok);
                        }
                    }
                    return Err(e);
                },
            }
        }
        i = i + 1;
    }
    proof {
        assert(numbered_from(lv, i as nat) =~= Seq::<(nat, Seq<char>)>::empty());
        assert(numbered_lines(content@) =~= numbered_prefix(lv, i as nat));
    }
    Ok(outs)
}

/// Non-blank lines of `ls` before position `i`, numbered from 1.
pub open spec fn numbered_prefix(ls: Seq<Seq<char>>, i: nat) -> Seq<(nat, Seq<char>)>
    decreases i,
{
    if i == 0 {
        Seq::empty()
    } else {
        let rest = numbered_prefix(ls, (i - 1) as nat);
        if trim(ls[i - 1]).len() == 0 {
            rest
        } else {
            rest.push((i, ls[i - 1]))
        }
    }
}

proof fn lemma_numbered_step(ls: Seq<Seq<char>>, i: nat)
    requires
        i < ls.len(),
    ensures
        numbered_prefix(ls, i + 1) == if trim(ls[i as int]).len() == 0 {
            numbered_prefix(ls, i)
        } else {
            numbered_prefix(ls, i).push((i + 1, ls[i as int]))
        },
        numbered_from(ls, i) == if trim(ls[i as int]).len() == 0 {
            numbered_from(ls, i + 1)
        } else {
            seq![(i + 1, ls[i as int])] + numbered_from(ls, i + 1)
        },
        numbered_prefix(ls, i) + numbered_from(ls, i) == numbered_prefix(ls, i + 1) + numbered_from(ls, i + 1),
{
    if trim(ls[i as int]).len() != 0 {
        assert(numbered_prefix(ls, i) + (seq![(i + 1, ls[i as int])] + numbered_from(ls, i + 1))
            =~= numbered_prefix(ls, i).push((i + 1, ls[i as int])) + numbered_from(ls, i + 1));
    }
}

// ---------------------------------------------------------------------------
// The command
// ---------------------------------------------------------------------------

/// HTTP fingerprinting with httpx.
#[derive(Debug, Clone)]
pub struct HttpxCommand {
    binary: String,
    rule: Option<ToolRule>,
}

/// The arguments httpx runs with when neither the caller nor the rule gives
/// any.
pub open spec fn httpx_default_args() -> Seq<Seq<char>> {
    seq!["-silent"@, "-json"@, "-u"@, "{{target}}"@]
}

impl HttpxCommand {
    /// The program to run.
    pub closed spec fn binary_view(&self) -> Seq<char> {
        self.binary@
    }

    /// The output rule, when one was loaded.
    pub closed spec fn rule_view(&self) -> Option<ToolRule> {
        self.rule
    }

    /// httpx at `binary`, without a loaded rule.
    pub fn new(binary: String) -> (res: Self)
        ensures
            res.binary_view() == binary@,
            res.rule_view() is None,
    {
        HttpxCommand { binary, rule: None }
    }

    /// httpx at `binary` with its output rule.
    pub fn with_rule(binary: String, rule: ToolRule) -> (res: Self)
        ensures
            res.binary_view() == binary@,
            res.rule_view() == Some(rule),
    {
        HttpxCommand { binary, rule: Some(rule) }
    }

    /// The command identifier.
    pub fn id(&self) -> (res: &'static str)
        ensures
            res@ == "httpx"@,
    {
        "httpx"
    }

    /// A short description.
    pub fn description(&self) -> (res: &'static str)
        ensures
            res@ == "HTTPX Fingerprint Scanner"@,
    {
        "HTTPX Fingerprint Scanner"
    }

    /// The output rule; a configuration error when none was loaded.
    pub fn load_rule(&self) -> (res: Result<&ToolRule, AppError>)
        ensures
            match res {
                Ok(r) => self.rule_view() == Some(*r),
                Err(e) => self.rule_view() is None && e is Config,
            },
    {
        match &self.rule {
            Some(r) => Ok(r),
            None => Err(AppError::Config(owned("加载 httpx 规则失败: 未加载规则"))),
        }
    }

    /// The rule's argument template for one target.
    pub fn build_target_args(rule: &ToolRule, target: &str) -> (res: Vec<String>)
        ensures
            views(res@) == views(rule.args_template@).map_values(
                |a: Seq<char>| crate::text::replace_all(a, "{{target}}"@, target@),
            ),
    {
        build_target_args(rule, target)
    }

    /// The command over `targets`: the caller's arguments, else the rule's,
    /// else the defaults.
    pub fn build_spec(&self, targets: &[String], args: &[String]) -> (res: CommandSpec)
        ensures
            res.id@ == "httpx"@,
            res.program@ == self.binary_view(),
            res.targets@ == targets@,
            res.env is None,
            res.cwd is None,
            views(res.args@) == if args@.len() > 0 {
                views(args@)
            } else if self.rule_view() matches Some(r) && r.args_template@.len() > 0 {
                views(self.rule_view()->0.args_template@)
            } else {
                httpx_default_args()
            },
    {
        let merged: Vec<String> = if args.len() > 0 {
            crate::text::clone_strings(args)
        } else {
            match &self.rule {
                Some(r) => crate::text::clone_strings(r.args_template.as_slice()),
                None => Vec::new(),
            }
        };
        let merged = if merged.len() == 0 {
            let mut v: Vec<String> = Vec::new();
            v.push(owned("-silent"));
            v.push(owned("-json"));
            v.push(owned("-u"));
            v.push(owned("{{target}}"));
            assert(views(v@) =~= httpx_default_args());
            v
        } else {
            merged
        };
        CommandSpec {
            id: owned("httpx"),
            program: owned(self.binary.as_str()),
            args: merged,
            targets: crate::text::clone_strings(targets),
            env: None,
            cwd: None,
        }
    }

    /// The rule for processing output; it must describe JSON lines.
    pub fn output_rule(&self) -> (res: Result<&ToolRule, AppError>)
        ensures
            match res {
                Ok(r) => self.rule_view() == Some(*r) && r.format is Jsonl,
                Err(e) => e is Config,
            },
    {
        let rule = self.load_rule()?;
        match &rule.format {
            ParseFormat::Jsonl => Ok(rule),
            ParseFormat::Other(name) => Err(
                AppError::Config(join_str("httpx 当前仅支持 jsonl 解析，实际为 ", name.as_str())),
            ),
        }
    }
}

/// One more line of numbering: the prefix grows by the line when it is not
/// blank, and prefix and rest still make up the whole.
pub proof fn lemma_numbered_step_pub(ls: Seq<Seq<char>>, i: nat)
    requires
        i < ls.len(),
    ensures
        numbered_prefix(ls, i + 1) == if trim(ls[i as int]).len() == 0 {
            numbered_prefix(ls, i)
        } else {
            numbered_prefix(ls, i).push((i + 1, ls[i as int]))
        },
        numbered_prefix(ls, i) + numbered_from(ls, i) == numbered_prefix(ls, i + 1) + numbered_from(ls, i + 1),
{
    lemma_numbered_step(ls, i);
}

/// Severity of an HTTP result by its status: every 5xx status is high, 401
/// and 403 are medium, every other 4xx status is low, and any other status,
/// or none, is info. A port row is an error exactly for statuses of 400 and
/// above. The port a scheme implies is 443 for `https` and 80 for any other
/// scheme.
pub proof fn law_httpx_status_table(c: int, scheme: Seq<char>, r: HttpxRecordView, row: PortRow)
    requires
        httpx_port_row(r, row),
    ensures
        500 <= c <= 599 ==> status_severity(Some(c)) == "high"@,
        status_severity(Some(401)) == "medium"@,
        status_severity(Some(403)) == "medium"@,
        400 <= c <= 499 && c != 401 && c != 403 ==> status_severity(Some(c)) == "low"@,
        !(400 <= c <= 599) ==> status_severity(Some(c)) == "info"@,
        status_severity(None) == "info"@,
        (row.state@ == "error"@) == (r.status_code matches Some(s) && s >= 400),
        scheme_port("https"@) == 443,
        scheme != "https"@ ==> scheme_port(scheme) == 80,
{
    reveal_strlit("error");
    reveal_strlit("open");
    assert("error"@.len() != "open"@.len());
}

/// A URL `scheme://host:port/path` names that scheme, that host and that
/// port, whatever its path, for a host that is no bracketed literal and
/// holds neither `:` nor `/`.
pub proof fn law_url_host_port(scheme: Seq<char>, h: Seq<char>, n: nat, path: Seq<char>)
    requires
        scheme.len() > 0,
        !crate::text::is_ws(scheme[0]),
        forall|k: int| 0 <= k < scheme.len() ==> scheme[k] != ':',
        h.len() > 0,
        h[0] != '[',
        forall|k: int| 0 <= k < h.len() ==> h[k] != ':' && h[k] != '/',
        n <= i32::MAX,
        path.len() == 0 || (path[0] == '/' && !crate::text::is_ws(path.last())),
    ensures
        url_host_port(scheme + "://"@ + h + ":"@ + crate::text::decimal(n) + path) == (
            Some(scheme),
            Some(h),
            Some(n as int),
        ),
{
    reveal_strlit("://");
    reveal_strlit(":");
    let sep = "://"@;
    let d = crate::text::decimal(n);
    crate::text::law_decimal_reads_back(n);
    crate::text::law_int_text_reads_back(n as int, i32::MIN as int, i32::MAX as int);
    assert(crate::text::int_text(n as int) == d);
    let auth = h + ":"@ + d;
    let t = scheme + sep + auth + path;
    assert(t =~= scheme + "://"@ + h + ":"@ + d + path);
    let ns = scheme.len() as int;
    assert(t[0] == scheme[0]);
    assert(t.last() == if path.len() == 0 {
        d.last()
    } else {
        path.last()
    });
    assert(!crate::text::is_ws(d.last())) by {
        assert(crate::text::is_ascii_digit(d[d.len() - 1]));
    }
    assert(crate::text::trim_start(t) == t);
    assert(crate::text::trim_end(t) == t);
    assert(trim(t) == t);
    assert(crate::text::occurs_at(t, sep, ns)) by {
        assert(t.subrange(ns, ns + 3) =~= sep);
    }
    crate::text::lemma_find_from_bounds(t, sep, 0);
    assert forall|k: int| 0 <= k < ns implies !crate::text::occurs_at(t, sep, k) by {
        if crate::text::occurs_at(t, sep, k) {
            assert(t.subrange(k, k + 3)[0] == t[k]);
            assert(t[k] == scheme[k]);
        }
    }
    assert(crate::text::find(t, sep) == Some(ns));
    assert(t.take(ns) =~= scheme);
    let rest = t.skip(ns + 3);
    assert(rest =~= auth + path);
    crate::text::lemma_index_of(rest, '/');
    let al = auth.len() as int;
    assert(crate::text::index_of(rest, '/') == if path.len() == 0 {
        None::<int>
    } else {
        Some(al)
    }) by {
        assert forall|k: int| 0 <= k < al implies rest[k] != '/' by {
            if k < h.len() {
                assert(rest[k] == h[k]);
            } else if k > h.len() {
                assert(rest[k] == d[k - h.len() - 1]);
                assert(crate::text::is_ascii_digit(d[k - h.len() - 1]));
            }
        }
        match crate::text::index_of(rest, '/') {
            Some(j) => {
                if j > al {
                    assert(rest[al] == path[0]);
                }
            },
            None => {
                if path.len() > 0 {
                    assert(rest[al] == path[0]);
                }
            },
        }
    }
    assert(before_char(rest, '/') =~= auth);
    assert(auth[0] == h[0]);
    crate::text::lemma_last_index_of(auth, ':');
    let hl = h.len() as int;
    assert(auth[hl] == ':');
    assert(crate::text::last_index_of(auth, ':') == Some(hl)) by {
        match crate::text::last_index_of(auth, ':') {
            Some(j) => {
                if j < hl {
                    assert(auth[j] == h[j]);
                } else if j > hl {
                    assert(auth[j] == d[j - hl - 1]);
                    assert(crate::text::is_ascii_digit(d[j - hl - 1]));
                }
            },
            None => {},
        }
    }
    assert(auth.take(hl) =~= h);
    assert(auth.skip(hl + 1) =~= d);
    crate::text::lemma_index_of(h, ':');
    assert(parse_i32(d) == Some(n as int));
    assert(split_once(t, sep) == Some((scheme, rest)));
    assert(rsplit_once_char(auth, ':') == Some((h, d)));
    assert(crate::text::index_of(h, ':') is None);
}

/// An httpx result takes its host from the `host` field, else from the
/// URL, else the target; its target from the `target` field, else the
/// host; its port from the URL when the URL names one, else from its
/// scheme; without a scheme field, URL scheme or normalisation of schemes
/// it is `http`, on port 80 unless the URL says otherwise.
pub proof fn law_httpx_result_fields(m: Map<Seq<char>, Seq<char>>, rule: ToolRule, loc: Seq<char>)
    ensures
        httpx_from_fields(m, rule, loc) matches Ok(r) ==> ({
            let raw_target = field_or_empty(m, "target"@);
            let raw_host = field_or_empty(m, "host"@);
            let (us, uh, up) = url_host_port(field_or_empty(m, "url"@));
            &&& (raw_host.len() > 0 ==> r.host == raw_host)
            &&& (raw_host.len() == 0 && uh is Some ==> r.host == uh->0)
            &&& (raw_host.len() == 0 && uh is None ==> r.host == raw_target)
            &&& (raw_target.len() > 0 ==> r.target == raw_target)
            &&& (raw_target.len() == 0 ==> r.target == r.host)
            &&& (up is Some ==> r.port == up->0)
            &&& (up is None ==> r.port == scheme_port(r.scheme))
            &&& (!m.contains_key("scheme"@) && us is None && map_for(maps_view(rule.normalize_maps@), "scheme"@)
                is None ==> r.scheme == "http"@ && (up is None ==> r.port == 80))
        }),
{
    reveal_strlit("http");
    reveal_strlit("https");
    assert("http"@.len() != "https"@.len());
}

/// A result gets a finding when it has a title or a status of 400 or more:
/// a titled result always does, an untitled one exactly for error statuses.
pub proof fn law_httpx_worth_finding(r: HttpxRecordView)
    ensures
        r.title is Some ==> worth_finding(r),
        r.title is None ==> (worth_finding(r) <==> (r.status_code matches Some(c) && c >= 400)),
        r.title is None && r.status_code is None ==> !worth_finding(r),
{
}

} // verus!
