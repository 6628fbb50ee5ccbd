//! The built-in nuclei scanner command and the target helpers it uses to
//! describe findings.
use vstd::prelude::*;
use crate::config::opt_view;
use crate::engine::template::{normalized_severity, severity_rank, MatchResult, NucleiTemplate};
use crate::records::{CommandSpec, NewFinding};
use crate::text::{
    ascii_lower, ascii_lower_exec, before_char, before_char_exec, chars_of, concat, has_char,
    has_prefix, index_of, index_of_exec, lemma_index_of, owned, parse_int, parse_int_exec,
    rsplit_once_char, rsplit_once_char_exec, slice_of, split_once, split_once_exec,
    starts_with_str, string_of, trim, trim_str, join_str, views,
};
use crate::json::{json_quoted, quote_json};

verus! {

/// The part of a target between the scheme and the first `/`.
pub open spec fn authority_of(t: Seq<char>) -> Seq<char> {
    match split_once(t, "://"@) {
        Some((_, rest)) => before_char(rest, '/'),
        None => before_char(t, '/'),
    }
}

/// Target with `http://` prepended unless it names a scheme already.
pub open spec fn normalized_target(target: Seq<char>) -> Seq<char> {
    let t = trim(target);
    if t.len() == 0 || has_prefix(t, "http://"@) || has_prefix(t, "https://"@) {
        t
    } else {
        "http://"@ + t
    }
}

/// Host part of a target.
pub open spec fn target_ip(target: Seq<char>) -> Option<Seq<char>> {
    let a = authority_of(trim(target));
    if has_prefix(a, "["@) && index_of(a, ']') is Some {
        Some(a.subrange(1, index_of(a, ']')->0))
    } else if rsplit_once_char(a, ':') is Some && index_of(rsplit_once_char(a, ':').unwrap().0, ':')
        is None {
        Some(rsplit_once_char(a, ':').unwrap().0)
    } else if a.len() > 0 {
        Some(a)
    } else {
        None
    }
}

/// Port part of a target, when one is written.
pub open spec fn target_port(target: Seq<char>) -> Option<int> {
    let a = authority_of(trim(target));
    if has_prefix(a, "["@) && index_of(a, ']') is Some {
        let remain = a.skip(index_of(a, ']')->0 + 1);
        if has_prefix(remain, ":"@) {
            parse_int(remain.skip(1), i64::MIN as int, i64::MAX as int)
        } else {
            None
        }
    } else if rsplit_once_char(a, ':') is Some && index_of(rsplit_once_char(a, ':').unwrap().0, ':')
        is None {
        parse_int(rsplit_once_char(a, ':').unwrap().1, i64::MIN as int, i64::MAX as int)
    } else {
        None
    }
}

/// Scheme of a target, lower-cased; `http` when none is written.
pub open spec fn target_scheme(target: Seq<char>) -> Seq<char> {
    match split_once(trim(target), "://"@) {
        Some((scheme, _)) => ascii_lower(scheme),
        None => "http"@,
    }
}

/// The authority part of `t`.
pub fn authority_exec(t: &[char]) -> (res: Vec<char>)
    ensures
        res@ == authority_of(t@),
{
    let sep = chars_of("://");
    match split_once_exec(t, sep.as_slice()) {
        Some((_, rest)) => before_char_exec(rest.as_slice(), '/'),
        None => before_char_exec(t, '/'),
    }
}

/// Adds `http://` to a target that names no scheme.
pub fn normalize_target(target: &str) -> (res: String)
    ensures
        res@ == normalized_target(target@),
{
    let t = trim_str(target);
    if t.len() == 0 || starts_with_str(t.as_slice(), "http://") || starts_with_str(
        t.as_slice(),
        "https://",
    ) {
        return string_of(t.as_slice());
    }
    let p = chars_of("http://");
    let r = concat(p.as_slice(), t.as_slice());
    string_of(r.as_slice())
}

/// Host part of a target.
pub fn extract_ip(target: &str) -> (res: Option<String>)
    ensures
        match res {
            Some(s) => target_ip(target@) == Some(s@),
            None => target_ip(target@) is None,
        },
{
    let t = trim_str(target);
    let a = authority_exec(t.as_slice());
    if starts_with_str(a.as_slice(), "[") {
        if let Some(end) = index_of_exec(a.as_slice(), ']') {
            proof {
                lemma_index_of(a@, ']');
                reveal_strlit("[");
                assert(a@.take(1)[0] == a@[0]);
            }
            let h = slice_of(a.as_slice(), 1, end);
            return Some(string_of(h.as_slice()));
        }
    }
    if let Some((host, _)) = rsplit_once_char_exec(a.as_slice(), ':') {
        if !has_char(host.as_slice(), ':') {
            return Some(string_of(host.as_slice()));
        }
    }
    if a.len() > 0 {
        return Some(string_of(a.as_slice()));
    }
    None
}

/// Port part of a target, when one is written.
pub fn extract_port(target: &str) -> (res: Option<i64>)
    ensures
        match res {
            Some(p) => target_port(target@) == Some(p as int),
            None => target_port(target@) is None,
        },
{
    let t = trim_str(target);
    let a = authority_exec(t.as_slice());
    if starts_with_str(a.as_slice(), "[") {
        if let Some(end) = index_of_exec(a.as_slice(), ']') {
            proof {
                lemma_index_of(a@, ']');
                reveal_strlit(":");
            }
            let n = a.len();
            let remain = slice_of(a.as_slice(), end + 1, a.len());
            assert(remain@ =~= a@.skip(end + 1));
            if starts_with_str(remain.as_slice(), ":") {
                let digits = slice_of(remain.as_slice(), 1, remain.len());
                assert(digits@ =~= remain@.skip(1));
                return parse_int_exec(digits.as_slice(), i64::MIN, i64::MAX);
            }
            return None;
        }
    }
    if let Some((host, port)) = rsplit_once_char_exec(a.as_slice(), ':') {
        if !has_char(host.as_slice(), ':') {
            return parse_int_exec(port.as_slice(), i64::MIN, i64::MAX);
        }
    }
    None
}

/// Scheme of a target, lower-cased; `http` when none is written.
pub fn extract_scheme(target: &str) -> (res: String)
    ensures
        res@ == target_scheme(target@),
{
    let t = trim_str(target);
    let sep = chars_of("://");
    match split_once_exec(t.as_slice(), sep.as_slice()) {
        Some((scheme, _)) => {
            let l = ascii_lower_exec(scheme.as_slice());
            string_of(l.as_slice())
        },
        None => owned("http"),
    }
}


// ---------------------------------------------------------------------------
// Running templates against a target
// ---------------------------------------------------------------------------

/// A template worth running: it sends HTTP requests and is of at least
/// medium severity.
pub open spec fn applicable(t: NucleiTemplate) -> bool {
    t.http@.len() > 0 && severity_rank(t.info.severity@) >= 3
}

/// The templates worth running, in order.
pub open spec fn applicable_in(ts: Seq<NucleiTemplate>) -> Seq<NucleiTemplate>
    decreases ts.len(),
{
    if ts.len() == 0 {
        Seq::empty()
    } else if applicable(ts.last()) {
        applicable_in(ts.drop_last()).push(ts.last())
    } else {
        applicable_in(ts.drop_last())
    }
}

/// The templates to run against a target, in the order they were loaded.
pub fn applicable_templates<'a>(templates: &'a [NucleiTemplate]) -> (res: Vec<&'a NucleiTemplate>)
    ensures
        res@.len() == applicable_in(templates@).len(),
        forall|k: int| 0 <= k < res@.len() ==> *(#[trigger] res@[k]) == applicable_in(templates@)[k],
{
    let ghost ts = templates@;
    let mut out: Vec<&'a NucleiTemplate> = Vec::new();
    let mut i: usize = 0;
    assert(ts.take(0) =~= Seq::<NucleiTemplate>::empty());
    while i < templates.len()
        invariant
            i <= ts.len(),
            ts == templates@,
            out@.len() == applicable_in(ts.take(i as int)).len(),
            forall|k: int| 0 <= k < out@.len() ==> *(#[trigger] out@[k]) == applicable_in(ts.take(i as int))[k],
        decreases ts.len() - i,
    {
        let t = &templates[i];
        proof {
            assert(ts.take(i + 1).drop_last() =~= ts.take(i as int));
            assert(ts.take(i + 1).last() == *t);
        }
        let w = crate::engine::template::severity_weight(t.info.severity.as_str());
        if t.http.len() > 0 && w >= 3 {
            out.push(t);
        }
        i = i + 1;
    }
    assert(ts.take(i as int) =~= ts);
    out
}

/// The JSON array of the quoted values, joined by commas.
pub open spec fn quoted_values(vs: Seq<Seq<char>>) -> Seq<char>
    decreases vs.len(),
{
    if vs.len() == 0 {
        Seq::empty()
    } else if vs.len() == 1 {
        json_quoted(vs[0])
    } else {
        quoted_values(vs.drop_last()) + ","@ + json_quoted(vs.last())
    }
}

/// The JSON object members of the extracted values, joined by commas.
pub open spec fn extracted_members(ex: Seq<(Seq<char>, Seq<Seq<char>>)>) -> Seq<char>
    decreases ex.len(),
{
    if ex.len() == 0 {
        Seq::empty()
    } else {
        let m = json_quoted(ex.last().0) + ":["@ + quoted_values(ex.last().1) + "]"@;
        if ex.len() == 1 {
            m
        } else {
            extracted_members(ex.drop_last()) + ","@ + m
        }
    }
}

/// The metadata stored with a match: what was extracted, where it matched,
/// its severity and its template, as a JSON object with keys in order.
pub open spec fn match_metadata(m: MatchResult) -> Seq<char> {
    "{\"extractors\":{"@ + extracted_members(crate::engine::executor::results_view(m.extractors@))
        + "},\"matched_at\":"@ + json_quoted(m.matched_at@) + ",\"severity\":"@ + json_quoted(
        m.severity@,
    ) + ",\"template_id\":"@ + json_quoted(m.template_id@) + "}"@
}

/// The finding a match against a (normalised) target is stored as.
pub open spec fn nuclei_finding(target: Seq<char>, m: MatchResult, f: NewFinding) -> bool {
    &&& opt_view(f.dedupe_key) == Some(
        "nuclei|"@ + ascii_lower(trim(target)) + "|"@ + ascii_lower(trim(m.template_id@)) + "|"@
            + ascii_lower(trim(m.name@)),
    )
    &&& f.finding_type@ == "vulnerability"@
    &&& f.severity@ == normalized_severity(m.severity@)
    &&& f.title@ == m.name@
    &&& opt_view(f.detail) == Some(m.detail@)
    &&& opt_view(f.ip) == target_ip(target)
    &&& f.port == match target_port(target) {
        Some(p) => Some(p as i64),
        None => None,
    }
    &&& opt_view(f.protocol) == Some(target_scheme(target))
    &&& opt_view(f.source_tool) == Some("nuclei"@)
    &&& opt_view(f.source_command) == Some("nuclei (builtin)"@)
    &&& opt_view(f.metadata_json) == Some(match_metadata(m))
}

fn quoted_values_exec(vs: &Vec<String>) -> (res: String)
    ensures
        res@ == quoted_values(views(vs@)),
{
    let ghost vv = views(vs@);
    let mut out = String::new();
    let mut i: usize = 0;
    assert(vv.take(0) =~= Seq::<Seq<char>>::empty());
    while i < vs.len()
        invariant
            i <= vs@.len(),
            vv == views(vs@),
            out@ == quoted_values(vv.take(i as int)),
        decreases vs@.len() - i,
    {
        let q = quote_json(vs[i].as_str());
        proof {
            assert(vv.take(i + 1).drop_last() =~= vv.take(i as int));
            assert(vv.take(i + 1).last() == vs@[i as int]@);
        }
        if i == 0 {
            out = q;
        } else {
            let a = join_str(out.as_str(), ",");
            out = join_str(a.as_str(), q.as_str());
        }
        i = i + 1;
    }
    assert(vv.take(i as int) =~= vv);
    out
}

fn extracted_members_exec(ex: &Vec<(String, Vec<String>)>) -> (res: String)
    ensures
        res@ == extracted_members(crate::engine::executor::results_view(ex@)),
{
    let ghost ev = crate::engine::executor::results_view(ex@);
    let mut out = String::new();
    let mut i: usize = 0;
    assert(ev.take(0) =~= Seq::<(Seq<char>, Seq<Seq<char>>)>::empty());
    while i < ex.len()
        invariant
            i <= ex@.len(),
            ev == crate::engine::executor::results_view(ex@),
            out@ == extracted_members(ev.take(i as int)),
        decreases ex@.len() - i,
    {
        let (k, vs) = &ex[i];
        let qk = quote_json(k.as_str());
        let qv = quoted_values_exec(vs);
        let a = join_str(qk.as_str(), ":[");
        let b = join_str(a.as_str(), qv.as_str());
        let m = join_str(b.as_str(), "]");
        proof {
            assert(ev.take(i + 1).drop_last() =~= ev.take(i as int));
            assert(ev.take(i + 1).last() == ev[i as int]);
        }
        if i == 0 {
            out = m;
        } else {
            let c = join_str(out.as_str(), ",");
            out = join_str(c.as_str(), m.as_str());
        }
        i = i + 1;
    }
    assert(ev.take(i as int) =~= ev);
    out
}

/// The finding a match against a (normalised) target is stored as.
pub fn finding_for_match(target: &str, m: &MatchResult) -> (res: NewFinding)
    ensures
        nuclei_finding(target@, *m, res),
{
    let t = trim_str(target);
    let tl = ascii_lower_exec(t.as_slice());
    let i = trim_str(m.template_id.as_str());
    let il = ascii_lower_exec(i.as_slice());
    let n = trim_str(m.name.as_str());
    let nl = ascii_lower_exec(n.as_slice());
    let k1 = join_str("nuclei|", string_of(tl.as_slice()).as_str());
    let k2 = join_str(k1.as_str(), "|");
    let k3 = join_str(k2.as_str(), string_of(il.as_slice()).as_str());
    let k4 = join_str(k3.as_str(), "|");
    let key = join_str(k4.as_str(), string_of(nl.as_slice()).as_str());
    let members = extracted_members_exec(&m.extractors);
    let j1 = join_str("{\"extractors\":{", members.as_str());
    let j2 = join_str(j1.as_str(), "},\"matched_at\":");
    let j3 = join_str(j2.as_str(), quote_json(m.matched_at.as_str()).as_str());
    let j4 = join_str(j3.as_str(), ",\"severity\":");
    let j5 = join_str(j4.as_str(), quote_json(m.severity.as_str()).as_str());
    let j6 = join_str(j5.as_str(), ",\"template_id\":");
    let j7 = join_str(j6.as_str(), quote_json(m.template_id.as_str()).as_str());
    let metadata = join_str(j7.as_str(), "}");
    NewFinding {
        dedupe_key: Some(key),
        finding_type: owned("vulnerability"),
        severity: owned(crate::engine::template::normalize_severity(m.severity.as_str())),
        title: owned(m.name.as_str()),
        detail: Some(owned(m.detail.as_str())),
        ip: extract_ip(target),
        port: extract_port(target),
        protocol: Some(extract_scheme(target)),
        source_tool: Some(owned("nuclei")),
        source_command: Some(owned("nuclei (builtin)")),
        metadata_json: Some(metadata),
    }
}

/// The findings a target's matches are stored as, in order.
pub fn findings_for_matches(target: &str, matches: &Vec<MatchResult>) -> (res: Vec<NewFinding>)
    ensures
        res@.len() == matches@.len(),
        forall|k: int| 0 <= k < matches@.len() ==> nuclei_finding(target@, matches@[k], #[trigger] res@[k]),
{
    let mut out: Vec<NewFinding> = Vec::new();
    let mut i: usize = 0;
    while i < matches.len()
        invariant
            i <= matches@.len(),
            out@.len() == i,
            forall|k: int| 0 <= k < i ==> nuclei_finding(target@, matches@[k], #[trigger] out@[k]),
        decreases matches@.len() - i,
    {
        let f = finding_for_match(target, &matches[i]);
        out.push(f);
        i = i + 1;
    }
    out
}

/// The built-in nuclei scanner: runs templates against HTTP targets itself.
#[derive(Clone)]
pub struct NucleiCommand {
    templates_dir: String,
}

impl NucleiCommand {
    /// A scanner that loads its templates from `templates_dir`.
    pub fn new(templates_dir: String) -> (res: NucleiCommand)
        ensures
            res.templates_dir() == templates_dir@,
    {
        NucleiCommand { templates_dir }
    }

    pub closed spec fn templates_dir(&self) -> Seq<char> {
        self.templates_dir@
    }

    /// Directory the templates are loaded from.
    pub fn templates_path(&self) -> (res: String)
        ensures
            res@ == self.templates_dir(),
    {
        self.templates_dir.clone()
    }

    /// The command identifier.
    pub fn id(&self) -> (res: &'static str)
        ensures
            res@ == "nuclei"@,
    {
        "nuclei"
    }

    /// A short description.
    pub fn description(&self) -> (res: &'static str)
        ensures
            res@ == "Nuclei POC Scanner (Builtin HTTP Engine)"@,
    {
        "Nuclei POC Scanner (Builtin HTTP Engine)"
    }

    /// The command specification: templates run in-process, so it names the
    /// scanner only and carries neither arguments nor targets.
    pub fn build_spec(&self, targets: &[String], args: &[String]) -> (res: CommandSpec)
        ensures
            res.id@ == "nuclei"@,
            res.program@ == "nuclei"@,
            res.args@.len() == 0,
            res.targets@.len() == 0,
            res.env is None,
            res.cwd is None,
    {
        CommandSpec {
            id: owned("nuclei"),
            program: owned("nuclei"),
            args: Vec::new(),
            targets: Vec::new(),
            env: None,
            cwd: None,
        }
    }
}

/// Every target that is not blank becomes an `http://` or `https://` URL: one
/// that already starts with either scheme stays as written (trimmed), any
/// other gets `http://` in front; a blank target stays empty. A target that
/// names no scheme counts as `http`.
pub proof fn law_target_normalization(t: Seq<char>)
    ensures
        trim(t).len() == 0 ==> normalized_target(t).len() == 0,
        trim(t).len() > 0 ==> has_prefix(normalized_target(t), "http://"@) || has_prefix(
            normalized_target(t),
            "https://"@,
        ),
        (has_prefix(trim(t), "http://"@) || has_prefix(trim(t), "https://"@)) ==> normalized_target(t) == trim(t),
        !(has_prefix(trim(t), "http://"@) || has_prefix(trim(t), "https://"@)) && trim(t).len() > 0
            ==> normalized_target(t) == "http://"@ + trim(t),
        split_once(trim(t), "://"@) is None ==> target_scheme(t) == "http"@,
{
    let x = trim(t);
    if x.len() > 0 && !(has_prefix(x, "http://"@) || has_prefix(x, "https://"@)) {
        let n = "http://"@ + x;
        assert(n.take("http://"@.len() as int) =~= "http://"@);
    }
}

/// Findings of nuclei are identified by target, template and name, ignoring
/// surrounding whitespace and ASCII case: two matches that agree on those
/// give findings with the same deduplication key. Each finding is a
/// vulnerability reported by nuclei, titled by the match's name, with a
/// severity that is one of critical, high, medium, low and info.
pub proof fn law_nuclei_finding_identity(
    t1: Seq<char>,
    m1: MatchResult,
    f1: NewFinding,
    t2: Seq<char>,
    m2: MatchResult,
    f2: NewFinding,
)
    requires
        nuclei_finding(t1, m1, f1),
        nuclei_finding(t2, m2, f2),
    ensures
        (ascii_lower(trim(t1)) == ascii_lower(trim(t2)) && ascii_lower(trim(m1.template_id@)) == ascii_lower(
            trim(m2.template_id@),
        ) && ascii_lower(trim(m1.name@)) == ascii_lower(trim(m2.name@))) ==> opt_view(f1.dedupe_key)
            == opt_view(f2.dedupe_key),
        opt_view(f1.dedupe_key) matches Some(k) && has_prefix(k, "nuclei|"@),
        f1.finding_type@ == "vulnerability"@,
        opt_view(f1.source_tool) == Some("nuclei"@),
        f1.title@ == m1.name@,
        ({
            let sv = f1.severity@;
            sv == "critical"@ || sv == "high"@ || sv == "medium"@ || sv == "low"@ || sv == "info"@
        }),
{
    let k = opt_view(f1.dedupe_key)->0;
    assert(k.take("nuclei|"@.len() as int) =~= "nuclei|"@);
}

} // verus!
