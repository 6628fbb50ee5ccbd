//! Evaluation of template matchers against an HTTP response.
use vstd::prelude::*;
use crate::engine::template::{condition_is, Matcher};
use crate::text::{
    chars_of, chars_eq, concat, contains, contains_exec, decimal, decimal_exec, eq_str,
    has_prefix, has_suffix, index_of, index_of_exec, lines, lines_exec, parse_int,
    parse_usize_exec, slice_of, split_all, split_exec, starts_with, starts_with_str, to_lowercase,
    trim, trim_char, trim_char_exec, trim_chars, unicode_lower,
};

verus! {

/// The response a matcher looks at.
pub struct MatchContext<'a> {
    pub body: &'a str,
    /// Header lines, `name: value` each.
    pub headers: &'a str,
    pub status_code: u16,
    pub content_length: u64,
}

/// The mathematical content of a response.
pub struct ResponseView {
    pub body: Seq<char>,
    pub headers: Seq<char>,
    pub status: u16,
    pub content_length: u64,
}

impl<'a> View for MatchContext<'a> {
    type V = ResponseView;

    open spec fn view(&self) -> ResponseView {
        ResponseView {
            body: self.body@,
            headers: self.headers@,
            status: self.status_code,
            content_length: self.content_length,
        }
    }
}

// ---------------------------------------------------------------------------
// Response parts
// ---------------------------------------------------------------------------

/// Index of the first line whose lower-case form starts with `prefix`.
pub open spec fn first_line_with_prefix(ls: Seq<Seq<char>>, prefix: Seq<char>) -> Option<int>
    decreases ls.len(),
{
    if ls.len() == 0 {
        None
    } else if has_prefix(unicode_lower(ls[0]), prefix) {
        Some(0)
    } else {
        match first_line_with_prefix(ls.drop_first(), prefix) {
            Some(i) => Some(i + 1),
            None => None,
        }
    }
}

/// The value of a header line: what follows its first colon, trimmed. A line
/// without a colon loses its first character instead.
pub open spec fn header_line_value(l: Seq<char>) -> Seq<char> {
    match index_of(l, ':') {
        Some(c) => trim(l.skip(c + 1)),
        None => trim(l.skip(1)),
    }
}

/// A line without a colon whose first character is not a one-byte
/// character cannot be cut after its first byte.
pub open spec fn header_line_cuttable(l: Seq<char>) -> bool {
    index_of(l, ':') is Some || (l.len() > 0 && (l[0] as u32) < 128)
}

/// The part name a matcher uses (`body` when none is given).
pub open spec fn part_name(part: Option<String>) -> Seq<char> {
    match part {
        Some(p) => p@,
        None => "body"@,
    }
}

/// A matcher part that names one header can be read from these headers.
pub open spec fn part_readable(part: Option<String>, headers: Seq<char>) -> bool {
    let p = part_name(part);
    let name = p.skip(7);
    has_prefix(p, "header="@) && !(p == "header"@ || p == "headers"@ || p == "body"@ || p
        == "all"@ || p == "response"@ || p == "content_type"@) ==> match first_line_with_prefix(
        lines(headers),
        unicode_lower(name),
    ) {
        Some(i) => header_line_cuttable(lines(headers)[i]),
        None => true,
    }
}

/// The texts of the response a matcher with `part` looks at.
pub open spec fn selected_parts(part: Option<String>, r: ResponseView) -> Seq<Seq<char>> {
    let p = part_name(part);
    if p == "header"@ || p == "headers"@ {
        seq![r.headers]
    } else if p == "body"@ {
        seq![r.body]
    } else if p == "all"@ || p == "response"@ {
        seq![r.headers, r.body]
    } else if p == "content_type"@ {
        match first_line_with_prefix(lines(r.headers), "content-type:"@) {
            Some(i) => seq![lines(r.headers)[i]],
            None => seq![Seq::empty()],
        }
    } else if has_prefix(p, "header="@) {
        match first_line_with_prefix(lines(r.headers), unicode_lower(p.skip(7))) {
            Some(i) => seq![header_line_value(lines(r.headers)[i])],
            None => seq![Seq::empty()],
        }
    } else {
        seq![r.body]
    }
}

fn first_line_with_prefix_exec(ls: &Vec<Vec<char>>, prefix: &[char]) -> (res: Option<usize>)
    ensures
        match res {
            Some(i) => i < ls@.len() && first_line_with_prefix(
                ls@.map_values(|v: Vec<char>| v@),
                prefix@,
            ) == Some(i as int),
            None => first_line_with_prefix(ls@.map_values(|v: Vec<char>| v@), prefix@) is None,
        },
{
    let ghost lv = ls@.map_values(|v: Vec<char>| v@);
    assert(lv.skip(0) =~= lv);
    let mut i: usize = 0;
    while i < ls.len()
        invariant
            i <= ls@.len(),
            lv == ls@.map_values(|v: Vec<char>| v@),
            first_line_with_prefix(lv, prefix@) == match first_line_with_prefix(
                lv.skip(i as int),
                prefix@,
            ) {
                Some(k) => Some(k + i),
                None => None,
            },
        decreases ls@.len() - i,
    {
        let s = crate::text::string_of(ls[i].as_slice());
        let low = to_lowercase(s.as_str());
        let lc = chars_of(low.as_str());
        proof {
            assert(lv.skip(i as int)[0] == ls@[i as int]@);
            assert(lv.skip(i as int).drop_first() =~= lv.skip(i + 1));
        }
        if starts_with(lc.as_slice(), prefix) {
            return Some(i);
        }
        i = i + 1;
    }
    None
}

/// The texts of the response a matcher looks at.
pub fn select_parts(matcher: &Matcher, ctx: &MatchContext) -> (res: Vec<Vec<char>>)
    requires
        part_readable(matcher.part, ctx.headers@),
    ensures
        res@.map_values(|v: Vec<char>| v@) == selected_parts(matcher.part, ctx@),
{
    let part: Vec<char> = match &matcher.part {
        Some(p) => chars_of(p.as_str()),
        None => chars_of("body"),
    };
    let body = chars_of(ctx.body);
    let headers = chars_of(ctx.headers);
    let mut out: Vec<Vec<char>> = Vec::new();
    if eq_str(part.as_slice(), "header") || eq_str(part.as_slice(), "headers") {
        out.push(headers);
    } else if eq_str(part.as_slice(), "body") {
        out.push(body);
    } else if eq_str(part.as_slice(), "all") || eq_str(part.as_slice(), "response") {
        out.push(headers);
        out.push(body);
    } else if eq_str(part.as_slice(), "content_type") {
        let ls = lines_exec(headers.as_slice());
        let pre = chars_of("content-type:");
        match first_line_with_prefix_exec(&ls, pre.as_slice()) {
            Some(i) => {
                out.push(crate::text::copy(ls[i].as_slice()));
            },
            None => {
                out.push(Vec::new());
            },
        }
    } else if starts_with_str(part.as_slice(), "header=") {
        proof {
            reveal_strlit("header=");
        }
        let name = slice_of(part.as_slice(), 7, part.len());
        assert(name@ =~= part@.skip(7));
        let name_s = crate::text::string_of(name.as_slice());
        let low = to_lowercase(name_s.as_str());
        let lname = chars_of(low.as_str());
        let ls = lines_exec(headers.as_slice());
        match first_line_with_prefix_exec(&ls, lname.as_slice()) {
            Some(i) => {
                let l = &ls[i];
                proof {
                    crate::text::lemma_index_of(l@, ':');
                    lemma_first_line_bound(ls@.map_values(|v: Vec<char>| v@), lname@);
                    assert(ls@.map_values(|v: Vec<char>| v@)[i as int] == l@);
                }
                let value = match index_of_exec(l.as_slice(), ':') {
                    Some(c) => {
                        let rest = slice_of(l.as_slice(), c + 1, l.len());
                        assert(rest@ =~= l@.skip(c + 1));
                        trim_chars(rest.as_slice())
                    },
                    None => {
                        let rest = slice_of(l.as_slice(), 1, l.len());
                        assert(rest@ =~= l@.skip(1));
                        trim_chars(rest.as_slice())
                    },
                };
                out.push(value);
            },
            None => {
                out.push(Vec::new());
            },
        }
    } else {
        out.push(body);
    }
    proof {
        assert(out@.map_values(|v: Vec<char>| v@) =~= selected_parts(matcher.part, ctx@));
    }
    out
}

proof fn lemma_first_line_bound(ls: Seq<Seq<char>>, prefix: Seq<char>)
    ensures
        first_line_with_prefix(ls, prefix) matches Some(i) ==> 0 <= i < ls.len(),
    decreases ls.len(),
{
    if ls.len() > 0 {
        lemma_first_line_bound(ls.drop_first(), prefix);
    }
}

// ---------------------------------------------------------------------------
// Matchers
// ---------------------------------------------------------------------------

/// `word` occurs in one of `parts` (after lower-casing both when asked).
pub open spec fn word_found(word: Seq<char>, parts: Seq<Seq<char>>, ci: bool) -> bool {
    exists|k: int|
        0 <= k < parts.len() && (if ci {
            contains(unicode_lower(#[trigger] parts[k]), unicode_lower(word))
        } else {
            contains(parts[k], word)
        })
}

/// A word matcher holds.
pub open spec fn word_matcher_holds(m: Matcher, r: ResponseView) -> bool {
    match m.words {
        Some(ws) => ws@.len() > 0 && {
            let parts = selected_parts(m.part, r);
            let ci = m.case_insensitive == Some(true);
            if condition_is(m.condition, "and"@, false) {
                forall|i: int| 0 <= i < ws@.len() ==> word_found((#[trigger] ws@[i])@, parts, ci)
            } else {
                exists|i: int| 0 <= i < ws@.len() && word_found((#[trigger] ws@[i])@, parts, ci)
            }
        },
        None => false,
    }
}

/// The outcome of matching the regular expression `pattern` against
/// `haystack` with the `regex` crate: `None` when the pattern does not compile.
pub uninterp spec fn regex_outcome(pattern: Seq<char>, haystack: Seq<char>) -> Option<bool>;

/// Compiles `pattern` with `regex::Regex::new` and, when that succeeds, runs
/// `Regex::is_match` on `haystack`. The result is named: it depends on the
/// two strings alone.
#[verifier::external_body]
fn regex_is_match(pattern: &str, haystack: &str) -> (res: Option<bool>)
    ensures
        res == regex_outcome(pattern@, haystack@),
{
    regex::Regex::new(pattern).ok().map(|re| re.is_match(haystack))
}

/// `pattern` compiles and matches one of `parts`.
pub open spec fn pattern_found(pattern: Seq<char>, parts: Seq<Seq<char>>) -> bool {
    exists|k: int| 0 <= k < parts.len() && regex_outcome(pattern, #[trigger] parts[k]) == Some(true)
}

/// A regular-expression matcher holds.
pub open spec fn regex_matcher_holds(m: Matcher, r: ResponseView) -> bool {
    match m.regex {
        Some(ps) => ps@.len() > 0 && {
            let parts = selected_parts(m.part, r);
            if condition_is(m.condition, "and"@, false) {
                forall|i: int| 0 <= i < ps@.len() ==> pattern_found((#[trigger] ps@[i])@, parts)
            } else {
                exists|i: int| 0 <= i < ps@.len() && pattern_found((#[trigger] ps@[i])@, parts)
            }
        },
        None => false,
    }
}

/// A status matcher holds.
pub open spec fn status_matcher_holds(m: Matcher, r: ResponseView) -> bool {
    match m.status {
        Some(ss) => exists|i: int| 0 <= i < ss@.len() && #[trigger] ss@[i] == r.status,
        None => false,
    }
}

/// The value a DSL operand stands for.
pub open spec fn dsl_value(expr: Seq<char>, r: ResponseView) -> Seq<char> {
    let e = trim_char(trim_char(trim(expr), '"'), '\'');
    let status = decimal(r.status as nat);
    if e == "status_code"@ || e == "status_code_1"@ || e == "status_code1"@ {
        status
    } else if has_prefix(e, "status_code_"@) {
        let idx = match parse_int(e.skip(12), 0, usize::MAX as int) {
            Some(v) => v,
            None => 1,
        };
        if idx == 1 {
            status
        } else {
            "0"@
        }
    } else if e == "body"@ || e == "body_1"@ {
        r.body
    } else if has_prefix(e, "body_"@) {
        let idx = match parse_int(e.skip(5), 0, usize::MAX as int) {
            Some(v) => v,
            None => 1,
        };
        if idx == 1 {
            r.body
        } else {
            Seq::empty()
        }
    } else if e == "header"@ || has_prefix(e, "header_"@) {
        r.headers
    } else {
        e
    }
}

/// `a == b` (or `a != b` when `negate`) with both sides resolved.
pub open spec fn dsl_compare(expr: Seq<char>, op: Seq<char>, r: ResponseView, negate: bool) -> bool {
    let parts = split_all(expr, op);
    parts.len() == 2 && ((dsl_value(trim(parts[0]), r) == dsl_value(trim(parts[1]), r)) != negate)
}

/// Operand of `contains(...)`: trimmed, without surrounding quotes.
pub open spec fn dsl_arg(p: Seq<char>) -> Seq<char> {
    trim_char(trim_char(trim(p), '"'), '\'')
}

/// `contains(target, needle)`.
pub open spec fn dsl_contains_holds(inner: Seq<char>, r: ResponseView) -> bool {
    let parts = split_all(inner, ","@);
    parts.len() == 2 && contains(dsl_value(dsl_arg(parts[0]), r), dsl_arg(parts[1]))
}

/// A DSL expression holds.
pub open spec fn dsl_expr_holds(expr: Seq<char>, r: ResponseView) -> bool {
    let e = trim(expr);
    if contains(e, "=="@) {
        dsl_compare(e, "=="@, r, false)
    } else if contains(e, "!="@) {
        dsl_compare(e, "!="@, r, true)
    } else if has_prefix(e, "contains("@) && has_suffix(e.skip(9), ")"@) {
        dsl_contains_holds(e.skip(9).drop_last(), r)
    } else {
        e == "true"@ || e == "True"@
    }
}

/// A DSL matcher holds.
pub open spec fn dsl_matcher_holds(m: Matcher, r: ResponseView) -> bool {
    match m.dsl {
        Some(es) => es@.len() > 0 && if condition_is(m.condition, "and"@, false) {
            forall|i: int| 0 <= i < es@.len() ==> dsl_expr_holds(trim((#[trigger] es@[i])@), r)
        } else {
            exists|i: int| 0 <= i < es@.len() && dsl_expr_holds(trim((#[trigger] es@[i])@), r)
        },
        None => false,
    }
}

/// A matcher holds, before negation.
pub open spec fn matcher_raw(m: Matcher, r: ResponseView) -> bool {
    let t = m.matcher_type@;
    if t == "word"@ {
        word_matcher_holds(m, r)
    } else if t == "regex"@ {
        regex_matcher_holds(m, r)
    } else if t == "status"@ {
        status_matcher_holds(m, r)
    } else if t == "size"@ {
        r.content_length > 0
    } else if t == "dsl"@ {
        dsl_matcher_holds(m, r)
    } else {
        false
    }
}

/// A matcher holds: its check, inverted when the matcher is negative.
pub open spec fn matcher_holds(m: Matcher, r: ResponseView) -> bool {
    if m.negative == Some(true) {
        !matcher_raw(m, r)
    } else {
        matcher_raw(m, r)
    }
}

/// The matcher reads a part of the response: a word matcher with words, or
/// a regular-expression matcher with patterns. Other matchers never read
/// their part.
pub open spec fn matcher_reads_part(m: Matcher) -> bool {
    ||| m.matcher_type@ == "word"@ && (m.words matches Some(ws) && ws@.len() > 0)
    ||| m.matcher_type@ == "regex"@ && (m.regex matches Some(ps) && ps@.len() > 0)
}

/// The matcher can be evaluated on these headers: when it reads its part,
/// that part can be read.
pub open spec fn matcher_readable(m: Matcher, headers: Seq<char>) -> bool {
    matcher_reads_part(m) ==> part_readable(m.part, headers)
}

/// All matchers can be evaluated on these headers.
pub open spec fn matchers_readable(ms: Seq<Matcher>, headers: Seq<char>) -> bool {
    forall|i: int| 0 <= i < ms.len() ==> matcher_readable(#[trigger] ms[i], headers)
}

/// A list of matchers holds: all of them under `and`, one of them otherwise;
/// an empty list never holds.
pub open spec fn matchers_hold(ms: Seq<Matcher>, condition: Seq<char>, r: ResponseView) -> bool {
    ms.len() > 0 && if crate::text::eq_ignore_ascii_case(condition, "and"@) {
        forall|i: int| 0 <= i < ms.len() ==> matcher_holds(#[trigger] ms[i], r)
    } else {
        exists|i: int| 0 <= i < ms.len() && matcher_holds(#[trigger] ms[i], r)
    }
}

fn word_found_exec(word: &[char], parts: &Vec<Vec<char>>, ci: bool) -> (res: bool)
    ensures
        res == word_found(word@, parts@.map_values(|v: Vec<char>| v@), ci),
{
    let ghost pv = parts@.map_values(|v: Vec<char>| v@);
    let needle: Vec<char> = if ci {
        let w = crate::text::string_of(word);
        let l = to_lowercase(w.as_str());
        chars_of(l.as_str())
    } else {
        crate::text::copy(word)
    };
    let mut k: usize = 0;
    while k < parts.len()
        invariant
            k <= parts@.len(),
            pv == parts@.map_values(|v: Vec<char>| v@),
            needle@ == (if ci {
                unicode_lower(word@)
            } else {
                word@
            }),
            forall|j: int|
                0 <= j < k ==> !(if ci {
                    contains(unicode_lower(#[trigger] pv[j]), unicode_lower(word@))
                } else {
                    contains(pv[j], word@)
                }),
        decreases parts@.len() - k,
    {
        let hay: Vec<char> = if ci {
            let h = crate::text::string_of(parts[k].as_slice());
            let l = to_lowercase(h.as_str());
            chars_of(l.as_str())
        } else {
            crate::text::copy(parts[k].as_slice())
        };
        assert(pv[k as int] == parts@[k as int]@);
        if contains_exec(hay.as_slice(), needle.as_slice()) {
            return true;
        }
        k = k + 1;
    }
    false
}

fn evaluate_word_matcher(matcher: &Matcher, ctx: &MatchContext) -> (res: bool)
    requires
        (matcher.words matches Some(ws) && ws@.len() > 0) ==> part_readable(matcher.part, ctx.headers@),
    ensures
        res == word_matcher_holds(*matcher, ctx@),
{
    let words = match &matcher.words {
        Some(w) => w,
        None => return false,
    };
    if words.len() == 0 {
        return false;
    }
    let parts = select_parts(matcher, ctx);
    let ci = matcher.is_case_insensitive();
    let all = matcher.condition_and();
    let ghost pv = parts@.map_values(|v: Vec<char>| v@);
    let mut i: usize = 0;
    while i < words.len()
        invariant
            i <= words@.len(),
            matcher.words == Some(*words),
            pv == parts@.map_values(|v: Vec<char>| v@),
            pv == selected_parts(matcher.part, ctx@),
            ci == (matcher.case_insensitive == Some(true)),
            all == condition_is(matcher.condition, "and"@, false),
            all ==> forall|j: int| 0 <= j < i ==> word_found((#[trigger] words@[j])@, pv, ci),
            !all ==> forall|j: int| 0 <= j < i ==> !word_found((#[trigger] words@[j])@, pv, ci),
        decreases words@.len() - i,
    {
        let w = chars_of(words[i].as_str());
        let found = word_found_exec(w.as_slice(), &parts, ci);
        if all && !found {
            return false;
        }
        if !all && found {
            proof {
                let ws = matcher.words->0;
                assert(word_found(ws@[i as int]@, pv, ci));
            }
            return true;
        }
        i = i + 1;
    }
    all
}

fn pattern_found_exec(pattern: &str, parts: &Vec<Vec<char>>) -> (res: bool)
    ensures
        res == pattern_found(pattern@, parts@.map_values(|v: Vec<char>| v@)),
{
    let ghost pv = parts@.map_values(|v: Vec<char>| v@);
    let mut k: usize = 0;
    while k < parts.len()
        invariant
            k <= parts@.len(),
            pv == parts@.map_values(|v: Vec<char>| v@),
            forall|j: int| 0 <= j < k ==> regex_outcome(pattern@, #[trigger] pv[j]) != Some(true),
        decreases parts@.len() - k,
    {
        let hay = crate::text::string_of(parts[k].as_slice());
        assert(pv[k as int] == parts@[k as int]@);
        match regex_is_match(pattern, hay.as_str()) {
            Some(true) => {
                return true;
            },
            _ => {},
        }
        k = k + 1;
    }
    false
}

fn evaluate_regex_matcher(matcher: &Matcher, ctx: &MatchContext) -> (res: bool)
    requires
        (matcher.regex matches Some(ps) && ps@.len() > 0) ==> part_readable(matcher.part, ctx.headers@),
    ensures
        res == regex_matcher_holds(*matcher, ctx@),
{
    let patterns = match &matcher.regex {
        Some(r) => r,
        None => return false,
    };
    if patterns.len() == 0 {
        return false;
    }
    let parts = select_parts(matcher, ctx);
    let all = matcher.condition_and();
    let ghost pv = parts@.map_values(|v: Vec<char>| v@);
    let mut i: usize = 0;
    while i < patterns.len()
        invariant
            i <= patterns@.len(),
            matcher.regex == Some(*patterns),
            pv == parts@.map_values(|v: Vec<char>| v@),
            pv == selected_parts(matcher.part, ctx@),
            all == condition_is(matcher.condition, "and"@, false),
            all ==> forall|j: int| 0 <= j < i ==> pattern_found((#[trigger] patterns@[j])@, pv),
            !all ==> forall|j: int| 0 <= j < i ==> !pattern_found((#[trigger] patterns@[j])@, pv),
        decreases patterns@.len() - i,
    {
        let found = pattern_found_exec(patterns[i].as_str(), &parts);
        if all && !found {
            return false;
        }
        if !all && found {
            proof {
                let ps = matcher.regex->0;
                assert(pattern_found(ps@[i as int]@, pv));
            }
            return true;
        }
        i = i + 1;
    }
    all
}

fn evaluate_status_matcher(matcher: &Matcher, ctx: &MatchContext) -> (res: bool)
    ensures
        res == status_matcher_holds(*matcher, ctx@),
{
    let statuses = match &matcher.status {
        Some(s) => s,
        None => return false,
    };
    let mut i: usize = 0;
    while i < statuses.len()
        invariant
            i <= statuses@.len(),
            matcher.status == Some(*statuses),
            forall|j: int| 0 <= j < i ==> statuses@[j] != ctx.status_code,
        decreases statuses@.len() - i,
    {
        if statuses[i] == ctx.status_code {
            proof {
                let ss = matcher.status->0;
                assert(ss@[i as int] == ctx@.status);
            }
            return true;
        }
        i = i + 1;
    }
    false
}

fn evaluate_size_matcher(matcher: &Matcher, ctx: &MatchContext) -> (res: bool)
    ensures
        res == (ctx.content_length > 0),
{
    ctx.content_length > 0
}

fn parse_index_or_one(s: &[char]) -> (res: usize)
    ensures
        res as int == match parse_int(s@, 0, usize::MAX as int) {
            Some(v) => v,
            None => 1,
        },
{
    match parse_usize_exec(s) {
        Some(v) => v,
        None => 1,
    }
}

/// The value a DSL operand stands for.
fn resolve_dsl_value(expr: &[char], ctx: &MatchContext) -> (res: Vec<char>)
    ensures
        res@ == dsl_value(expr@, ctx@),
{
    let t = trim_chars(expr);
    let t1 = trim_char_exec(t.as_slice(), '"');
    let e = trim_char_exec(t1.as_slice(), '\'');
    let status = decimal_exec(ctx.status_code as u64);
    proof {
        reveal_strlit("status_code_");
        reveal_strlit("body_");
    }
    if eq_str(e.as_slice(), "status_code") || eq_str(e.as_slice(), "status_code_1") || eq_str(
        e.as_slice(),
        "status_code1",
    ) {
        status
    } else if starts_with_str(e.as_slice(), "status_code_") {
        let rest = slice_of(e.as_slice(), 12, e.len());
        assert(rest@ =~= e@.skip(12));
        if parse_index_or_one(rest.as_slice()) == 1 {
            status
        } else {
            chars_of("0")
        }
    } else if eq_str(e.as_slice(), "body") || eq_str(e.as_slice(), "body_1") {
        chars_of(ctx.body)
    } else if starts_with_str(e.as_slice(), "body_") {
        let rest = slice_of(e.as_slice(), 5, e.len());
        assert(rest@ =~= e@.skip(5));
        if parse_index_or_one(rest.as_slice()) == 1 {
            chars_of(ctx.body)
        } else {
            Vec::new()
        }
    } else if eq_str(e.as_slice(), "header") || starts_with_str(e.as_slice(), "header_") {
        chars_of(ctx.headers)
    } else {
        e
    }
}

fn evaluate_dsl_compare(expr: &[char], op: &str, ctx: &MatchContext, negate: bool) -> (res: bool)
    requires
        op@.len() > 0,
    ensures
        res == dsl_compare(expr@, op@, ctx@, negate),
{
    let opc = chars_of(op);
    let parts = split_exec(expr, opc.as_slice());
    let ghost pv = parts@.map_values(|v: Vec<char>| v@);
    if parts.len() != 2 {
        return false;
    }
    assert(pv[0] == parts@[0]@ && pv[1] == parts@[1]@);
    let a = trim_chars(parts[0].as_slice());
    let b = trim_chars(parts[1].as_slice());
    let va = resolve_dsl_value(a.as_slice(), ctx);
    let vb = resolve_dsl_value(b.as_slice(), ctx);
    chars_eq(va.as_slice(), vb.as_slice()) != negate
}

/// `a == b` for DSL operands.
fn evaluate_dsl_equals(expr: &[char], ctx: &MatchContext) -> (res: bool)
    ensures
        res == dsl_compare(expr@, "=="@, ctx@, false),
{
    proof {
        reveal_strlit("==");
    }
    evaluate_dsl_compare(expr, "==", ctx, false)
}

/// `a != b` for DSL operands.
fn evaluate_dsl_not_equals(expr: &[char], ctx: &MatchContext) -> (res: bool)
    ensures
        res == dsl_compare(expr@, "!="@, ctx@, true),
{
    proof {
        reveal_strlit("!=");
    }
    evaluate_dsl_compare(expr, "!=", ctx, true)
}

fn dsl_arg_exec(p: &[char]) -> (res: Vec<char>)
    ensures
        res@ == dsl_arg(p@),
{
    let t = trim_chars(p);
    let t1 = trim_char_exec(t.as_slice(), '"');
    trim_char_exec(t1.as_slice(), '\'')
}

/// `contains(target, needle)`.
fn evaluate_dsl_contains(inner: &[char], ctx: &MatchContext) -> (res: bool)
    ensures
        res == dsl_contains_holds(inner@, ctx@),
{
    proof {
        reveal_strlit(",");
    }
    let comma = chars_of(",");
    let parts = split_exec(inner, comma.as_slice());
    let ghost pv = parts@.map_values(|v: Vec<char>| v@);
    if parts.len() != 2 {
        return false;
    }
    assert(pv[0] == parts@[0]@ && pv[1] == parts@[1]@);
    let target_arg = dsl_arg_exec(parts[0].as_slice());
    let needle = dsl_arg_exec(parts[1].as_slice());
    let target = resolve_dsl_value(target_arg.as_slice(), ctx);
    contains_exec(target.as_slice(), needle.as_slice())
}

/// Whether one DSL expression holds.
fn evaluate_dsl_expression(expr: &[char], ctx: &MatchContext) -> (res: bool)
    ensures
        res == dsl_expr_holds(expr@, ctx@),
{
    let e = trim_chars(expr);
    let eq = chars_of("==");
    let ne = chars_of("!=");
    if contains_exec(e.as_slice(), eq.as_slice()) {
        return evaluate_dsl_equals(e.as_slice(), ctx);
    }
    if contains_exec(e.as_slice(), ne.as_slice()) {
        return evaluate_dsl_not_equals(e.as_slice(), ctx);
    }
    proof {
        reveal_strlit("contains(");
        reveal_strlit(")");
    }
    if starts_with_str(e.as_slice(), "contains(") {
        let rest = slice_of(e.as_slice(), 9, e.len());
        assert(rest@ =~= e@.skip(9));
        let close = chars_of(")");
        if crate::text::ends_with(rest.as_slice(), close.as_slice()) {
            let inner = slice_of(rest.as_slice(), 0, rest.len() - 1);
            assert(inner@ =~= rest@.drop_last());
            return evaluate_dsl_contains(inner.as_slice(), ctx);
        }
    }
    eq_str(e.as_slice(), "true") || eq_str(e.as_slice(), "True")
}

/// Whether a DSL matcher holds: all its expressions under `and`, one of them
/// otherwise.
pub fn evaluate_dsl_matcher(matcher: &Matcher, ctx: &MatchContext) -> (res: bool)
    ensures
        res == dsl_matcher_holds(*matcher, ctx@),
{
    let exprs = match &matcher.dsl {
        Some(e) => e,
        None => return false,
    };
    if exprs.len() == 0 {
        return false;
    }
    let all = matcher.condition_and();
    let mut i: usize = 0;
    while i < exprs.len()
        invariant
            i <= exprs@.len(),
            matcher.dsl == Some(*exprs),
            all == condition_is(matcher.condition, "and"@, false),
            all ==> forall|j: int|
                0 <= j < i ==> dsl_expr_holds(trim((#[trigger] exprs@[j])@), ctx@),
            !all ==> forall|j: int|
                0 <= j < i ==> !dsl_expr_holds(trim((#[trigger] exprs@[j])@), ctx@),
        decreases exprs@.len() - i,
    {
        let e = chars_of(exprs[i].as_str());
        let t = trim_chars(e.as_slice());
        let holds = evaluate_dsl_expression(t.as_slice(), ctx);
        if all && !holds {
            return false;
        }
        if !all && holds {
            proof {
                let es = matcher.dsl->0;
                assert(dsl_expr_holds(trim(es@[i as int]@), ctx@));
            }
            return true;
        }
        i = i + 1;
    }
    all
}

/// Whether one matcher holds for the response.
pub fn evaluate_single_matcher(matcher: &Matcher, ctx: &MatchContext) -> (res: bool)
    requires
        matcher_readable(*matcher, ctx.headers@),
    ensures
        res == matcher_holds(*matcher, ctx@),
{
    proof {
        reveal_strlit("word");
        reveal_strlit("regex");
    }
    let t = chars_of(matcher.matcher_type.as_str());
    let result = if eq_str(t.as_slice(), "word") {
        evaluate_word_matcher(matcher, ctx)
    } else if eq_str(t.as_slice(), "regex") {
        evaluate_regex_matcher(matcher, ctx)
    } else if eq_str(t.as_slice(), "status") {
        evaluate_status_matcher(matcher, ctx)
    } else if eq_str(t.as_slice(), "size") {
        evaluate_size_matcher(matcher, ctx)
    } else if eq_str(t.as_slice(), "dsl") {
        evaluate_dsl_matcher(matcher, ctx)
    } else {
        false
    };
    if matcher.is_negative() {
        !result
    } else {
        result
    }
}

/// Whether a matcher's part can be read from these headers: a part naming
/// one header whose first matching line has no colon must start with a
/// one-byte character.
pub fn part_readable_exec(part: &Option<String>, headers: &str) -> (res: bool)
    ensures
        res == part_readable(*part, headers@),
{
    proof {
        reveal_strlit("header=");
        reveal_strlit("header");
        reveal_strlit("headers");
        reveal_strlit("body");
        reveal_strlit("all");
        reveal_strlit("response");
        reveal_strlit("content_type");
    }
    let p: Vec<char> = match part {
        Some(s) => chars_of(s.as_str()),
        None => chars_of("body"),
    };
    if !starts_with_str(p.as_slice(), "header=") || eq_str(p.as_slice(), "header") || eq_str(
        p.as_slice(),
        "headers",
    ) || eq_str(p.as_slice(), "body") || eq_str(p.as_slice(), "all") || eq_str(
        p.as_slice(),
        "response",
    ) || eq_str(p.as_slice(), "content_type") {
        return true;
    }
    let name = slice_of(p.as_slice(), 7, p.len());
    assert(name@ =~= p@.skip(7));
    let name_s = crate::text::string_of(name.as_slice());
    let low = to_lowercase(name_s.as_str());
    let lname = chars_of(low.as_str());
    let hc = chars_of(headers);
    let ls = lines_exec(hc.as_slice());
    match first_line_with_prefix_exec(&ls, lname.as_slice()) {
        Some(i) => {
            let l = &ls[i];
            proof {
                assert(ls@.map_values(|v: Vec<char>| v@)[i as int] == l@);
            }
            match index_of_exec(l.as_slice(), ':') {
                Some(_) => true,
                None => l.len() > 0 && (l[0] as u32) < 128,
            }
        },
        None => true,
    }
}

/// Whether a matcher reads a part of the response.
pub fn matcher_reads_part_exec(m: &Matcher) -> (res: bool)
    ensures
        res == matcher_reads_part(*m),
{
    proof {
        reveal_strlit("word");
        reveal_strlit("regex");
        assert("word"@.len() != "regex"@.len());
    }
    let t = chars_of(m.matcher_type.as_str());
    if eq_str(t.as_slice(), "word") {
        match &m.words {
            Some(ws) => ws.len() > 0,
            None => false,
        }
    } else if eq_str(t.as_slice(), "regex") {
        match &m.regex {
            Some(ps) => ps.len() > 0,
            None => false,
        }
    } else {
        false
    }
}

/// Whether every matcher can be evaluated on these headers: each one that
/// reads its part can read it.
pub fn matchers_readable_exec(matchers: &[Matcher], headers: &str) -> (res: bool)
    ensures
        res == matchers_readable(matchers@, headers@),
{
    let mut i: usize = 0;
    while i < matchers.len()
        invariant
            i <= matchers@.len(),
            forall|j: int| 0 <= j < i ==> matcher_readable(#[trigger] matchers@[j], headers@),
        decreases matchers@.len() - i,
    {
        if matcher_reads_part_exec(&matchers[i]) && !part_readable_exec(&matchers[i].part, headers) {
            return false;
        }
        i = i + 1;
    }
    true
}

/// Inverting a matcher's negation inverts its outcome.
pub proof fn law_negation_inverts(m: Matcher, r: ResponseView)
    ensures
        matcher_holds(Matcher { negative: Some(!(m.negative == Some(true))), ..m }, r) == !matcher_holds(m, r),
{
}

/// A matcher of a type other than `word`, `regex`, `status`, `size` and
/// `dsl` (compared exactly) holds exactly when it is negative; it reads no
/// part, so it can be evaluated on any headers.
pub proof fn law_unknown_type_is_its_negation(m: Matcher, r: ResponseView, headers: Seq<char>)
    requires
        m.matcher_type@ != "word"@,
        m.matcher_type@ != "regex"@,
        m.matcher_type@ != "status"@,
        m.matcher_type@ != "size"@,
        m.matcher_type@ != "dsl"@,
    ensures
        matcher_holds(m, r) == (m.negative == Some(true)),
        matcher_readable(m, headers),
{
}

/// Whether a list of matchers holds: all of them when `condition` is `and`
/// (ignoring ASCII case), one of them otherwise; an empty list never holds.
pub fn evaluate_matchers(matchers: &[Matcher], condition: &str, ctx: &MatchContext) -> (res: bool)
    requires
        matchers_readable(matchers@, ctx.headers@),
    ensures
        res == matchers_hold(matchers@, condition@, ctx@),
{
    if matchers.len() == 0 {
        return false;
    }
    let cc = chars_of(condition);
    let and = chars_of("and");
    let all = crate::text::eq_ignore_ascii_case_exec(cc.as_slice(), and.as_slice());
    let mut i: usize = 0;
    while i < matchers.len()
        invariant
            i <= matchers@.len(),
            matchers_readable(matchers@, ctx.headers@),
            all == crate::text::eq_ignore_ascii_case(condition@, "and"@),
            all ==> forall|j: int| 0 <= j < i ==> matcher_holds(#[trigger] matchers@[j], ctx@),
            !all ==> forall|j: int| 0 <= j < i ==> !matcher_holds(#[trigger] matchers@[j], ctx@),
        decreases matchers@.len() - i,
    {
        let holds = evaluate_single_matcher(&matchers[i], ctx);
        if all && !holds {
            return false;
        }
        if !all && holds {
            return true;
        }
        i = i + 1;
    }
    all
}

/// The name a matcher reports; matchers carry none.
pub fn get_matcher_name(matcher: &Matcher) -> (res: Option<String>)
    ensures
        res is None,
{
    None
}

/// A status matcher holds exactly when the response status is one of the
/// statuses it lists, wherever in the list: every listed status equal to
/// the response's makes it hold, and it holds only through such a status;
/// a negative matcher holds exactly when that fails.
pub proof fn law_status_matcher_any_listed(m: Matcher, r: ResponseView)
    requires
        m.matcher_type@ == "status"@,
    ensures
        forall|i: int|
            m.status is Some && 0 <= i < m.status->0@.len() && #[trigger] m.status->0@[i] == r.status
                ==> matcher_raw(m, r),
        matcher_raw(m, r) ==> m.status is Some && exists|i: int|
            0 <= i < m.status->0@.len() && #[trigger] m.status->0@[i] == r.status,
        m.status is None ==> !matcher_raw(m, r),
        matcher_holds(m, r) == (matcher_raw(m, r) != (m.negative == Some(true))),
{
    reveal_strlit("status");
    reveal_strlit("word");
    reveal_strlit("regex");
    assert("status"@.len() != "word"@.len() && "status"@.len() != "regex"@.len());
}

/// `w` occurs in `p`, after lower-casing both when `ci`.
pub open spec fn occurs_in(w: Seq<char>, p: Seq<char>, ci: bool) -> bool {
    if ci {
        contains(unicode_lower(p), unicode_lower(w))
    } else {
        contains(p, w)
    }
}

/// `w` occurs in one of `parts`, after lower-casing both when `ci`.
pub open spec fn occurs_in_some(w: Seq<char>, parts: Seq<Seq<char>>, ci: bool) -> bool {
    exists|k: int| 0 <= k < parts.len() && occurs_in(w, #[trigger] parts[k], ci)
}

/// A word matcher looks for each of its words in the selected parts of the
/// response, after lower-casing both when it is case-insensitive. Under the
/// `and` condition it holds exactly when every word occurs in some part;
/// otherwise it holds exactly when some word occurs in some part. A matcher
/// without words never holds.
pub proof fn law_word_matcher_finds_words(m: Matcher, r: ResponseView)
    requires
        m.matcher_type@ == "word"@,
    ensures
        (m.words is None || m.words->0@.len() == 0) ==> !matcher_raw(m, r),
        (m.words is Some && m.words->0@.len() > 0 && condition_is(m.condition, "and"@, false)) ==> (
        matcher_raw(m, r) <==> forall|i: int|
            0 <= i < m.words->0@.len() ==> occurs_in_some(
                #[trigger] m.words->0@[i]@,
                selected_parts(m.part, r),
                m.case_insensitive == Some(true),
            )),
        (m.words is Some && !condition_is(m.condition, "and"@, false)) ==> (matcher_raw(m, r) <==> exists|i: int|
            0 <= i < m.words->0@.len() && occurs_in_some(
                #[trigger] m.words->0@[i]@,
                selected_parts(m.part, r),
                m.case_insensitive == Some(true),
            )),
{
    reveal_strlit("word");
    let parts = selected_parts(m.part, r);
    let ci = m.case_insensitive == Some(true);
    assert(matcher_raw(m, r) == word_matcher_holds(m, r));
    assert forall|w: Seq<char>| #[trigger] word_found(w, parts, ci) == occurs_in_some(w, parts, ci) by {
        if word_found(w, parts, ci) {
            let k = choose|k: int|
                0 <= k < parts.len() && (if ci {
                    contains(unicode_lower(#[trigger] parts[k]), unicode_lower(w))
                } else {
                    contains(parts[k], w)
                });
            assert(occurs_in(w, parts[k], ci));
        }
        if occurs_in_some(w, parts, ci) {
            let k = choose|k: int| 0 <= k < parts.len() && occurs_in(w, #[trigger] parts[k], ci);
            assert(if ci {
                contains(unicode_lower(parts[k]), unicode_lower(w))
            } else {
                contains(parts[k], w)
            });
        }
    }
}

/// A size matcher holds exactly when the response has a positive content
/// length.
pub proof fn law_size_matcher(m: Matcher, r: ResponseView)
    requires
        m.matcher_type@ == "size"@,
    ensures
        matcher_raw(m, r) == (r.content_length > 0),
{
    reveal_strlit("size");
    reveal_strlit("word");
    reveal_strlit("regex");
    reveal_strlit("status");
    assert("size"@.len() != "regex"@.len() && "size"@.len() != "status"@.len());
    assert("size"@[0] != "word"@[0]);
}

/// A list of matchers under `and` (in any ASCII case) fails as soon as one
/// of them fails and holds when all of them hold; under any other condition
/// it holds as soon as one of them holds and fails when none does. An empty
/// list never holds.
pub proof fn law_matcher_list_condition(ms: Seq<Matcher>, condition: Seq<char>, r: ResponseView)
    ensures
        ms.len() == 0 ==> !matchers_hold(ms, condition, r),
        crate::text::eq_ignore_ascii_case(condition, "and"@) ==> (forall|i: int|
            0 <= i < ms.len() && !matcher_holds(#[trigger] ms[i], r) ==> !matchers_hold(ms, condition, r)),
        crate::text::eq_ignore_ascii_case(condition, "and"@) && ms.len() > 0 && (forall|i: int|
            0 <= i < ms.len() ==> matcher_holds(#[trigger] ms[i], r)) ==> matchers_hold(ms, condition, r),
        !crate::text::eq_ignore_ascii_case(condition, "and"@) ==> (forall|i: int|
            0 <= i < ms.len() && matcher_holds(#[trigger] ms[i], r) ==> matchers_hold(ms, condition, r)),
        !crate::text::eq_ignore_ascii_case(condition, "and"@) && (forall|i: int|
            0 <= i < ms.len() ==> !matcher_holds(#[trigger] ms[i], r)) ==> !matchers_hold(ms, condition, r),
{
}

/// A regular-expression matcher tries each of its patterns on the selected
/// parts of the response. Under the `and` condition it holds exactly when
/// every pattern compiles and matches some part; otherwise it holds exactly
/// when some pattern compiles and matches some part. A matcher without
/// patterns never holds. A DSL matcher likewise needs every expression
/// under `and` and one of them otherwise.
pub proof fn law_regex_and_dsl_matchers(m: Matcher, r: ResponseView)
    ensures
        m.matcher_type@ == "regex"@ ==> ((m.regex is None || m.regex->0@.len() == 0) ==> !matcher_raw(m, r)),
        m.matcher_type@ == "regex"@ && m.regex is Some && m.regex->0@.len() > 0 && condition_is(
            m.condition,
            "and"@,
            false,
        ) ==> (matcher_raw(m, r) <==> forall|i: int|
            0 <= i < m.regex->0@.len() ==> exists|k: int|
                #![trigger selected_parts(m.part, r)[k]]
                0 <= k < selected_parts(m.part, r).len() && regex_outcome(
                    (#[trigger] m.regex->0@[i])@,
                    selected_parts(m.part, r)[k],
                ) == Some(true)),
        m.matcher_type@ == "regex"@ && m.regex is Some && !condition_is(m.condition, "and"@, false) ==> (
        matcher_raw(m, r) <==> exists|i: int, k: int|
            0 <= i < m.regex->0@.len() && 0 <= k < selected_parts(m.part, r).len() && regex_outcome(
                (#[trigger] m.regex->0@[i])@,
                #[trigger] selected_parts(m.part, r)[k],
            ) == Some(true)),
        m.matcher_type@ == "dsl"@ ==> ((m.dsl is None || m.dsl->0@.len() == 0) ==> !matcher_raw(m, r)),
        m.matcher_type@ == "dsl"@ && m.dsl is Some && m.dsl->0@.len() > 0 && condition_is(m.condition, "and"@, false)
            ==> (matcher_raw(m, r) <==> forall|i: int|
            0 <= i < m.dsl->0@.len() ==> dsl_expr_holds(trim((#[trigger] m.dsl->0@[i])@), r)),
        m.matcher_type@ == "dsl"@ && m.dsl is Some && !condition_is(m.condition, "and"@, false) ==> (matcher_raw(
            m,
            r,
        ) <==> exists|i: int| 0 <= i < m.dsl->0@.len() && dsl_expr_holds(trim((#[trigger] m.dsl->0@[i])@), r)),
{
    reveal_strlit("word");
    reveal_strlit("regex");
    reveal_strlit("status");
    reveal_strlit("size");
    reveal_strlit("dsl");
    assert("regex"@.len() != "word"@.len());
    assert("dsl"@.len() != "word"@.len() && "dsl"@.len() != "regex"@.len() && "dsl"@.len() != "status"@.len()
        && "dsl"@.len() != "size"@.len());
    let parts = selected_parts(m.part, r);
    if m.matcher_type@ == "regex"@ && m.regex is Some {
        let ps = m.regex->0;
        if !condition_is(m.condition, "and"@, false) && matcher_raw(m, r) {
            let i = choose|i: int| 0 <= i < ps@.len() && pattern_found((#[trigger] ps@[i])@, parts);
            let k = choose|k: int| 0 <= k < parts.len() && regex_outcome(ps@[i]@, #[trigger] parts[k]) == Some(true);
            assert(regex_outcome(ps@[i]@, parts[k]) == Some(true));
        }
        if !condition_is(m.condition, "and"@, false) && exists|i: int, k: int|
            0 <= i < ps@.len() && 0 <= k < parts.len() && regex_outcome(
                (#[trigger] ps@[i])@,
                #[trigger] parts[k],
            ) == Some(true) {
            let (i, k) = choose|i: int, k: int|
                0 <= i < ps@.len() && 0 <= k < parts.len() && regex_outcome(
                    (#[trigger] ps@[i])@,
                    #[trigger] parts[k],
                ) == Some(true);
            assert(pattern_found(ps@[i]@, parts));
        }
    }
}

/// A matcher looks at the body when it names no part or names `body`, at
/// the headers for `header` and `headers`, at both (headers first) for
/// `all` and `response`, and at the body for any part it does not know.
pub proof fn law_matcher_parts(part: Option<String>, r: ResponseView)
    ensures
        part is None ==> selected_parts(part, r) == seq![r.body],
        part matches Some(p) && (p@ == "header"@ || p@ == "headers"@) ==> selected_parts(part, r) == seq![r.headers],
        part matches Some(p) && p@ == "body"@ ==> selected_parts(part, r) == seq![r.body],
        part matches Some(p) && (p@ == "all"@ || p@ == "response"@) ==> selected_parts(part, r) == seq![
            r.headers,
            r.body,
        ],
        part matches Some(p) && !(p@ == "header"@ || p@ == "headers"@ || p@ == "body"@ || p@ == "all"@ || p@
            == "response"@ || p@ == "content_type"@ || has_prefix(p@, "header="@)) ==> selected_parts(part, r)
            == seq![r.body],
{
    reveal_strlit("body");
    reveal_strlit("header");
    reveal_strlit("headers");
    reveal_strlit("all");
    reveal_strlit("response");
    reveal_strlit("content_type");
    reveal_strlit("header=");
    assert("body"@.len() != "header"@.len() && "body"@.len() != "headers"@.len() && "body"@[0] != "all"@[0]
        && "body"@.len() != "response"@.len() && "body"@.len() != "content_type"@.len());
    assert(!has_prefix("body"@, "header="@));
    assert("header"@.len() != "headers"@.len());
    assert("all"@.len() != "response"@.len());
}

} // verus!
