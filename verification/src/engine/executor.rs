//! Running a template against a target: preparing each request, reading raw
//! HTTP requests, extracting values from responses, and deciding what
//! matched.
use vstd::prelude::*;
use crate::commands::rules::{pair_lookup, pair_set, pairs_map, pairs_view};
use crate::config::opt_view;
use crate::engine::template::{Extractor, HttpRequest, MatchResult, NucleiTemplate};
use crate::engine::matcher::{part_name, MatchContext, ResponseView};
use crate::json::{JsonValue, json_document};
use crate::text::{
    chars_of, concat, eq_ignore_ascii_case, eq_ignore_ascii_case_exec, has_prefix, join_str, lines,
    owned, split_once_char, split_ws, string_of, trim, views,
};

verus! {

// ---------------------------------------------------------------------------
// Raw requests
// ---------------------------------------------------------------------------

/// `a` and `b` joined by a newline, or `b` alone when there is no `a`.
pub open spec fn joined_lines(ls: Seq<Seq<char>>) -> Seq<char>
    decreases ls.len(),
{
    if ls.len() == 0 {
        Seq::empty()
    } else if ls.len() == 1 {
        ls[0]
    } else {
        joined_lines(ls.drop_last()) + seq!['\n'] + ls.last()
    }
}

/// The text starts with an HTTP or HTTPS scheme.
pub open spec fn has_http_scheme(s: Seq<char>) -> bool {
    has_prefix(s, "http://"@) || has_prefix(s, "https://"@)
}

/// The state of reading a raw request's lines after the first: the URL so
/// far, the headers, whether the body has begun, and its lines.
pub struct RawScan {
    pub url: Seq<char>,
    pub headers: Map<Seq<char>, Seq<char>>,
    pub in_body: bool,
    pub body: Seq<Seq<char>>,
}

/// Reads the lines after the request line: a blank line starts the body;
/// before it, `name: value` lines are headers, and a `Host` header gives
/// the URL (`http://host:80path` without extra headers, `https://host:443path`
/// with them) unless the request path is a full URL.
pub open spec fn raw_scan(ls: Seq<Seq<char>>, raw_path: Seq<char>, extra_empty: bool) -> RawScan
    decreases ls.len(),
{
    if ls.len() == 0 {
        RawScan { url: raw_path, headers: Map::empty(), in_body: false, body: Seq::empty() }
    } else {
        let s = raw_scan(ls.drop_last(), raw_path, extra_empty);
        let line = ls.last();
        if s.in_body {
            RawScan { body: s.body.push(line), ..s }
        } else if trim(line).len() == 0 {
            RawScan { in_body: true, ..s }
        } else {
            match split_once_char(line, ':') {
                Some((k, v)) => {
                    let key = trim(k);
                    let value = trim(v);
                    let url = if eq_ignore_ascii_case(key, "Host"@) && !has_http_scheme(raw_path) {
                        if extra_empty {
                            "http://"@ + value + ":80"@ + raw_path
                        } else {
                            "https://"@ + value + ":443"@ + raw_path
                        }
                    } else {
                        s.url
                    };
                    RawScan { url, headers: s.headers.insert(key, value), ..s }
                },
                None => s,
            }
        }
    }
}

/// The request a raw HTTP text describes.
pub struct RawRequestView {
    pub url: Seq<char>,
    pub method: Seq<char>,
    pub headers: Map<Seq<char>, Seq<char>>,
    pub body: Seq<char>,
}

/// The request a raw HTTP text describes: method and path from the request
/// line (`GET` and `/` when missing), headers and body from the rest, and a
/// URL that always has a scheme (`https` without extra headers, `http` with
/// them, when nothing else gave one).
pub open spec fn raw_request(raw: Seq<char>, extra_empty: bool) -> RawRequestView {
    let ls = lines(raw);
    let request_line = if ls.len() > 0 {
        ls[0]
    } else {
        "GET / HTTP/1.1"@
    };
    let parts = split_ws(request_line);
    let method = if parts.len() > 0 {
        parts[0]
    } else {
        "GET"@
    };
    let raw_path = if parts.len() > 1 {
        parts[1]
    } else {
        "/"@
    };
    let s = raw_scan(if ls.len() > 0 {
        ls.drop_first()
    } else {
        Seq::empty()
    }, raw_path, extra_empty);
    let url1 = if has_http_scheme(raw_path) {
        raw_path
    } else {
        s.url
    };
    let url = if has_http_scheme(url1) {
        url1
    } else {
        (if extra_empty {
            "https"@
        } else {
            "http"@
        }) + "://"@ + (if url1.len() > 0 && url1[0] == '/' {
            url1.drop_first()
        } else {
            url1
        })
    };
    RawRequestView { url, method, headers: s.headers, body: joined_lines(s.body) }
}

fn has_http_scheme_exec(s: &[char]) -> (res: bool)
    ensures
        res == has_http_scheme(s@),
{
    crate::text::starts_with_str(s, "http://") || crate::text::starts_with_str(s, "https://")
}

/// Reads a raw HTTP request: URL, method, headers and body.
pub fn parse_raw_http(raw_text: &str, extra_headers: &Vec<(String, String)>) -> (res: (String, String, Vec<(String, String)>, String))
    ensures
        ({
            let r = raw_request(raw_text@, extra_headers@.len() == 0);
            &&& res.0@ == r.url
            &&& res.1@ == r.method
            &&& pairs_map(pairs_view(res.2@)) == r.headers
            &&& res.3@ == r.body
        }),
{
    let extra_empty = extra_headers.len() == 0;
    let cs = chars_of(raw_text);
    let ls = crate::text::lines_exec(cs.as_slice());
    let ghost lv = ls@.map_values(|v: Vec<char>| v@);
    let request_line: Vec<char> = if ls.len() > 0 {
        crate::text::copy(ls[0].as_slice())
    } else {
        chars_of("GET / HTTP/1.1")
    };
    let rl = string_of(request_line.as_slice());
    let parts = crate::text::split_whitespace_exec(rl.as_str());
    let method = if parts.len() > 0 {
        owned(parts[0].as_str())
    } else {
        owned("GET")
    };
    let raw_path = if parts.len() > 1 {
        chars_of(parts[1].as_str())
    } else {
        chars_of("/")
    };
    let ghost rest = if lv.len() > 0 {
        lv.drop_first()
    } else {
        Seq::<Seq<char>>::empty()
    };
    let mut url: Vec<char> = crate::text::copy(raw_path.as_slice());
    let mut headers: Vec<(String, String)> = Vec::new();
    let mut in_body = false;
    let mut body: Vec<Vec<char>> = Vec::new();
    let mut i: usize = if ls.len() > 0 {
        1
    } else {
        0
    };
    let ghost start = i;
    proof {
        assert(rest.take(0) =~= Seq::<Seq<char>>::empty());
        assert(pairs_map(pairs_view(headers@)) =~= Map::<Seq<char>, Seq<char>>::empty());
    }
    while i < ls.len()
        invariant
            start <= i <= lv.len(),
            lv == ls@.map_values(|v: Vec<char>| v@),
            start == (if lv.len() > 0 { 1int } else { 0int }),
            rest == (if lv.len() > 0 { lv.drop_first() } else { Seq::<Seq<char>>::empty() }),
            ({
                let s = raw_scan(rest.take(i - start), raw_path@, extra_empty);
                &&& url@ == s.url
                &&& pairs_map(pairs_view(headers@)) == s.headers
                &&& in_body == s.in_body
                &&& body@.map_values(|v: Vec<char>| v@) == s.body
            }),
        decreases lv.len() - i,
    {
        let line = &ls[i];
        proof {
            assert(rest.take(i + 1 - start).drop_last() =~= rest.take(i - start));
            assert(rest.take(i + 1 - start).last() == line@);
        }
        if in_body {
            let ghost before = body@.map_values(|v: Vec<char>| v@);
            body.push(crate::text::copy(line.as_slice()));
            assert(body@.map_values(|v: Vec<char>| v@) =~= before.push(line@));
        } else if crate::text::trim_chars(line.as_slice()).len() == 0 {
            in_body = true;
        } else {
            proof {
                crate::text::lemma_index_of(line@, ':');
            }
            match crate::text::split_once_char_exec(line.as_slice(), ':') {
                Some((k, v)) => {
                    let key = crate::text::trim_chars(k.as_slice());
                    let value = crate::text::trim_chars(v.as_slice());
                    let host = chars_of("Host");
                    if eq_ignore_ascii_case_exec(key.as_slice(), host.as_slice()) && !has_http_scheme_exec(raw_path.as_slice()) {
                        let (scheme, port) = if extra_empty {
                            (chars_of("http://"), chars_of(":80"))
                        } else {
                            (chars_of("https://"), chars_of(":443"))
                        };
                        let a = concat(scheme.as_slice(), value.as_slice());
                        let b = concat(a.as_slice(), port.as_slice());
                        url = concat(b.as_slice(), raw_path.as_slice());
                    }
                    pair_set(&mut headers, string_of(key.as_slice()), string_of(value.as_slice()));
                },
                None => {},
            }
        }
        i = i + 1;
    }
    proof {
        if lv.len() > 0 {
            assert(rest.take(i - start) =~= rest);
        } else {
            assert(rest.take(i - start) =~= rest);
        }
    }
    let url1: Vec<char> = if has_http_scheme_exec(raw_path.as_slice()) {
        raw_path
    } else {
        url
    };
    let final_url: Vec<char> = if has_http_scheme_exec(url1.as_slice()) {
        url1
    } else {
        let scheme = if extra_empty {
            chars_of("https")
        } else {
            chars_of("http")
        };
        let sep = chars_of("://");
        let a = concat(scheme.as_slice(), sep.as_slice());
        let tail = if url1.len() > 0 && url1[0] == '/' {
            let t = crate::text::slice_of(url1.as_slice(), 1, url1.len());
            assert(t@ =~= url1@.drop_first());
            t
        } else {
            url1
        };
        concat(a.as_slice(), tail.as_slice())
    };
    let joined = join_with_newlines(&body);
    (string_of(final_url.as_slice()), method, headers, string_of(joined.as_slice()))
}

/// Lines joined by newlines.
fn join_with_newlines(ls: &Vec<Vec<char>>) -> (res: Vec<char>)
    ensures
        res@ == joined_lines(ls@.map_values(|v: Vec<char>| v@)),
{
    let ghost lv = ls@.map_values(|v: Vec<char>| v@);
    let mut out: Vec<char> = Vec::new();
    let mut i: usize = 0;
    while i < ls.len()
        invariant
            i <= lv.len(),
            lv == ls@.map_values(|v: Vec<char>| v@),
            out@ == joined_lines(lv.take(i as int)),
        decreases lv.len() - i,
    {
        proof {
            assert(lv.take(i + 1).drop_last() =~= lv.take(i as int));
            assert(lv.take(i + 1).last() == ls@[i as int]@);
        }
        if i == 0 {
            out = crate::text::copy(ls[0].as_slice());
            assert(lv.take(1) =~= seq![lv[0]]);
        } else {
            let mut nl: Vec<char> = Vec::new();
            nl.push('\n');
            let a = concat(out.as_slice(), nl.as_slice());
            out = concat(a.as_slice(), ls[i].as_slice());
            assert(nl@ =~= seq!['\n']);
        }
        i = i + 1;
    }
    assert(lv.take(i as int) =~= lv);
    out
}

// ---------------------------------------------------------------------------
// Extractors
// ---------------------------------------------------------------------------

/// The text an extractor reads: the headers, the body, or both (headers, a
/// newline, body); the body for any other part.
pub open spec fn extractor_part(part: Option<String>, r: ResponseView) -> Seq<char> {
    let p = part_name(part);
    if p == "header"@ || p == "headers"@ {
        r.headers
    } else if p == "body"@ {
        r.body
    } else if p == "all"@ || p == "response"@ {
        r.headers + seq!['\n'] + r.body
    } else {
        r.body
    }
}

/// The text an extractor reads.
pub fn get_extractor_part(extractor: &Extractor, ctx: &MatchContext) -> (res: String)
    ensures
        res@ == extractor_part(extractor.part, ctx@),
{
    let part: Vec<char> = match &extractor.part {
        Some(p) => chars_of(p.as_str()),
        None => chars_of("body"),
    };
    if crate::text::eq_str(part.as_slice(), "header") || crate::text::eq_str(part.as_slice(), "headers") {
        owned(ctx.headers)
    } else if crate::text::eq_str(part.as_slice(), "body") {
        owned(ctx.body)
    } else if crate::text::eq_str(part.as_slice(), "all") || crate::text::eq_str(part.as_slice(), "response") {
        let a = join_str(ctx.headers, "\n");
        assert("\n"@ =~= seq!['\n']) by {
            reveal_strlit("\n");
        }
        join_str(a.as_str(), ctx.body)
    } else {
        owned(ctx.body)
    }
}

/// The views of extracted values by name.
pub open spec fn results_view(v: Seq<(String, Vec<String>)>) -> Seq<(Seq<char>, Seq<Seq<char>>)> {
    v.map_values(|p: (String, Vec<String>)| (p.0@, views(p.1@)))
}

/// The values of the first entry named `k`.
pub open spec fn values_of(v: Seq<(Seq<char>, Seq<Seq<char>>)>, k: Seq<char>) -> Option<Seq<Seq<char>>>
    decreases v.len(),
{
    if v.len() == 0 {
        None
    } else if v[0].0 == k {
        Some(v[0].1)
    } else {
        values_of(v.drop_first(), k)
    }
}

/// Extracted values as a map from name to values.
pub open spec fn results_map(v: Seq<(Seq<char>, Seq<Seq<char>>)>) -> Map<Seq<char>, Seq<Seq<char>>> {
    Map::new(|k: Seq<char>| values_of(v, k) is Some, |k: Seq<char>| values_of(v, k)->0)
}

/// `value` appended to the values of `name`.
pub open spec fn with_value(m: Map<Seq<char>, Seq<Seq<char>>>, name: Seq<char>, value: Seq<char>) -> Map<Seq<char>, Seq<Seq<char>>> {
    m.insert(
        name,
        if m.contains_key(name) {
            m[name]
        } else {
            Seq::empty()
        }.push(value),
    )
}

proof fn lemma_values_after_update(v: Seq<(Seq<char>, Seq<Seq<char>>)>, j: int, k: Seq<char>, val: Seq<Seq<char>>, q: Seq<char>)
    requires
        0 <= j < v.len(),
        v[j].0 == k,
        forall|m: int| 0 <= m < j ==> v[m].0 != k,
    ensures
        values_of(v.update(j, (k, val)), q) == if q == k {
            Some(val)
        } else {
            values_of(v, q)
        },
    decreases j,
{
    let u = v.update(j, (k, val));
    if j > 0 {
        assert(u.drop_first() =~= v.drop_first().update(j - 1, (k, val)));
        assert(u[0] == v[0]);
        lemma_values_after_update(v.drop_first(), j - 1, k, val, q);
    } else {
        assert(u.drop_first() =~= v.drop_first());
        assert(u[0] == (k, val));
    }
}

proof fn lemma_values_after_push(v: Seq<(Seq<char>, Seq<Seq<char>>)>, k: Seq<char>, val: Seq<Seq<char>>, q: Seq<char>)
    requires
        forall|m: int| 0 <= m < v.len() ==> v[m].0 != k,
    ensures
        values_of(v.push((k, val)), q) == if q == k {
            Some(val)
        } else {
            values_of(v, q)
        },
    decreases v.len(),
{
    let u = v.push((k, val));
    if v.len() > 0 {
        assert(u.drop_first() =~= v.drop_first().push((k, val)));
        assert(u[0] == v[0]);
        lemma_values_after_push(v.drop_first(), k, val, q);
    } else {
        assert(u[0] == (k, val));
        assert(u.drop_first() =~= Seq::<(Seq<char>, Seq<Seq<char>>)>::empty());
        assert(values_of(u.drop_first(), q) is None);
        assert(values_of(v, q) is None);
    }
}

proof fn lemma_values_first(v: Seq<(Seq<char>, Seq<Seq<char>>)>, j: int, k: Seq<char>)
    requires
        0 <= j < v.len(),
        v[j].0 == k,
        forall|m: int| 0 <= m < j ==> v[m].0 != k,
    ensures
        values_of(v, k) == Some(v[j].1),
    decreases j,
{
    if j > 0 {
        lemma_values_first(v.drop_first(), j - 1, k);
    }
}

/// No name twice, and every name has values.
pub open spec fn results_wf(v: Seq<(Seq<char>, Seq<Seq<char>>)>) -> bool {
    &&& forall|a: int, b: int| 0 <= a < b < v.len() ==> (#[trigger] v[a]).0 != (#[trigger] v[b]).0
    &&& forall|a: int| 0 <= a < v.len() ==> (#[trigger] v[a]).1.len() > 0
}

/// Appends `value` to the values of `name`.
pub fn push_value(results: &mut Vec<(String, Vec<String>)>, name: &str, value: String)
    requires
        results_wf(results_view(old(results)@)),
    ensures
        results_wf(results_view(final(results)@)),
        results_map(results_view(final(results)@)) == with_value(results_map(results_view(old(results)@)), name@, value@),
{
    let nc = chars_of(name);
    let ghost ov = results_view(results@);
    let mut i: usize = 0;
    while i < results.len()
        invariant
            i <= results@.len(),
            ov == results_view(results@),
            results@ == old(results)@,
            results_wf(ov),
            nc@ == name@,
            forall|m: int| 0 <= m < i ==> ov[m].0 != name@,
        decreases results@.len() - i,
    {
        let c = chars_of(results[i].0.as_str());
        if crate::text::chars_eq(c.as_slice(), nc.as_slice()) {
            let mut list = crate::text::clone_strings(results[i].1.as_slice());
            let ghost vv = value@;
            let ghost old_list = views(list@);
            list.push(value);
            let ghost nl = views(list@);
            assert(nl =~= old_list.push(vv));
            results.set(i, (owned(name), list));
            proof {
                let nv = results_view(results@);
                assert(nv =~= ov.update(i as int, (name@, nl)));
                assert forall|a: int, b: int| 0 <= a < b < nv.len() implies (#[trigger] nv[a]).0 != (#[trigger] nv[b]).0 by {
                    assert(ov[a].0 != ov[b].0);
                    assert(nv[a].0 == ov[a].0 && nv[b].0 == ov[b].0);
                }
                assert forall|a: int| 0 <= a < nv.len() implies (#[trigger] nv[a]).1.len() > 0 by {
                    if a != i {
                        assert(nv[a] == ov[a]);
                    }
                }
                lemma_values_first(ov, i as int, name@);
                assert(results_view(results@) =~= ov.update(i as int, (name@, nl)));
                assert forall|q: Seq<char>| #![trigger values_of(results_view(results@), q)]
                    values_of(results_view(results@), q) == if q == name@ {
                        Some(nl)
                    } else {
                        values_of(ov, q)
                    } by {
                    lemma_values_after_update(ov, i as int, name@, nl, q);
                }
                assert(results_map(results_view(results@)) =~= with_value(results_map(ov), name@, vv));
            }
            return;
        }
        i = i + 1;
    }
    let ghost vv = value@;
    let mut list: Vec<String> = Vec::new();
    list.push(value);
    let ghost nl = views(list@);
    assert(nl =~= seq![vv]);
    results.push((owned(name), list));
    proof {
        assert(results_view(results@) =~= ov.push((name@, nl)));
        let nv = results_view(results@);
        assert forall|a: int, b: int| 0 <= a < b < nv.len() implies (#[trigger] nv[a]).0 != (#[trigger] nv[b]).0 by {
            if b == ov.len() {
                assert(nv[a] == ov[a]);
            } else {
                assert(nv[a] == ov[a] && nv[b] == ov[b]);
            }
        }
        assert forall|a: int| 0 <= a < nv.len() implies (#[trigger] nv[a]).1.len() > 0 by {
            if a < ov.len() {
                assert(nv[a] == ov[a]);
            }
        }
        assert forall|q: Seq<char>| #![trigger values_of(results_view(results@), q)]
            values_of(results_view(results@), q) == if q == name@ {
                Some(nl)
            } else {
                values_of(ov, q)
            } by {
            lemma_values_after_push(ov, name@, nl, q);
        }
        assert(values_of(ov, name@) is None) by {
            lemma_values_absent(ov, name@);
        }
        assert(results_map(results_view(results@)) =~= with_value(results_map(ov), name@, vv));
    }
}

proof fn lemma_values_absent(v: Seq<(Seq<char>, Seq<Seq<char>>)>, k: Seq<char>)
    requires
        forall|m: int| 0 <= m < v.len() ==> v[m].0 != k,
    ensures
        values_of(v, k) is None,
    decreases v.len(),
{
    if v.len() > 0 {
        lemma_values_absent(v.drop_first(), k);
    }
}

/// `key: value` lines of a text add each non-empty value under its key.
pub open spec fn kval_extracted(m: Map<Seq<char>, Seq<Seq<char>>>, ls: Seq<Seq<char>>) -> Map<Seq<char>, Seq<Seq<char>>>
    decreases ls.len(),
{
    if ls.len() == 0 {
        m
    } else {
        let m1 = kval_extracted(m, ls.drop_last());
        match split_once_char(ls.last(), ':') {
            Some((k, v)) => if trim(v).len() > 0 {
                with_value(m1, trim(k), trim(v))
            } else {
                m1
            },
            None => m1,
        }
    }
}

/// Extracts `key: value` pairs from the lines of the extractor's part.
pub fn run_kval_extractor(extractor: &Extractor, ctx: &MatchContext, results: &mut Vec<(String, Vec<String>)>)
    requires
        results_wf(results_view(old(results)@)),
    ensures
        results_wf(results_view(final(results)@)),
        results_map(results_view(final(results)@)) == kval_extracted(
            results_map(results_view(old(results)@)),
            lines(extractor_part(extractor.part, ctx@)),
        ),
{
    let part = get_extractor_part(extractor, ctx);
    let ls = crate::text::lines_exec(chars_of(part.as_str()).as_slice());
    let ghost lv = ls@.map_values(|v: Vec<char>| v@);
    let ghost m0 = results_map(results_view(results@));
    let mut i: usize = 0;
    assert(lv.take(0) =~= Seq::<Seq<char>>::empty());
    while i < ls.len()
        invariant
            i <= lv.len(),
            lv == ls@.map_values(|v: Vec<char>| v@),
            results_wf(results_view(results@)),
            results_map(results_view(results@)) == kval_extracted(m0, lv.take(i as int)),
        decreases lv.len() - i,
    {
        proof {
            assert(lv.take(i + 1).drop_last() =~= lv.take(i as int));
            assert(lv.take(i + 1).last() == ls@[i as int]@);
        }
        match crate::text::split_once_char_exec(ls[i].as_slice(), ':') {
            Some((k, v)) => {
                let key = crate::text::trim_chars(k.as_slice());
                let value = crate::text::trim_chars(v.as_slice());
                if value.len() > 0 {
                    push_value(results, string_of(key.as_slice()).as_str(), string_of(value.as_slice()));
                }
            },
            None => {},
        }
        i = i + 1;
    }
    assert(lv.take(i as int) =~= lv);
}

/// The groups of the leftmost match of a regular expression, each with its
/// text when it took part; nothing when the pattern does not compile or
/// does not match.
pub uninterp spec fn regex_captures(pattern: Seq<char>, haystack: Seq<char>) -> Option<Seq<Option<Seq<char>>>>;

pub open spec fn groups_view(g: Option<Vec<Option<String>>>) -> Option<Seq<Option<Seq<char>>>> {
    match g {
        Some(v) => Some(v@.map_values(|o: Option<String>| opt_view(o))),
        None => None,
    }
}

/// `regex::Regex::new(pattern)`, then `captures(haystack)`: each group's
/// text, or none when the group did not take part. The outcome depends on
/// the two texts alone.
#[verifier::external_body]
fn capture_groups(pattern: &str, haystack: &str) -> (res: Option<Vec<Option<String>>>)
    ensures
        groups_view(res) == regex_captures(pattern@, haystack@),
{
    regex::Regex::new(pattern).ok().and_then(
        |re| re.captures(haystack).map(|c| c.iter().map(|m| m.map(|x| x.as_str().to_string())).collect()),
    )
}

/// The value a match yields: the asked group when it exists, else the whole
/// match.
pub open spec fn captured_value(groups: Seq<Option<Seq<char>>>, group: int) -> Option<Seq<char>> {
    if group > 0 && group < groups.len() {
        groups[group]
    } else if groups.len() > 0 {
        groups[0]
    } else {
        None
    }
}

/// Each pattern that matches adds the asked group (or the whole match)
/// under the extractor's name (`extracted` by default).
pub open spec fn regex_extracted(
    m: Map<Seq<char>, Seq<Seq<char>>>,
    patterns: Seq<Seq<char>>,
    part: Seq<char>,
    group: int,
    name: Seq<char>,
) -> Map<Seq<char>, Seq<Seq<char>>>
    decreases patterns.len(),
{
    if patterns.len() == 0 {
        m
    } else {
        let m1 = regex_extracted(m, patterns.drop_last(), part, group, name);
        match regex_captures(patterns.last(), part) {
            Some(groups) => match captured_value(groups, group) {
                Some(v) => with_value(m1, name, v),
                None => m1,
            },
            None => m1,
        }
    }
}

/// The name values are recorded under: the extractor's, else `default`.
pub open spec fn name_or(name: Option<String>, default: Seq<char>) -> Seq<char> {
    match name {
        Some(n) => n@,
        None => default,
    }
}

/// Extracts with regular expressions.
pub fn run_regex_extractor(extractor: &Extractor, ctx: &MatchContext, results: &mut Vec<(String, Vec<String>)>)
    requires
        results_wf(results_view(old(results)@)),
    ensures
        results_wf(results_view(final(results)@)),
        results_map(results_view(final(results)@)) == match extractor.regex {
            Some(ps) => regex_extracted(
                results_map(results_view(old(results)@)),
                views(ps@),
                extractor_part(extractor.part, ctx@),
                match extractor.group {
                    Some(g) => g as int,
                    None => 0,
                },
                name_or(extractor.name, "extracted"@),
            ),
            None => results_map(results_view(old(results)@)),
        },
{
    let patterns = match &extractor.regex {
        Some(p) => p,
        None => {
            return;
        },
    };
    let part = get_extractor_part(extractor, ctx);
    let group: u32 = match extractor.group {
        Some(g) => g,
        None => 0,
    };
    let name = match &extractor.name {
        Some(n) => owned(n.as_str()),
        None => owned("extracted"),
    };
    let ghost pv = views(patterns@);
    let ghost m0 = results_map(results_view(results@));
    let mut i: usize = 0;
    assert(pv.take(0) =~= Seq::<Seq<char>>::empty());
    while i < patterns.len()
        invariant
            i <= pv.len(),
            pv == views(patterns@),
            extractor.regex == Some(*patterns),
            results_wf(results_view(results@)),
            results_map(results_view(results@)) == regex_extracted(m0, pv.take(i as int), part@, group as int, name@),
        decreases pv.len() - i,
    {
        proof {
            assert(pv.take(i + 1).drop_last() =~= pv.take(i as int));
            assert(pv.take(i + 1).last() == patterns@[i as int]@);
        }
        match capture_groups(patterns[i].as_str(), part.as_str()) {
            Some(groups) => {
                let ghost gv = groups@.map_values(|o: Option<String>| opt_view(o));
                let chosen: Option<&Option<String>> = if group > 0 && (group as usize) < groups.len() {
                    Some(&groups[group as usize])
                } else if groups.len() > 0 {
                    Some(&groups[0])
                } else {
                    None
                };
                match chosen {
                    Some(Some(v)) => {
                        push_value(results, name.as_str(), owned(v.as_str()));
                    },
                    _ => {},
                }
            },
            None => {},
        }
        i = i + 1;
    }
    assert(pv.take(i as int) =~= pv);
}

/// The text a JSON extractor takes from a document: a string, number,
/// boolean or `null` as written, an object's keys joined by commas; nothing
/// for an array.
pub open spec fn json_text(v: JsonValue) -> Option<Seq<char>> {
    match v {
        JsonValue::Str(s) => Some(s@),
        JsonValue::Number(n) => Some(n@),
        JsonValue::Bool(b) => Some(
            if b {
                "true"@
            } else {
                "false"@
            },
        ),
        JsonValue::Null => Some("null"@),
        JsonValue::Object(members) => Some(joined_keys(members@)),
        JsonValue::Array(_) => None,
    }
}

/// Keys joined by commas.
pub open spec fn joined_keys(members: Seq<(String, JsonValue)>) -> Seq<char>
    decreases members.len(),
{
    if members.len() == 0 {
        Seq::empty()
    } else if members.len() == 1 {
        members[0].0@
    } else {
        joined_keys(members.drop_last()) + ","@ + members.last().0@
    }
}

/// The text a JSON extractor takes from a document.
pub fn extract_json_value(value: &JsonValue) -> (res: Option<String>)
    ensures
        opt_view(res) == json_text(*value),
{
    match value {
        JsonValue::Str(s) => Some(owned(s.as_str())),
        JsonValue::Number(n) => Some(owned(n.as_str())),
        JsonValue::Bool(b) => Some(owned(if *b { "true" } else { "false" })),
        JsonValue::Null => Some(owned("null")),
        JsonValue::Object(members) => {
            proof {
                reveal_strlit(",");
            }
            let mut out: Vec<char> = Vec::new();
            let mut i: usize = 0;
            while i < members.len()
                invariant
                    i <= members@.len(),
                    out@ == joined_keys(members@.take(i as int)),
                decreases members@.len() - i,
            {
                proof {
                    assert(members@.take(i + 1).drop_last() =~= members@.take(i as int));
                    assert(members@.take(i + 1).last() == members@[i as int]);
                }
                let k = chars_of(members[i].0.as_str());
                if i == 0 {
                    out = k;
                    assert(members@.take(1).len() == 1);
                } else {
                    let comma = chars_of(",");
                    let a = concat(out.as_slice(), comma.as_slice());
                    out = concat(a.as_slice(), k.as_slice());
                }
                i = i + 1;
            }
            assert(members@.take(i as int) =~= members@);
            Some(string_of(out.as_slice()))
        },
        JsonValue::Array(_) => None,
    }
}

/// When the part is JSON, each listed path adds the document's text under
/// the extractor's name (`json_extracted` by default); the paths
/// themselves are not followed.
pub open spec fn json_extracted(m: Map<Seq<char>, Seq<Seq<char>>>, paths: nat, part: Seq<char>, name: Seq<char>) -> Map<Seq<char>, Seq<Seq<char>>>
    decreases paths,
{
    if paths == 0 {
        m
    } else {
        let m1 = json_extracted(m, (paths - 1) as nat, part, name);
        match json_document(part) {
            Ok((v, _)) => match json_text(v) {
                Some(t) => with_value(m1, name, t),
                None => m1,
            },
            Err(_) => m1,
        }
    }
}

proof fn lemma_json_extracted_unparsed(m: Map<Seq<char>, Seq<Seq<char>>>, paths: nat, part: Seq<char>, name: Seq<char>)
    requires
        json_document(part) is Err,
    ensures
        json_extracted(m, paths, part, name) == m,
    decreases paths,
{
    if paths > 0 {
        lemma_json_extracted_unparsed(m, (paths - 1) as nat, part, name);
    }
}

/// Extracts from a JSON part.
pub fn run_json_extractor(extractor: &Extractor, ctx: &MatchContext, results: &mut Vec<(String, Vec<String>)>)
    requires
        results_wf(results_view(old(results)@)),
    ensures
        results_wf(results_view(final(results)@)),
        results_map(results_view(final(results)@)) == match extractor.json {
            Some(ps) => json_extracted(
                results_map(results_view(old(results)@)),
                ps@.len(),
                extractor_part(extractor.part, ctx@),
                name_or(extractor.name, "json_extracted"@),
            ),
            None => results_map(results_view(old(results)@)),
        },
{
    let paths = match &extractor.json {
        Some(p) => p,
        None => {
            return;
        },
    };
    let part = get_extractor_part(extractor, ctx);
    let name = match &extractor.name {
        Some(n) => owned(n.as_str()),
        None => owned("json_extracted"),
    };
    let ghost m0 = results_map(results_view(results@));
    match crate::json::parse_json(part.as_str()) {
        Ok((doc, _)) => {
            let text = extract_json_value(&doc);
            let mut i: usize = 0;
            while i < paths.len()
                invariant
                    i <= paths@.len(),
                    extractor.json == Some(*paths),
                    results_wf(results_view(results@)),
                    opt_view(text) == json_text(doc),
                    json_document(part@) matches Ok((d, _)) && d == doc,
                    results_map(results_view(results@)) == json_extracted(m0, i as nat, part@, name@),
                decreases paths@.len() - i,
            {
                match &text {
                    Some(t) => {
                        push_value(results, name.as_str(), owned(t.as_str()));
                    },
                    None => {},
                }
                i = i + 1;
            }
        },
        Err(_) => {
            proof {
                lemma_json_extracted_unparsed(m0, paths@.len(), part@, name@);
            }
        },
    }
}

/// What one extractor adds.
pub open spec fn extractor_step(m: Map<Seq<char>, Seq<Seq<char>>>, e: Extractor, r: ResponseView) -> Map<Seq<char>, Seq<Seq<char>>> {
    let t = e.extractor_type@;
    let part = extractor_part(e.part, r);
    if t == "regex"@ {
        match e.regex {
            Some(ps) => regex_extracted(
                m,
                views(ps@),
                part,
                match e.group {
                    Some(g) => g as int,
                    None => 0,
                },
                name_or(e.name, "extracted"@),
            ),
            None => m,
        }
    } else if t == "json"@ {
        match e.json {
            Some(ps) => json_extracted(m, ps@.len(), part, name_or(e.name, "json_extracted"@)),
            None => m,
        }
    } else if t == "kval"@ {
        kval_extracted(m, lines(part))
    } else {
        m
    }
}

/// What a list of extractors adds, in order.
pub open spec fn extracted_all(es: Seq<Extractor>, r: ResponseView) -> Map<Seq<char>, Seq<Seq<char>>>
    decreases es.len(),
{
    if es.len() == 0 {
        Map::empty()
    } else {
        extractor_step(extracted_all(es.drop_last(), r), es.last(), r)
    }
}

/// The values a request's extractors take from a response.
pub open spec fn request_extractions(req: HttpRequest, r: ResponseView) -> Map<Seq<char>, Seq<Seq<char>>> {
    match req.extractors {
        Some(es) => extracted_all(es@, r),
        None => Map::empty(),
    }
}

/// The variables after extraction: each name's first value replaces the
/// variable of that name.
pub open spec fn vars_after(dv: Map<Seq<char>, Seq<char>>, res: Map<Seq<char>, Seq<Seq<char>>>) -> Map<Seq<char>, Seq<char>> {
    Map::new(
        |k: Seq<char>| dv.contains_key(k) || (res.contains_key(k) && res[k].len() > 0),
        |k: Seq<char>| if res.contains_key(k) && res[k].len() > 0 {
            res[k][0]
        } else {
            dv[k]
        },
    )
}

proof fn lemma_results_prefix(v: Seq<(Seq<char>, Seq<Seq<char>>)>, i: int)
    requires
        results_wf(v),
        0 <= i < v.len(),
    ensures
        results_map(v.take(i + 1)) == results_map(v.take(i)).insert(v[i].0, v[i].1),
{
    let p = v.take(i);
    assert(v.take(i + 1) =~= p.push(v[i]));
    assert forall|q: Seq<char>| #![trigger values_of(v.take(i + 1), q)]
        values_of(v.take(i + 1), q) == if q == v[i].0 {
            Some(v[i].1)
        } else {
            values_of(p, q)
        } by {
        assert forall|m: int| 0 <= m < p.len() implies p[m].0 != v[i].0 by {
            assert(v[m].0 != v[i].0);
        }
        lemma_values_after_push(p, v[i].0, v[i].1, q);
    }
    assert(results_map(v.take(i + 1)) =~= results_map(p).insert(v[i].0, v[i].1));
}

/// Runs a request's extractors on a response; each name's first value
/// becomes the variable of that name.
pub fn run_extractors(
    request: &HttpRequest,
    ctx: &MatchContext,
    dynamic_vars: &mut Vec<(String, String)>,
) -> (res: Vec<(String, Vec<String>)>)
    ensures
        results_wf(results_view(res@)),
        results_map(results_view(res@)) == request_extractions(*request, ctx@),
        pairs_map(pairs_view(final(dynamic_vars)@)) == vars_after(
            pairs_map(pairs_view(old(dynamic_vars)@)),
            results_map(results_view(res@)),
        ),
{
    let mut results: Vec<(String, Vec<String>)> = Vec::new();
    assert(results_map(results_view(results@)) =~= Map::<Seq<char>, Seq<Seq<char>>>::empty());
    let ghost dv0 = pairs_map(pairs_view(dynamic_vars@));
    match &request.extractors {
        Some(es) => {
            let ghost ev = es@;
            let mut i: usize = 0;
            assert(ev.take(0) =~= Seq::<Extractor>::empty());
            while i < es.len()
                invariant
                    i <= ev.len(),
                    ev == es@,
                    results_wf(results_view(results@)),
                    results_map(results_view(results@)) == extracted_all(ev.take(i as int), ctx@),
                decreases ev.len() - i,
            {
                let e = &es[i];
                proof {
                    assert(ev.take(i + 1).drop_last() =~= ev.take(i as int));
                    assert(ev.take(i + 1).last() == *e);
                }
                let t = chars_of(e.extractor_type.as_str());
                if crate::text::eq_str(t.as_slice(), "regex") {
                    run_regex_extractor(e, ctx, &mut results);
                } else if crate::text::eq_str(t.as_slice(), "json") {
                    run_json_extractor(e, ctx, &mut results);
                } else if crate::text::eq_str(t.as_slice(), "kval") {
                    run_kval_extractor(e, ctx, &mut results);
                }
                i = i + 1;
            }
            assert(ev.take(i as int) =~= ev);
        },
        None => {},
    }
    let ghost rv = results_view(results@);
    let ghost rm = results_map(rv);
    let mut k: usize = 0;
    assert(rv.take(0) =~= Seq::<(Seq<char>, Seq<Seq<char>>)>::empty());
    assert(vars_after(dv0, results_map(rv.take(0))) =~= dv0);
    while k < results.len()
        invariant
            k <= rv.len(),
            rv == results_view(results@),
            results_wf(rv),
            pairs_map(pairs_view(dynamic_vars@)) == vars_after(dv0, results_map(rv.take(k as int))),
        decreases rv.len() - k,
    {
        let (name, values) = &results[k];
        proof {
            lemma_results_prefix(rv, k as int);
            assert(rv[k as int] == (name@, views(values@)));
            assert(values@.len() > 0);
        }
        let first = owned(values[0].as_str());
        let ghost before = pairs_map(pairs_view(dynamic_vars@));
        pair_set(dynamic_vars, owned(name.as_str()), first);
        proof {
            let m = results_map(rv.take(k as int));
            assert(vars_after(dv0, m.insert(name@, views(values@))) =~= vars_after(dv0, m).insert(
                name@,
                views(values@)[0],
            ));
        }
        k = k + 1;
    }
    assert(rv.take(k as int) =~= rv);
    results
}

// ---------------------------------------------------------------------------
// A template run
// ---------------------------------------------------------------------------

/// The requests a request definition sends: its raw requests, else its
/// paths.
pub open spec fn request_paths(r: HttpRequest) -> Seq<String> {
    if r.raw@.len() > 0 {
        r.raw@
    } else {
        r.path@
    }
}

/// The first (request, path) slot at or after `(req, path)` that exists.
pub open spec fn next_slot(t: NucleiTemplate, req: int, path: int) -> Option<(int, int)>
    decreases t.http@.len() - req,
{
    if req < 0 || req >= t.http@.len() {
        None
    } else if 0 <= path < request_paths(t.http@[req]).len() {
        Some((req, path))
    } else {
        next_slot(t, req + 1, 0)
    }
}

/// A response to a request.
#[derive(Debug, Clone)]
pub struct HttpResponse {
    pub status: u16,
    /// Header lines, `name: value` each.
    pub headers: String,
    pub body: String,
}

/// A request ready to send: which slot it fills, and its text with
/// variables filled in.
#[derive(Debug, Clone)]
pub struct PreparedRequest {
    pub request_index: usize,
    pub path_index: usize,
    /// The URL, or the raw request text.
    pub target: String,
    pub headers: Vec<(String, String)>,
    pub body: Option<String>,
    /// Whether `target` is a raw request.
    pub raw: bool,
}

/// Running a template against a target: the next slot, what matched, the
/// extracted variables, and whether the run is over.
pub struct TemplateRun {
    next_request: usize,
    next_path: usize,
    results: Vec<MatchResult>,
    dynamic_vars: Vec<(String, String)>,
    finished: bool,
}

/// The view of a run.
pub struct RunView {
    pub next_request: int,
    pub next_path: int,
    pub results: Seq<MatchResult>,
    /// The extracted variables, in the order they were first set.
    pub var_pairs: Seq<(Seq<char>, Seq<char>)>,
    pub vars: Map<Seq<char>, Seq<char>>,
    pub finished: bool,
}

impl View for TemplateRun {
    type V = RunView;

    closed spec fn view(&self) -> RunView {
        RunView {
            next_request: self.next_request as int,
            next_path: self.next_path as int,
            results: self.results@,
            var_pairs: pairs_view(self.dynamic_vars@),
            vars: pairs_map(pairs_view(self.dynamic_vars@)),
            finished: self.finished,
        }
    }
}

/// The (name, values) views of extracted values.
pub open spec fn match_extractions(m: MatchResult) -> Seq<(Seq<char>, Seq<Seq<char>>)> {
    results_view(m.extractors@)
}

/// The record of a match: the template, the request target that matched,
/// the values extracted, and where it was found.
pub open spec fn match_record(m: MatchResult, t: NucleiTemplate, p: PreparedRequest, extracted: Map<Seq<char>, Seq<Seq<char>>>) -> bool {
    &&& m.template_id@ == t.id@
    &&& m.name@ == t.info.name@
    &&& m.severity@ == t.info.severity@
    &&& m.matched_at@ == p.target@
    &&& m.matcher_name is None
    &&& results_wf(match_extractions(m))
    &&& results_map(match_extractions(m)) == extracted
    &&& m.detail@ == "template_id="@ + t.id@ + ", request="@ + crate::text::decimal(p.request_index as nat)
        + ", path="@ + crate::text::decimal(p.path_index as nat)
}

/// The response as matchers see it.
pub open spec fn response_view(r: HttpResponse) -> ResponseView {
    ResponseView {
        body: r.body@,
        headers: r.headers@,
        status: r.status,
        content_length: (vstd::utf8::encode_utf8(r.body@).len() as usize) as u64,
    }
}

/// The matchers of a request (none when it lists none).
pub open spec fn request_matchers(r: HttpRequest) -> Seq<crate::engine::template::Matcher> {
    match r.matchers {
        Some(ms) => ms@,
        None => Seq::empty(),
    }
}

/// How a request's matchers combine (`or` when it says nothing).
pub open spec fn request_condition(r: HttpRequest) -> Seq<char> {
    match r.matchers_condition {
        Some(c) => c@,
        None => "or"@,
    }
}

impl TemplateRun {
    /// A run that has sent nothing.
    pub fn new() -> (res: Self)
        ensures
            res@.next_request == 0,
            res@.next_path == 0,
            res@.results.len() == 0,
            res@.var_pairs.len() == 0,
            res@.vars == Map::<Seq<char>, Seq<char>>::empty(),
            !res@.finished,
    {
        let r = TemplateRun {
            next_request: 0,
            next_path: 0,
            results: Vec::new(),
            dynamic_vars: Vec::new(),
            finished: false,
        };
        assert(pairs_map(pairs_view(r.dynamic_vars@)) =~= Map::<Seq<char>, Seq<char>>::empty());
        r
    }

    /// The matches so far.
    pub fn results(&self) -> (res: &Vec<MatchResult>)
        ensures
            res@ == self@.results,
    {
        &self.results
    }

    /// Whether the run is over.
    pub fn is_finished(&self) -> (res: bool)
        ensures
            res == self@.finished,
    {
        self.finished
    }

    /// The next request to send, with the target's variables and the
    /// extracted values filled in; none, and the run over, when every slot
    /// has been sent.
    pub fn next_request(&mut self, template: &NucleiTemplate, target: &str) -> (res: Option<PreparedRequest>)
        ensures
            next_step_rel(old(self)@, final(self)@, res is Some),
            old(self)@.finished ==> res is None && final(self)@ == old(self)@,
            !old(self)@.finished ==> match next_slot(*template, old(self)@.next_request, old(self)@.next_path) {
                None => res is None && final(self)@ == (RunView { finished: true, ..old(self)@ }),
                Some((i, j)) => res matches Some(p) && {
                    let req = template.http@[i];
                    &&& p.request_index == i
                    &&& p.path_index == j
                    &&& p.raw == (req.raw@.len() > 0)
                    &&& (exists|seed: u32|
                        p.target@ == crate::engine::variables::variables_replaced(
                            request_paths(req)[j]@,
                            target@,
                            seed,
                        ))
                    &&& p.headers@.len() == req.headers@.len()
                    &&& forall|h: int|
                        0 <= h < req.headers@.len() ==> (#[trigger] p.headers@[h]).0@ == req.headers@[h].0@
                            && exists|seed: u32|
                            p.headers@[h].1@ == crate::engine::variables::dynamic_replaced(
                                crate::engine::variables::variables_replaced(req.headers@[h].1@, target@, seed),
                                old(self)@.var_pairs,
                            )
                    &&& (req.body is None ==> p.body is None)
                    &&& (req.body matches Some(b) ==> p.body matches Some(pb) && exists|seed: u32|
                        pb@ == crate::engine::variables::variables_replaced(b@, target@, seed))
                    &&& final(self)@ == (RunView { next_request: i, next_path: j + 1, ..old(self)@ })
                },
            },
    {
        if self.finished {
            return None;
        }
        let ghost t = *template;
        let mut i = self.next_request;
        let mut j = self.next_path;
        while i < template.http.len() && j >= template.http[i].effective_paths().len()
            invariant
                t == *template,
                next_slot(t, old(self)@.next_request, old(self)@.next_path) == next_slot(t, i as int, j as int),
                !old(self)@.finished,
                *self == *old(self),
            decreases t.http@.len() - i,
        {
            i = i + 1;
            j = 0;
        }
        if i >= template.http.len() {
            self.finished = true;
            return None;
        }
        let req = &template.http[i];
        let paths = req.effective_paths();
        let url = crate::engine::variables::replace_variables(paths[j].as_str(), target);
        let headers = crate::engine::variables::replace_headers(
            req.headers.as_slice(),
            target,
            self.dynamic_vars.as_slice(),
        );
        let body = match &req.body {
            Some(b) => Some(crate::engine::variables::replace_variables(b.as_str(), target)),
            None => None,
        };
        proof {
            assert(pairs_view(self.dynamic_vars@) =~= crate::engine::variables::pair_views(
                self.dynamic_vars@,
            ));
        }
        self.next_request = i;
        self.next_path = j + 1;
        Some(PreparedRequest { request_index: i, path_index: j, target: url, headers, body, raw: req.has_raw() })
    }

    /// Takes in the response to a prepared request (none when sending
    /// failed). When the request has matchers and they hold, the match is
    /// recorded with the values its extractors took, those values become
    /// variables, and a request that stops at its first match ends the run;
    /// otherwise nothing changes.
    pub fn record_response(
        &mut self,
        template: &NucleiTemplate,
        prepared: &PreparedRequest,
        response: Option<&HttpResponse>,
    )
        requires
            prepared.request_index < template.http@.len(),
            response matches Some(r) ==> crate::engine::matcher::matchers_readable(
                request_matchers(template.http@[prepared.request_index as int]),
                r.headers@,
            ),
        ensures
            record_step_rel(
                old(self)@,
                final(self)@,
                template.http@[prepared.request_index as int].stop_at_first_match == Some(true),
            ),
            ({
                let req = template.http@[prepared.request_index as int];
                match response {
                    Some(r) => if crate::engine::matcher::matchers_hold(
                        request_matchers(req),
                        request_condition(req),
                        response_view(*r),
                    ) {
                        let ex = request_extractions(req, response_view(*r));
                        &&& final(self)@.results.len() == old(self)@.results.len() + 1
                        &&& final(self)@.results.drop_last() == old(self)@.results
                        &&& match_record(final(self)@.results.last(), *template, *prepared, ex)
                        &&& final(self)@.vars == vars_after(old(self)@.vars, ex)
                        &&& final(self)@.finished == (old(self)@.finished || req.stop_at_first_match
                            == Some(true))
                        &&& final(self)@.next_request == old(self)@.next_request
                        &&& final(self)@.next_path == old(self)@.next_path
                    } else {
                        final(self)@ == old(self)@
                    },
                    None => final(self)@ == old(self)@,
                }
            }),
    {
        let resp = match response {
            Some(r) => r,
            None => {
                return;
            },
        };
        let req = &template.http[prepared.request_index];
        let matchers: &[crate::engine::template::Matcher] = match &req.matchers {
            Some(m) => m.as_slice(),
            None => &[],
        };
        proof {
            assert(matchers@ == request_matchers(*req));
        }
        if matchers.len() == 0 {
            return;
        }
        let len = resp.body.as_str().len();
        let ctx = MatchContext {
            body: resp.body.as_str(),
            headers: resp.headers.as_str(),
            status_code: resp.status,
            content_length: len as u64,
        };
        assert(ctx@ == response_view(*resp));
        let condition: &str = match &req.matchers_condition {
            Some(c) => c.as_str(),
            None => "or",
        };
        assert(condition@ == request_condition(*req));
        if !crate::engine::matcher::evaluate_matchers(matchers, condition, &ctx) {
            return;
        }
        let extracted = run_extractors(req, &ctx, &mut self.dynamic_vars);
        let rid = decimal_of_usize(prepared.request_index);
        let pid = decimal_of_usize(prepared.path_index);
        let detail = detail_text(template.id.as_str(), rid.as_slice(), pid.as_slice());
        let m = MatchResult {
            template_id: template.id.clone(),
            name: template.info.name.clone(),
            severity: template.info.severity.clone(),
            matched_at: prepared.target.clone(),
            matcher_name: None,
            extractors: extracted,
            detail,
        };
        let ghost before = self.results@;
        self.results.push(m);
        proof {
            assert(self.results@.drop_last() =~= before);
        }
        let stop = match req.stop_at_first_match {
            Some(b) => b,
            None => false,
        };
        if stop {
            self.finished = true;
        }
    }
}

/// A number in decimal.
fn decimal_of_usize(n: usize) -> (res: Vec<char>)
    ensures
        res@ == crate::text::decimal(n as nat),
{
    crate::text::decimal_exec(n as u64)
}

/// The detail line of a match.
fn detail_text(id: &str, request: &[char], path: &[char]) -> (res: String)
    ensures
        res@ == "template_id="@ + id@ + ", request="@ + request@ + ", path="@ + path@,
{
    let a = chars_of("template_id=");
    let b = chars_of(id);
    let c = chars_of(", request=");
    let d = chars_of(", path=");
    let x1 = concat(a.as_slice(), b.as_slice());
    let x2 = concat(x1.as_slice(), c.as_slice());
    let x3 = concat(x2.as_slice(), request);
    let x4 = concat(x3.as_slice(), d.as_slice());
    let x5 = concat(x4.as_slice(), path);
    string_of(x5.as_slice())
}

/// The HTTP method a request is sent with: its method in upper case when it
/// is one of GET, POST, PUT, DELETE, PATCH, HEAD and OPTIONS, GET otherwise.
pub fn http_method_name(method: Option<&str>) -> (res: String)
    ensures
        ({
            let up = crate::text::unicode_upper(
                match method {
                    Some(m) => m@,
                    None => "GET"@,
                },
            );
            res@ == if up == "GET"@ || up == "POST"@ || up == "PUT"@ || up == "DELETE"@ || up
                == "PATCH"@ || up == "HEAD"@ || up == "OPTIONS"@ {
                up
            } else {
                "GET"@
            }
        }),
{
    let m = match method {
        Some(m) => m,
        None => "GET",
    };
    let up = crate::text::to_uppercase(m);
    let uc = chars_of(up.as_str());
    let u = uc.as_slice();
    if crate::text::eq_str(u, "GET") || crate::text::eq_str(u, "POST") || crate::text::eq_str(u, "PUT")
        || crate::text::eq_str(u, "DELETE") || crate::text::eq_str(u, "PATCH")
        || crate::text::eq_str(u, "HEAD") || crate::text::eq_str(u, "OPTIONS") {
        up
    } else {
        owned("GET")
    }
}

/// Response headers written one per line as `name: value`.
pub open spec fn header_lines(h: Seq<(Seq<char>, Seq<char>)>) -> Seq<char>
    decreases h.len(),
{
    if h.len() == 0 {
        Seq::empty()
    } else {
        header_lines(h.drop_last()) + h.last().0 + ": "@ + h.last().1 + "\n"@
    }
}

/// Writes response headers one per line as `name: value`.
pub fn format_headers(headers: &[(String, String)]) -> (res: String)
    ensures
        res@ == header_lines(pairs_view(headers@)),
{
    let ghost hv = pairs_view(headers@);
    let mut out = String::new();
    let mut i: usize = 0;
    assert(hv.take(0) =~= Seq::<(Seq<char>, Seq<char>)>::empty());
    while i < headers.len()
        invariant
            i <= headers@.len(),
            hv == pairs_view(headers@),
            out@ == header_lines(hv.take(i as int)),
        decreases headers@.len() - i,
    {
        let (k, v) = &headers[i];
        proof {
            assert(hv.take(i + 1).drop_last() =~= hv.take(i as int));
            assert(hv.take(i + 1).last() == (k@, v@));
        }
        let a = join_str(out.as_str(), k.as_str());
        let b = join_str(a.as_str(), ": ");
        let c = join_str(b.as_str(), v.as_str());
        out = join_str(c.as_str(), "\n");
        i = i + 1;
    }
    assert(hv.take(i as int) =~= hv);
    out
}

/// A (request, path) slot of the template that exists.
pub open spec fn slot_exists(t: NucleiTemplate, req: int, path: int) -> bool {
    0 <= req < t.http@.len() && 0 <= path < request_paths(t.http@[req]).len()
}

/// Slot `(a, b)` comes before slot `(c, d)`.
pub open spec fn slot_before(a: int, b: int, c: int, d: int) -> bool {
    a < c || (a == c && b < d)
}

/// What asking for the next request does to a run: the matches and
/// variables stay; a finished run stays as it is and sends nothing; a run
/// that sends nothing is finished afterwards.
pub open spec fn next_step_rel(a: RunView, b: RunView, sent: bool) -> bool {
    &&& b.results == a.results
    &&& b.vars == a.vars
    &&& b.var_pairs == a.var_pairs
    &&& (a.finished ==> b == a && !sent)
    &&& (!sent ==> b.finished)
    &&& (sent ==> !b.finished)
}

/// What taking in a response does to a run: nothing, or one match appended
/// to those before it, after which the run is finished when it was or when
/// the request stops at its first match.
pub open spec fn record_step_rel(a: RunView, b: RunView, stops: bool) -> bool {
    ||| b == a
    ||| {
        &&& b.results.len() == a.results.len() + 1
        &&& b.results.drop_last() == a.results
        &&& b.finished == (a.finished || stops)
    }
}

/// One step of a run: asking for the next request, or taking in a response.
pub open spec fn run_step(a: RunView, b: RunView) -> bool {
    ||| exists|sent: bool| #[trigger] next_step_rel(a, b, sent)
    ||| exists|stops: bool| #[trigger] record_step_rel(a, b, stops)
}

/// A whole run of a template, step by step: the matches are only ever
/// appended, so they come in the order they were found; a finished run
/// stays finished; once finished it sends no further request; and a match
/// on a request that stops at its first match finishes the run.
pub proof fn law_template_run(vs: Seq<RunView>)
    requires
        forall|i: int| 0 <= i < vs.len() - 1 ==> run_step(#[trigger] vs[i], vs[i + 1]),
    ensures
        forall|i: int, j: int|
            0 <= i <= j < vs.len() ==> (#[trigger] vs[j]).results.len() >= (#[trigger] vs[i]).results.len()
                && vs[j].results.take(vs[i].results.len() as int) == vs[i].results,
        forall|i: int, j: int|
            0 <= i <= j < vs.len() && (#[trigger] vs[i]).finished ==> (#[trigger] vs[j]).finished,
        forall|i: int, sent: bool|
            0 <= i < vs.len() - 1 && vs[i].finished && #[trigger] next_step_rel(vs[i], vs[i + 1], sent)
                ==> !sent,
        forall|i: int|
            0 <= i < vs.len() - 1 && record_step_rel(#[trigger] vs[i], vs[i + 1], true) && vs[i + 1].results.len()
                > vs[i].results.len() ==> vs[i + 1].finished,
    decreases vs.len(),
{
    if vs.len() > 1 {
        let rest = vs.drop_first();
        assert forall|i: int| 0 <= i < rest.len() - 1 implies run_step(#[trigger] rest[i], rest[i + 1]) by {
            assert(rest[i] == vs[i + 1] && rest[i + 1] == vs[i + 2]);
            assert(run_step(vs[i + 1], vs[i + 2]));
        }
        law_template_run(rest);
        assert(run_step(vs[0], vs[1]));
        let a = vs[0];
        let b = vs[1];
        assert(b.results.len() >= a.results.len() && b.results.take(a.results.len() as int) == a.results && (
        a.finished ==> b.finished)) by {
            if exists|sent: bool| #[trigger] next_step_rel(a, b, sent) {
                assert(b.results.take(a.results.len() as int) =~= a.results);
            } else {
                let stops = choose|stops: bool| #[trigger] record_step_rel(a, b, stops);
                if b != a {
                    assert(b.results.take(a.results.len() as int) =~= b.results.drop_last());
                }
            }
        }
        assert forall|i: int, j: int|
            0 <= i <= j < vs.len() implies (#[trigger] vs[j]).results.len() >= (#[trigger] vs[i]).results.len()
            && vs[j].results.take(vs[i].results.len() as int) == vs[i].results by {
            if i == 0 && j > 0 {
                assert(vs[j] == rest[j - 1] && vs[1] == rest[0]);
                let r1 = vs[1].results;
                let rj = vs[j].results;
                assert(rj.take(r1.len() as int) == r1);
                assert(rj.take(a.results.len() as int) =~= r1.take(a.results.len() as int));
            } else if i > 0 {
                assert(vs[i] == rest[i - 1] && vs[j] == rest[j - 1]);
            } else {
                assert(vs[j].results.take(vs[j].results.len() as int) =~= vs[j].results);
            }
        }
        assert forall|i: int, j: int| 0 <= i <= j < vs.len() && (#[trigger] vs[i]).finished implies (
        #[trigger] vs[j]).finished by {
            if i == 0 && j > 0 {
                assert(vs[j] == rest[j - 1] && vs[1] == rest[0]);
            } else if i > 0 {
                assert(vs[i] == rest[i - 1] && vs[j] == rest[j - 1]);
            }
        }
        assert forall|i: int, sent: bool|
            0 <= i < vs.len() - 1 && vs[i].finished && #[trigger] next_step_rel(vs[i], vs[i + 1], sent)
                implies !sent by {
            if i > 0 {
                assert(vs[i] == rest[i - 1] && vs[i + 1] == rest[i]);
            }
        }
        assert forall|i: int|
            0 <= i < vs.len() - 1 && record_step_rel(#[trigger] vs[i], vs[i + 1], true) && vs[i + 1].results.len()
                > vs[i].results.len() implies vs[i + 1].finished by {
        }
    }
}

/// The run sends the slots in order without skipping any: from any point,
/// the next slot it sends is the first existing slot at or after that
/// point, and when there is none it sends nothing more.
pub proof fn law_next_slot_is_least(t: NucleiTemplate, req: int, path: int)
    requires
        0 <= req,
        0 <= path,
    ensures
        match next_slot(t, req, path) {
            Some((a, b)) => {
                &&& slot_exists(t, a, b)
                &&& !slot_before(a, b, req, path)
                &&& forall|c: int, d: int|
                    #![trigger slot_exists(t, c, d)]
                    slot_exists(t, c, d) && !slot_before(c, d, req, path) && slot_before(c, d, a, b) ==> false
            },
            None => forall|c: int, d: int|
                #![trigger slot_exists(t, c, d)]
                slot_exists(t, c, d) ==> slot_before(c, d, req, path),
        },
    decreases t.http@.len() - req,
{
    if req >= t.http@.len() {
    } else if path < request_paths(t.http@[req]).len() {
    } else {
        law_next_slot_is_least(t, req + 1, 0);
    }
}

/// The URL of a raw request always names `http` or `https`, and a request
/// line whose path is already a full URL sends to exactly that URL.
pub proof fn law_raw_request_url(raw: Seq<char>, extra_empty: bool)
    ensures
        has_http_scheme(raw_request(raw, extra_empty).url),
        ({
            let ls = lines(raw);
            let parts = split_ws(ls[0]);
            ls.len() > 0 && parts.len() > 1 && has_http_scheme(parts[1]) ==> raw_request(raw, extra_empty).url
                == parts[1]
        }),
{
    let r = raw_request(raw, extra_empty);
    let ls = lines(raw);
    let request_line = if ls.len() > 0 {
        ls[0]
    } else {
        "GET / HTTP/1.1"@
    };
    let parts = split_ws(request_line);
    let raw_path = if parts.len() > 1 {
        parts[1]
    } else {
        "/"@
    };
    let s = raw_scan(if ls.len() > 0 {
        ls.drop_first()
    } else {
        Seq::empty()
    }, raw_path, extra_empty);
    let url1 = if has_http_scheme(raw_path) {
        raw_path
    } else {
        s.url
    };
    if !has_http_scheme(url1) {
        let sch: Seq<char> = if extra_empty {
            "https"@
        } else {
            "http"@
        };
        let tail = if url1.len() > 0 && url1[0] == '/' {
            url1.drop_first()
        } else {
            url1
        };
        reveal_strlit("https");
        reveal_strlit("http");
        reveal_strlit("://");
        reveal_strlit("http://");
        reveal_strlit("https://");
        let u = sch + "://"@ + tail;
        if extra_empty {
            assert(u.take(8) =~= "https://"@);
        } else {
            assert(u.take(7) =~= "http://"@);
        }
    }
}

/// Every name of `m` is still there in `m2`, its values first and in order.
pub open spec fn values_kept(m: Map<Seq<char>, Seq<Seq<char>>>, m2: Map<Seq<char>, Seq<Seq<char>>>) -> bool {
    forall|k: Seq<char>|
        #[trigger] m.contains_key(k) ==> m2.contains_key(k) && m[k].len() <= m2[k].len() && m2[k].subrange(
            0,
            m[k].len() as int,
        ) == m[k]
}

proof fn lemma_with_value_keeps(m: Map<Seq<char>, Seq<Seq<char>>>, name: Seq<char>, v: Seq<char>)
    ensures
        values_kept(m, with_value(m, name, v)),
{
    let m2 = with_value(m, name, v);
    assert forall|k: Seq<char>| #[trigger] m.contains_key(k) implies m2.contains_key(k) && m[k].len()
        <= m2[k].len() && m2[k].subrange(0, m[k].len() as int) == m[k] by {
        if k == name {
            assert(m2[k] == m[k].push(v));
            assert(m2[k].subrange(0, m[k].len() as int) =~= m[k]);
        } else {
            assert(m2[k] == m[k]);
            assert(m2[k].subrange(0, m[k].len() as int) =~= m[k]);
        }
    }
}

proof fn lemma_kept_trans(
    a: Map<Seq<char>, Seq<Seq<char>>>,
    b: Map<Seq<char>, Seq<Seq<char>>>,
    c: Map<Seq<char>, Seq<Seq<char>>>,
)
    requires
        values_kept(a, b),
        values_kept(b, c),
    ensures
        values_kept(a, c),
{
    assert forall|k: Seq<char>| #[trigger] a.contains_key(k) implies c.contains_key(k) && a[k].len() <= c[k].len()
        && c[k].subrange(0, a[k].len() as int) == a[k] by {
        assert(b.contains_key(k));
        assert(c[k].subrange(0, a[k].len() as int) =~= c[k].subrange(0, b[k].len() as int).subrange(
            0,
            a[k].len() as int,
        ));
        assert(b[k].subrange(0, a[k].len() as int) == a[k]);
    }
}

proof fn lemma_kept_refl(m: Map<Seq<char>, Seq<Seq<char>>>)
    ensures
        values_kept(m, m),
{
    assert forall|k: Seq<char>| #[trigger] m.contains_key(k) implies m.contains_key(k) && m[k].len() <= m[k].len()
        && m[k].subrange(0, m[k].len() as int) == m[k] by {
        assert(m[k].subrange(0, m[k].len() as int) =~= m[k]);
    }
}

proof fn lemma_kval_keeps(m: Map<Seq<char>, Seq<Seq<char>>>, ls: Seq<Seq<char>>)
    ensures
        values_kept(m, kval_extracted(m, ls)),
    decreases ls.len(),
{
    if ls.len() == 0 {
        lemma_kept_refl(m);
    } else {
        let m1 = kval_extracted(m, ls.drop_last());
        lemma_kval_keeps(m, ls.drop_last());
        match split_once_char(ls.last(), ':') {
            Some((k, v)) => if trim(v).len() > 0 {
                lemma_with_value_keeps(m1, trim(k), trim(v));
                lemma_kept_trans(m, m1, with_value(m1, trim(k), trim(v)));
            },
            None => {},
        }
    }
}

proof fn lemma_regex_keeps(
    m: Map<Seq<char>, Seq<Seq<char>>>,
    patterns: Seq<Seq<char>>,
    part: Seq<char>,
    group: int,
    name: Seq<char>,
)
    ensures
        values_kept(m, regex_extracted(m, patterns, part, group, name)),
    decreases patterns.len(),
{
    if patterns.len() == 0 {
        lemma_kept_refl(m);
    } else {
        let m1 = regex_extracted(m, patterns.drop_last(), part, group, name);
        lemma_regex_keeps(m, patterns.drop_last(), part, group, name);
        match regex_captures(patterns.last(), part) {
            Some(groups) => match captured_value(groups, group) {
                Some(v) => {
                    lemma_with_value_keeps(m1, name, v);
                    lemma_kept_trans(m, m1, with_value(m1, name, v));
                },
                None => {},
            },
            None => {},
        }
    }
}

proof fn lemma_json_keeps(m: Map<Seq<char>, Seq<Seq<char>>>, paths: nat, part: Seq<char>, name: Seq<char>)
    ensures
        values_kept(m, json_extracted(m, paths, part, name)),
    decreases paths,
{
    if paths == 0 {
        lemma_kept_refl(m);
    } else {
        let m1 = json_extracted(m, (paths - 1) as nat, part, name);
        lemma_json_keeps(m, (paths - 1) as nat, part, name);
        match json_document(part) {
            Ok((v, _)) => match json_text(v) {
                Some(t) => {
                    lemma_with_value_keeps(m1, name, t);
                    lemma_kept_trans(m, m1, with_value(m1, name, t));
                },
                None => {},
            },
            Err(_) => {},
        }
    }
}

/// Extraction only adds: after any extractor, every name extracted before
/// is still there with its values first and in their order. A `key: value`
/// line read by a key-value extractor adds its trimmed value at the end of
/// the values of its trimmed key, when the value is not blank.
pub proof fn law_extraction_only_adds(
    m: Map<Seq<char>, Seq<Seq<char>>>,
    e: Extractor,
    r: ResponseView,
    ls: Seq<Seq<char>>,
    line: Seq<char>,
)
    ensures
        values_kept(m, extractor_step(m, e, r)),
        (split_once_char(line, ':') matches Some((k, v)) && trim(v).len() > 0) ==> ({
            let (k, v) = split_once_char(line, ':')->0;
            let after = kval_extracted(m, ls.push(line));
            let before = kval_extracted(m, ls);
            &&& after.contains_key(trim(k))
            &&& after[trim(k)] == (if before.contains_key(trim(k)) {
                before[trim(k)]
            } else {
                Seq::empty()
            }).push(trim(v))
            &&& forall|q: Seq<char>| q != trim(k) ==> #[trigger] after.contains_key(q) == before.contains_key(q)
        }),
{
    let t = e.extractor_type@;
    let part = extractor_part(e.part, r);
    if t == "regex"@ {
        match e.regex {
            Some(ps) => lemma_regex_keeps(
                m,
                views(ps@),
                part,
                match e.group {
                    Some(g) => g as int,
                    None => 0,
                },
                name_or(e.name, "extracted"@),
            ),
            None => lemma_kept_refl(m),
        }
    } else if t == "json"@ {
        match e.json {
            Some(ps) => lemma_json_keeps(m, ps@.len(), part, name_or(e.name, "json_extracted"@)),
            None => lemma_kept_refl(m),
        }
    } else if t == "kval"@ {
        lemma_kval_keeps(m, lines(part));
    } else {
        lemma_kept_refl(m);
    }
    let l2 = ls.push(line);
    assert(l2.drop_last() =~= ls);
    assert(l2.last() == line);
}

/// An extractor reads the body when it names no part, names `body` or a
/// part it does not know; the headers for `header` and `headers`; and the
/// headers, a line feed and the body for `all` and `response`.
pub proof fn law_extractor_parts(part: Option<String>, r: ResponseView)
    ensures
        part is None ==> extractor_part(part, r) == r.body,
        part matches Some(p) && (p@ == "header"@ || p@ == "headers"@) ==> extractor_part(part, r) == r.headers,
        part matches Some(p) && (p@ == "all"@ || p@ == "response"@) ==> extractor_part(part, r) == r.headers
            + seq!['\n'] + r.body,
        part matches Some(p) && !(p@ == "header"@ || p@ == "headers"@ || p@ == "all"@ || p@ == "response"@)
            ==> extractor_part(part, r) == r.body,
{
    reveal_strlit("body");
    reveal_strlit("header");
    reveal_strlit("headers");
    reveal_strlit("all");
    reveal_strlit("response");
    assert("body"@.len() != "header"@.len() && "body"@.len() != "headers"@.len() && "body"@[0] != "all"@[0]
        && "body"@.len() != "response"@.len());
}

} // verus!
