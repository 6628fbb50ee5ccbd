//! Recognising a service by the banner it sends, with match rules written in
//! the format of nmap's service probe file: `match` and `softmatch` lines
//! with a service name, a delimited pattern, its flags and metadata fields.
use vstd::prelude::*;
use vstd::utf8::{decode_utf8, encode_utf8, valid_utf8};
use crate::text::{
    chars_of, has_char, has_prefix, index_of, is_ascii_alpha, lines, lines_exec, replace_all,
    replace_exec, slice_of, split_once_char, split_once_char_exec, starts_with_str, string_of,
    trim, trim_chars, trim_start, trim_start_chars,
};

verus! {

// ---------------------------------------------------------------------------
// Delimited values
// ---------------------------------------------------------------------------

/// Position of the first `d` at or after `i` that no backslash escapes.
pub open spec fn closing_at(s: Seq<char>, d: char, i: int, escaped: bool) -> Option<int>
    decreases s.len() - i,
{
    if i < 0 || i >= s.len() {
        None
    } else if escaped {
        closing_at(s, d, i + 1, false)
    } else if s[i] == '\\' {
        closing_at(s, d, i + 1, true)
    } else if s[i] == d {
        Some(i)
    } else {
        closing_at(s, d, i + 1, false)
    }
}

proof fn lemma_closing_at(s: Seq<char>, d: char, i: int, escaped: bool)
    ensures
        closing_at(s, d, i, escaped) matches Some(e) ==> i <= e < s.len() && s[e] == d,
    decreases s.len() - i,
{
    if 0 <= i < s.len() {
        lemma_closing_at(s, d, i + 1, false);
        lemma_closing_at(s, d, i + 1, true);
    }
}

/// `marker`, then a delimiter, then a value up to the next unescaped
/// delimiter: the value, and what follows the closing delimiter.
pub open spec fn delimited(s: Seq<char>, marker: char) -> Option<(Seq<char>, Seq<char>)> {
    if s.len() < 2 || s[0] != marker {
        None
    } else {
        match closing_at(s, s[1], 2, false) {
            Some(e) => Some((s.subrange(2, e), s.skip(e + 1))),
            None => None,
        }
    }
}

/// Reads `marker`, a delimiter and the value it closes (backslashes escape
/// the next character): the value and the text after it.
pub fn parse_delimited(input: &str, marker: char) -> (res: Option<(String, String)>)
    ensures
        match res {
            Some((v, rest)) => delimited(input@, marker) == Some((v@, rest@)),
            None => delimited(input@, marker) is None,
        },
{
    let s = chars_of(input);
    if s.len() < 2 || s[0] != marker {
        return None;
    }
    let d = s[1];
    let mut i: usize = 2;
    let mut escaped = false;
    while i < s.len()
        invariant
            2 <= i <= s@.len(),
            s@ == input@,
            d == s@[1],
            s@.len() >= 2,
            s@[0] == marker,
            closing_at(s@, d, 2, false) == closing_at(s@, d, i as int, escaped),
        decreases s@.len() - i,
    {
        if escaped {
            escaped = false;
        } else if s[i] == '\\' {
            escaped = true;
        } else if s[i] == d {
            let v = slice_of(s.as_slice(), 2, i);
            let r = slice_of(s.as_slice(), i + 1, s.len());
            assert(r@ =~= s@.skip(i + 1));
            return Some((string_of(v.as_slice()), string_of(r.as_slice())));
        }
        i = i + 1;
    }
    None
}

// ---------------------------------------------------------------------------
// Metadata fields
// ---------------------------------------------------------------------------

/// `u8::is_ascii_whitespace`: space, tab, line feed, form feed, carriage
/// return.
pub open spec fn ascii_ws_byte(b: u8) -> bool {
    b == 32 || b == 9 || b == 10 || b == 12 || b == 13
}

/// The letters that name a field: `p`, `v`, `i`, `o`, `d`, `h`.
pub open spec fn field_key(b: u8) -> bool {
    b == 112 || b == 118 || b == 105 || b == 111 || b == 100 || b == 104
}

/// The first position at or after `i` that holds no whitespace.
pub open spec fn skip_ws_bytes(b: Seq<u8>, i: int) -> int
    decreases b.len() - i,
{
    if 0 <= i < b.len() && ascii_ws_byte(b[i]) {
        skip_ws_bytes(b, i + 1)
    } else {
        i
    }
}

/// The first position at or after `i` that holds whitespace.
pub open spec fn skip_word_bytes(b: Seq<u8>, i: int) -> int
    decreases b.len() - i,
{
    if 0 <= i < b.len() && !ascii_ws_byte(b[i]) {
        skip_word_bytes(b, i + 1)
    } else {
        i
    }
}

/// Position of the first byte `d` at or after `i` that no backslash
/// escapes.
pub open spec fn byte_closing(b: Seq<u8>, d: u8, i: int, escaped: bool) -> Option<int>
    decreases b.len() - i,
{
    if i < 0 || i >= b.len() {
        None
    } else if escaped {
        byte_closing(b, d, i + 1, false)
    } else if b[i] == 92 {
        byte_closing(b, d, i + 1, true)
    } else if b[i] == d {
        Some(i)
    } else {
        byte_closing(b, d, i + 1, false)
    }
}

pub proof fn lemma_skip_ws_bytes(b: Seq<u8>, i: int)
    ensures
        skip_ws_bytes(b, i) >= i,
        0 <= i ==> 0 <= skip_ws_bytes(b, i) <= if i > b.len() { i } else { b.len() as int },
        0 <= skip_ws_bytes(b, i) < b.len() ==> !ascii_ws_byte(b[skip_ws_bytes(b, i)]),
    decreases b.len() - i,
{
    if 0 <= i < b.len() && ascii_ws_byte(b[i]) {
        lemma_skip_ws_bytes(b, i + 1);
    }
}

pub proof fn lemma_skip_word_bytes(b: Seq<u8>, i: int)
    ensures
        skip_word_bytes(b, i) >= i,
        0 <= i <= b.len() ==> skip_word_bytes(b, i) <= b.len(),
    decreases b.len() - i,
{
    if 0 <= i < b.len() && !ascii_ws_byte(b[i]) {
        lemma_skip_word_bytes(b, i + 1);
    }
}

pub proof fn lemma_byte_closing(b: Seq<u8>, d: u8, i: int, escaped: bool)
    ensures
        byte_closing(b, d, i, escaped) matches Some(e) ==> i <= e < b.len() && b[e] == d,
    decreases b.len() - i,
{
    if 0 <= i < b.len() {
        lemma_byte_closing(b, d, i + 1, false);
        lemma_byte_closing(b, d, i + 1, true);
    }
}

/// The fields written from position `i` on, in order: a key letter, a
/// delimiter, and the value up to the next unescaped delimiter. Other words
/// are skipped; a field whose value is not closed ends the list.
pub open spec fn fields_from(b: Seq<u8>, i: int) -> Seq<(u8, Seq<u8>)>
    decreases b.len() - i,
{
    if i < 0 || i >= b.len() {
        Seq::empty()
    } else {
        let j = skip_ws_bytes(b, i);
        proof {
            lemma_skip_ws_bytes(b, i);
        }
        if j >= b.len() - 1 {
            Seq::empty()
        } else if !field_key(b[j]) {
            proof {
                lemma_skip_word_bytes(b, j + 1);
            }
            fields_from(b, skip_word_bytes(b, j))
        } else if ascii_ws_byte(b[j + 1]) {
            fields_from(b, j + 1)
        } else {
            match byte_closing(b, b[j + 1], j + 2, false) {
                Some(e) => {
                    proof {
                        lemma_byte_closing(b, b[j + 1], j + 2, false);
                    }
                    seq![(b[j], b.subrange(j + 2, e))] + fields_from(b, e + 1)
                },
                None => Seq::empty(),
            }
        }
    }
}

/// Every field value is valid UTF-8 (text can be cut there).
pub open spec fn fields_valid(fs: Seq<(u8, Seq<u8>)>) -> bool {
    forall|k: int| 0 <= k < fs.len() ==> valid_utf8(#[trigger] fs[k].1)
}

/// Some field of `fs` has key `k`.
pub open spec fn has_key(fs: Seq<(char, Seq<char>)>, k: char) -> bool {
    exists|m: int| 0 <= m < fs.len() && (#[trigger] fs[m]).0 == k
}

/// Each key with the value of its first field, in order of first
/// appearance.
pub open spec fn first_fields(fs: Seq<(u8, Seq<u8>)>) -> Seq<(char, Seq<char>)>
    decreases fs.len(),
{
    if fs.len() == 0 {
        Seq::empty()
    } else {
        let rest = first_fields(fs.drop_last());
        let k = fs.last().0 as char;
        if has_key(rest, k) {
            rest
        } else {
            rest.push((k, decode_utf8(fs.last().1)))
        }
    }
}

/// The (key, value) views of fields.
pub open spec fn field_views(v: Seq<(char, String)>) -> Seq<(char, Seq<char>)> {
    v.map_values(|p: (char, String)| (p.0, p.1@))
}

fn skip_ws_exec(b: &[u8], i: usize) -> (res: usize)
    requires
        i <= b@.len(),
    ensures
        res as int == skip_ws_bytes(b@, i as int),
        res <= b@.len(),
{
    let mut j = i;
    while j < b.len() && (b[j] == 32 || b[j] == 9 || b[j] == 10 || b[j] == 12 || b[j] == 13)
        invariant
            i <= j <= b@.len(),
            skip_ws_bytes(b@, i as int) == skip_ws_bytes(b@, j as int),
        decreases b@.len() - j,
    {
        j = j + 1;
    }
    j
}

fn skip_word_exec(b: &[u8], i: usize) -> (res: usize)
    requires
        i <= b@.len(),
    ensures
        res as int == skip_word_bytes(b@, i as int),
        res <= b@.len(),
{
    let mut j = i;
    while j < b.len() && !(b[j] == 32 || b[j] == 9 || b[j] == 10 || b[j] == 12 || b[j] == 13)
        invariant
            i <= j <= b@.len(),
            skip_word_bytes(b@, i as int) == skip_word_bytes(b@, j as int),
        decreases b@.len() - j,
    {
        j = j + 1;
    }
    j
}

fn byte_closing_exec(b: &[u8], d: u8, i: usize) -> (res: Option<usize>)
    requires
        i <= b@.len(),
    ensures
        match res {
            Some(e) => byte_closing(b@, d, i as int, false) == Some(e as int),
            None => byte_closing(b@, d, i as int, false) is None,
        },
{
    let mut j = i;
    let mut escaped = false;
    while j < b.len()
        invariant
            i <= j <= b@.len(),
            byte_closing(b@, d, i as int, false) == byte_closing(b@, d, j as int, escaped),
        decreases b@.len() - j,
    {
        if escaped {
            escaped = false;
        } else if b[j] == 92 {
            escaped = true;
        } else if b[j] == d {
            return Some(j);
        }
        j = j + 1;
    }
    None
}

fn bytes_between(b: &[u8], a: usize, c: usize) -> (res: Vec<u8>)
    requires
        a <= c <= b@.len(),
    ensures
        res@ == b@.subrange(a as int, c as int),
{
    let mut out: Vec<u8> = Vec::new();
    let mut k = a;
    while k < c
        invariant
            a <= k <= c,
            c <= b@.len(),
            out@ == b@.subrange(a as int, k as int),
        decreases c - k,
    {
        out.push(b[k]);
        k = k + 1;
    }
    out
}

fn has_field(out: &Vec<(char, String)>, k: char) -> (res: bool)
    ensures
        res == has_key(field_views(out@), k),
{
    let mut m: usize = 0;
    while m < out.len()
        invariant
            m <= out@.len(),
            forall|q: int| 0 <= q < m ==> out@[q].0 != k,
        decreases out@.len() - m,
    {
        if out[m].0 == k {
            assert(field_views(out@)[m as int].0 == k);
            return true;
        }
        m = m + 1;
    }
    proof {
        if has_key(field_views(out@), k) {
            let q = choose|q: int| 0 <= q < field_views(out@).len() && (#[trigger] field_views(out@)[q]).0 == k;
            assert(out@[q].0 == k);
        }
    }
    false
}

/// The metadata fields of a rule (`p/product/ v/version/ ...`), each key
/// with the value of its first field. Reads bytes: a value is cut where its
/// delimiter byte occurs, which must leave valid text.
pub fn parse_fields(input: &str) -> (res: Vec<(char, String)>)
    requires
        fields_valid(fields_from(encode_utf8(input@), 0)),
    ensures
        field_views(res@) == first_fields(fields_from(encode_utf8(input@), 0)),
{
    let b = input.as_bytes();
    let ghost bv = b@;
    let ghost all = fields_from(bv, 0);
    let ghost mut seen: Seq<(u8, Seq<u8>)> = Seq::empty();
    let mut out: Vec<(char, String)> = Vec::new();
    let mut i: usize = 0;
    while i < b.len()
        invariant
            bv == b@,
            bv == encode_utf8(input@),
            all == fields_from(bv, 0),
            fields_valid(all),
            i <= bv.len(),
            seen + fields_from(bv, i as int) == all,
            field_views(out@) == first_fields(seen),
        decreases bv.len() - i,
    {
        proof {
            lemma_skip_ws_bytes(bv, i as int);
        }
        let j = skip_ws_exec(b, i);
        if j >= b.len() - 1 {
            assert(fields_from(bv, i as int) =~= Seq::<(u8, Seq<u8>)>::empty());
            i = b.len();
            assert(fields_from(bv, i as int) =~= Seq::<(u8, Seq<u8>)>::empty());
        } else {
            let key = b[j];
            if !(key == 112 || key == 118 || key == 105 || key == 111 || key == 100 || key == 104) {
                proof {
                    lemma_skip_word_bytes(bv, j + 1);
                }
                i = skip_word_exec(b, j);
            } else {
                let d = b[j + 1];
                if d == 32 || d == 9 || d == 10 || d == 12 || d == 13 {
                    i = j + 1;
                } else {
                    match byte_closing_exec(b, d, j + 2) {
                        Some(e) => {
                            proof {
                                lemma_byte_closing(bv, d, j + 2, false);
                            }
                            let ghost field = (key, bv.subrange(j + 2, e as int));
                            proof {
                                assert(fields_from(bv, i as int) == seq![field] + fields_from(
                                    bv,
                                    e + 1,
                                ));
                                assert((seen + seq![field] + fields_from(bv, e + 1)) =~= (seen
                                    + fields_from(bv, i as int)));
                                assert(all[seen.len() as int] == field);
                                assert(valid_utf8(field.1));
                            }
                            let vb = bytes_between(b, j + 2, e);
                            let value = crate::text::text_from_utf8(vb.as_slice());
                            let kc = key as char;
                            let present = has_field(&out, kc);
                            let ghost before = seen;
                            proof {
                                seen = seen.push(field);
                                assert(seen.drop_last() =~= before);
                            }
                            match value {
                                Some(v) => {
                                    if !present {
                                        proof {
                                            vstd::utf8::encode_utf8_decode_utf8(v@);
                                        }
                                        out.push((kc, v));
                                        assert(field_views(out@) =~= first_fields(before).push(
                                            (kc, decode_utf8(field.1)),
                                        ));
                                    } else {
                                        assert(field_views(out@) =~= first_fields(seen));
                                    }
                                },
                                None => {
                                    assert(false);
                                },
                            }
                            proof {
                                assert((seen + fields_from(bv, e + 1)) =~= all);
                            }
                            i = e + 1;
                        },
                        None => {
                            assert(fields_from(bv, i as int) =~= Seq::<(u8, Seq<u8>)>::empty());
                            i = b.len();
                            assert(fields_from(bv, i as int) =~= Seq::<(u8, Seq<u8>)>::empty());
                        },
                    }
                }
            }
        }
    }
    assert(fields_from(bv, i as int) =~= Seq::<(u8, Seq<u8>)>::empty());
    assert(seen =~= all);
    out
}

// ---------------------------------------------------------------------------
// Match rules
// ---------------------------------------------------------------------------

/// A match rule: the service it names, the product its metadata gives, its
/// pattern and the flags the pattern is compiled with.
#[derive(Debug, Clone)]
pub struct ProbeRule {
    pub service: String,
    pub product: Option<String>,
    pub pattern: String,
    pub case_insensitive: bool,
    pub dot_matches_new_line: bool,
    pub multi_line: bool,
}

/// The mathematical content of a rule.
pub struct RuleView {
    pub service: Seq<char>,
    pub product: Option<Seq<char>>,
    pub pattern: Seq<char>,
    pub case_insensitive: bool,
    pub dot_matches_new_line: bool,
    pub multi_line: bool,
}

impl View for ProbeRule {
    type V = RuleView;

    open spec fn view(&self) -> RuleView {
        RuleView {
            service: self.service@,
            product: match self.product {
                Some(p) => Some(p@),
                None => None,
            },
            pattern: self.pattern@,
            case_insensitive: self.case_insensitive,
            dot_matches_new_line: self.dot_matches_new_line,
            multi_line: self.multi_line,
        }
    }
}

/// Whether the `regex` crate compiles `pattern` as a byte pattern with these
/// flags.
pub uninterp spec fn probe_regex_valid(pattern: Seq<char>, case_insensitive: bool, dot_all: bool, multi_line: bool) -> bool;

/// Compiles `pattern` with `regex::bytes::RegexBuilder` and the three flags
/// and reports whether that succeeded. The result depends on the arguments
/// alone, so it is named.
#[verifier::external_body]
fn probe_regex_compiles(pattern: &str, case_insensitive: bool, dot_all: bool, multi_line: bool) -> (res: bool)
    ensures
        res == probe_regex_valid(pattern@, case_insensitive, dot_all, multi_line),
{
    regex::bytes::RegexBuilder::new(pattern)
        .case_insensitive(case_insensitive)
        .dot_matches_new_line(dot_all)
        .multi_line(multi_line)
        .build()
        .is_ok()
}

/// What matching a banner against `pattern` compiled with these flags gives:
/// none when the pattern does not compile.
pub uninterp spec fn probe_regex_outcome(
    pattern: Seq<char>,
    case_insensitive: bool,
    dot_all: bool,
    multi_line: bool,
    haystack: Seq<u8>,
) -> Option<bool>;

/// Compiles `pattern` with `regex::bytes::RegexBuilder` and the three flags
/// and, when that succeeds, runs `is_match` on the bytes. The result depends
/// on the arguments alone, so it is named; it is present exactly when the
/// pattern compiles.
#[verifier::external_body]
fn probe_regex_is_match(
    pattern: &str,
    case_insensitive: bool,
    dot_all: bool,
    multi_line: bool,
    haystack: &[u8],
) -> (res: Option<bool>)
    ensures
        res == probe_regex_outcome(pattern@, case_insensitive, dot_all, multi_line, haystack@),
        res is Some <==> probe_regex_valid(pattern@, case_insensitive, dot_all, multi_line),
{
    regex::bytes::RegexBuilder::new(pattern)
        .case_insensitive(case_insensitive)
        .dot_matches_new_line(dot_all)
        .multi_line(multi_line)
        .build()
        .ok()
        .map(|re| re.is_match(haystack))
}

impl ProbeRule {
    /// Whether the rule's pattern matches the banner.
    pub fn is_match(&self, banner: &[u8]) -> (res: bool)
        ensures
            res == (probe_regex_outcome(
                self.pattern@,
                self.case_insensitive,
                self.dot_matches_new_line,
                self.multi_line,
                banner@,
            ) == Some(true)),
    {
        match probe_regex_is_match(
            self.pattern.as_str(),
            self.case_insensitive,
            self.dot_matches_new_line,
            self.multi_line,
            banner,
        ) {
            Some(b) => b,
            None => false,
        }
    }
}

/// A pattern as the `regex` crate reads it: each `\0` written as `\x00`.
pub open spec fn probe_pattern(raw: Seq<char>) -> Seq<char> {
    replace_all(raw, "\\0"@, "\\x00"@)
}

/// Writes each `\0` of a pattern as `\x00`.
pub fn normalize_pattern(pattern: &str) -> (res: String)
    ensures
        res@ == probe_pattern(pattern@),
{
    proof {
        reveal_strlit("\\0");
    }
    let p = chars_of(pattern);
    let from = chars_of("\\0");
    let to = chars_of("\\x00");
    let r = replace_exec(p.as_slice(), from.as_slice(), to.as_slice());
    string_of(r.as_slice())
}

/// How many ASCII letters `s` starts with.
pub open spec fn leading_letters(s: Seq<char>) -> nat
    decreases s.len(),
{
    if s.len() > 0 && is_ascii_alpha(s[0]) {
        1 + leading_letters(s.drop_first())
    } else {
        0
    }
}

proof fn lemma_leading_letters(s: Seq<char>)
    ensures
        leading_letters(s) <= s.len(),
    decreases s.len(),
{
    if s.len() > 0 && is_ascii_alpha(s[0]) {
        lemma_leading_letters(s.drop_first());
    }
}

/// The parts of a `match` (or, when `soft`, `softmatch`) line: the service,
/// the pattern as written, its flags and the metadata after them; none when
/// the line is not such a rule.
pub open spec fn probe_line_parts(line: Seq<char>, soft: bool) -> Option<(Seq<char>, Seq<char>, Seq<char>, Seq<char>)> {
    let prefix = if soft {
        "softmatch "@
    } else {
        "match "@
    };
    if !has_prefix(line, prefix) {
        None
    } else {
        match split_once_char(line.skip(prefix.len() as int), ' ') {
            None => None,
            Some((service, after)) => {
                let a = trim_start(after);
                if !has_prefix(a, "m"@) {
                    None
                } else {
                    match delimited(a, 'm') {
                        None => None,
                        Some((raw, rest)) => {
                            let n = leading_letters(rest) as int;
                            Some((service, raw, rest.take(n), rest.skip(n)))
                        },
                    }
                }
            },
        }
    }
}

/// The fields of a rule's metadata.
pub open spec fn probe_fields(meta: Seq<char>) -> Seq<(u8, Seq<u8>)> {
    fields_from(encode_utf8(meta), 0)
}

/// The value of the first field with key `k`.
pub open spec fn field_value(fs: Seq<(char, Seq<char>)>, k: char) -> Option<Seq<char>>
    decreases fs.len(),
{
    if fs.len() == 0 {
        None
    } else if fs[0].0 == k {
        Some(fs[0].1)
    } else {
        field_value(fs.drop_first(), k)
    }
}

/// Reading the line does not cut a metadata value in the middle of a
/// character.
pub open spec fn probe_line_ok(line: Seq<char>, soft: bool) -> bool {
    match probe_line_parts(line, soft) {
        Some((_, _, _, meta)) => fields_valid(probe_fields(meta)),
        None => true,
    }
}

/// The rule a line gives, if any: the service, the product from the `p`
/// field, the pattern with `\0` rewritten, and the `i`, `s` and `m` flags;
/// none when the line is no rule or its pattern does not compile.
pub open spec fn rule_from_line(line: Seq<char>, soft: bool) -> Option<RuleView> {
    match probe_line_parts(line, soft) {
        None => None,
        Some((service, raw, flags, meta)) => {
            let pattern = probe_pattern(raw);
            let ci = index_of(flags, 'i') is Some;
            let dot = index_of(flags, 's') is Some;
            let ml = index_of(flags, 'm') is Some;
            if probe_regex_valid(pattern, ci, dot, ml) {
                Some(
                    RuleView {
                        service,
                        product: field_value(first_fields(probe_fields(meta)), 'p'),
                        pattern,
                        case_insensitive: ci,
                        dot_matches_new_line: dot,
                        multi_line: ml,
                    },
                )
            } else {
                None
            }
        },
    }
}

fn field_value_exec(fs: &Vec<(char, String)>, k: char) -> (res: Option<String>)
    ensures
        match res {
            Some(v) => field_value(field_views(fs@), k) == Some(v@),
            None => field_value(field_views(fs@), k) is None,
        },
{
    let ghost fv = field_views(fs@);
    let mut i: usize = 0;
    assert(fv.skip(0) =~= fv);
    while i < fs.len()
        invariant
            i <= fs@.len(),
            fv == field_views(fs@),
            field_value(fv, k) == field_value(fv.skip(i as int), k),
        decreases fs@.len() - i,
    {
        assert(fv.skip(i as int)[0] == (fs@[i as int].0, fs@[i as int].1@));
        assert(fv.skip(i as int).drop_first() =~= fv.skip(i + 1));
        if fs[i].0 == k {
            return Some(fs[i].1.clone());
        }
        i = i + 1;
    }
    None
}

/// Reads a `match` line (or a `softmatch` line when `soft`): none when the
/// line is not such a rule or its pattern does not compile.
pub fn parse_probe_line(line: &str, soft: bool) -> (res: Option<ProbeRule>)
    requires
        probe_line_ok(line@, soft),
    ensures
        match res {
            Some(r) => rule_from_line(line@, soft) == Some(r@),
            None => rule_from_line(line@, soft) is None,
        },
{
    proof {
        reveal_strlit("softmatch ");
        reveal_strlit("match ");
        reveal_strlit("m");
    }
    let l = chars_of(line);
    let prefix: &str = if soft {
        "softmatch "
    } else {
        "match "
    };
    if !starts_with_str(l.as_slice(), prefix) {
        return None;
    }
    let plen: usize = if soft {
        10
    } else {
        6
    };
    let rest = slice_of(l.as_slice(), plen, l.len());
    assert(rest@ =~= line@.skip(plen as int));
    let (service, after) = match split_once_char_exec(rest.as_slice(), ' ') {
        Some(p) => p,
        None => {
            return None;
        },
    };
    let a = trim_start_chars(after.as_slice());
    if !starts_with_str(a.as_slice(), "m") {
        return None;
    }
    let a_s = string_of(a.as_slice());
    let (raw, after_pattern) = match parse_delimited(a_s.as_str(), 'm') {
        Some(p) => p,
        None => {
            return None;
        },
    };
    let ap = chars_of(after_pattern.as_str());
    let mut n: usize = 0;
    assert(ap@.skip(0) =~= ap@);
    while n < ap.len() && (('a' <= ap[n] && ap[n] <= 'z') || ('A' <= ap[n] && ap[n] <= 'Z'))
        invariant
            n <= ap@.len(),
            leading_letters(ap@) == n + leading_letters(ap@.skip(n as int)),
        decreases ap@.len() - n,
    {
        assert(ap@.skip(n as int).drop_first() =~= ap@.skip(n + 1));
        n = n + 1;
    }
    proof {
        assert(leading_letters(ap@.skip(n as int)) == 0);
        lemma_leading_letters(ap@);
    }
    let flags = slice_of(ap.as_slice(), 0, n);
    let meta_chars = slice_of(ap.as_slice(), n, ap.len());
    assert(flags@ =~= ap@.take(n as int));
    assert(meta_chars@ =~= ap@.skip(n as int));
    let metadata = string_of(meta_chars.as_slice());
    let fields = parse_fields(metadata.as_str());
    let product = field_value_exec(&fields, 'p');
    let pattern = normalize_pattern(raw.as_str());
    let ci = has_char(flags.as_slice(), 'i');
    let dot = has_char(flags.as_slice(), 's');
    let ml = has_char(flags.as_slice(), 'm');
    if !probe_regex_compiles(pattern.as_str(), ci, dot, ml) {
        return None;
    }
    Some(
        ProbeRule {
            service: string_of(service.as_slice()),
            product,
            pattern,
            case_insensitive: ci,
            dot_matches_new_line: dot,
            multi_line: ml,
        },
    )
}

// ---------------------------------------------------------------------------
// A set of rules
// ---------------------------------------------------------------------------

/// The rule a line of the probe file gives: blank lines and comments give
/// none; otherwise a `match` rule, else a `softmatch` rule.
pub open spec fn line_rule(l: Seq<char>) -> Option<RuleView> {
    let t = trim(l);
    if t.len() == 0 || has_prefix(t, "#"@) {
        None
    } else {
        match rule_from_line(t, false) {
            Some(r) => Some(r),
            None => rule_from_line(t, true),
        }
    }
}

/// The rules of some lines, in order.
pub open spec fn rules_of(ls: Seq<Seq<char>>) -> Seq<RuleView>
    decreases ls.len(),
{
    if ls.len() == 0 {
        Seq::empty()
    } else {
        match line_rule(ls.last()) {
            Some(r) => rules_of(ls.drop_last()).push(r),
            None => rules_of(ls.drop_last()),
        }
    }
}

/// No line of the file cuts a metadata value in the middle of a character.
pub open spec fn probe_content_ok(content: Seq<char>) -> bool {
    forall|k: int|
        0 <= k < lines(content).len() ==> probe_line_ok(trim(#[trigger] lines(content)[k]), false)
            && probe_line_ok(trim(lines(content)[k]), true)
}

/// The service a banner shows: the product, else the service, of the first
/// rule whose pattern matches.
pub open spec fn first_match(rules: Seq<RuleView>, banner: Seq<u8>) -> Option<Seq<char>>
    decreases rules.len(),
{
    if rules.len() == 0 {
        None
    } else if probe_regex_outcome(
        rules[0].pattern,
        rules[0].case_insensitive,
        rules[0].dot_matches_new_line,
        rules[0].multi_line,
        banner,
    ) == Some(true) {
        match rules[0].product {
            Some(p) => Some(p),
            None => Some(rules[0].service),
        }
    } else {
        first_match(rules.drop_first(), banner)
    }
}

/// The rules of a probe file, in the order they are written.
pub struct ServiceProbeMatcher {
    rules: Vec<ProbeRule>,
}

/// The views of rules.
pub open spec fn rule_views(v: Seq<ProbeRule>) -> Seq<RuleView> {
    v.map_values(|r: ProbeRule| r@)
}

/// Whether reading the probe file cuts no metadata value in the middle of a
/// character.
pub fn probe_content_readable(content: &str) -> (res: bool)
    ensures
        res == probe_content_ok(content@),
{
    let c = chars_of(content);
    let ls = lines_exec(c.as_slice());
    let ghost lv = ls@.map_values(|v: Vec<char>| v@);
    let mut i: usize = 0;
    while i < ls.len()
        invariant
            i <= ls@.len(),
            c@ == content@,
            lv == ls@.map_values(|v: Vec<char>| v@),
            lv == lines(content@),
            forall|k: int| 0 <= k < i ==> probe_line_ok(trim(#[trigger] lv[k]), false) && probe_line_ok(trim(lv[k]), true),
        decreases ls@.len() - i,
    {
        assert(lv[i as int] == ls@[i as int]@);
        let t = trim_chars(ls[i].as_slice());
        if !line_ok_exec(t.as_slice(), false) || !line_ok_exec(t.as_slice(), true) {
            return false;
        }
        i = i + 1;
    }
    true
}

fn line_ok_exec(t: &[char], soft: bool) -> (res: bool)
    ensures
        res == probe_line_ok(t@, soft),
{
    proof {
        reveal_strlit("softmatch ");
        reveal_strlit("match ");
        reveal_strlit("m");
    }
    let prefix: &str = if soft {
        "softmatch "
    } else {
        "match "
    };
    if !starts_with_str(t, prefix) {
        return true;
    }
    let plen: usize = if soft {
        10
    } else {
        6
    };
    let rest = slice_of(t, plen, t.len());
    assert(rest@ =~= t@.skip(plen as int));
    let (_, after) = match split_once_char_exec(rest.as_slice(), ' ') {
        Some(p) => p,
        None => {
            return true;
        },
    };
    let a = trim_start_chars(after.as_slice());
    if !starts_with_str(a.as_slice(), "m") {
        return true;
    }
    let a_s = string_of(a.as_slice());
    let (_, after_pattern) = match parse_delimited(a_s.as_str(), 'm') {
        Some(p) => p,
        None => {
            return true;
        },
    };
    let ap = chars_of(after_pattern.as_str());
    let mut n: usize = 0;
    assert(ap@.skip(0) =~= ap@);
    while n < ap.len() && (('a' <= ap[n] && ap[n] <= 'z') || ('A' <= ap[n] && ap[n] <= 'Z'))
        invariant
            n <= ap@.len(),
            leading_letters(ap@) == n + leading_letters(ap@.skip(n as int)),
        decreases ap@.len() - n,
    {
        assert(ap@.skip(n as int).drop_first() =~= ap@.skip(n + 1));
        n = n + 1;
    }
    proof {
        assert(leading_letters(ap@.skip(n as int)) == 0);
        lemma_leading_letters(ap@);
    }
    let meta_chars = slice_of(ap.as_slice(), n, ap.len());
    assert(meta_chars@ =~= ap@.skip(n as int));
    let metadata = string_of(meta_chars.as_slice());
    fields_valid_exec(metadata.as_str())
}

/// Whether every field value of the metadata is valid UTF-8.
fn fields_valid_exec(input: &str) -> (res: bool)
    ensures
        res == fields_valid(fields_from(encode_utf8(input@), 0)),
{
    let b = input.as_bytes();
    let ghost bv = b@;
    let ghost all = fields_from(bv, 0);
    let ghost mut seen: Seq<(u8, Seq<u8>)> = Seq::empty();
    let mut i: usize = 0;
    while i < b.len()
        invariant
            bv == b@,
            bv == encode_utf8(input@),
            all == fields_from(bv, 0),
            i <= bv.len(),
            seen + fields_from(bv, i as int) == all,
            fields_valid(seen),
        decreases bv.len() - i,
    {
        proof {
            lemma_skip_ws_bytes(bv, i as int);
        }
        let j = skip_ws_exec(b, i);
        if j >= b.len() - 1 {
            assert(fields_from(bv, i as int) =~= Seq::<(u8, Seq<u8>)>::empty());
            i = b.len();
            assert(fields_from(bv, i as int) =~= Seq::<(u8, Seq<u8>)>::empty());
        } else {
            let key = b[j];
            if !(key == 112 || key == 118 || key == 105 || key == 111 || key == 100 || key == 104) {
                proof {
                    lemma_skip_word_bytes(bv, j + 1);
                }
                i = skip_word_exec(b, j);
            } else {
                let d = b[j + 1];
                if d == 32 || d == 9 || d == 10 || d == 12 || d == 13 {
                    i = j + 1;
                } else {
                    match byte_closing_exec(b, d, j + 2) {
                        Some(e) => {
                            proof {
                                lemma_byte_closing(bv, d, j + 2, false);
                            }
                            let ghost field = (key, bv.subrange(j + 2, e as int));
                            proof {
                                assert(fields_from(bv, i as int) == seq![field] + fields_from(
                                    bv,
                                    e + 1,
                                ));
                                assert((seen + seq![field] + fields_from(bv, e + 1)) =~= (seen
                                    + fields_from(bv, i as int)));
                                assert(all[seen.len() as int] == field);
                            }
                            let vb = bytes_between(b, j + 2, e);
                            let value = crate::text::text_from_utf8(vb.as_slice());
                            if value.is_none() {
                                proof {
                                    assert(!valid_utf8(all[seen.len() as int].1));
                                }
                                return false;
                            }
                            proof {
                                seen = seen.push(field);
                                assert((seen + fields_from(bv, e + 1)) =~= all);
                            }
                            i = e + 1;
                        },
                        None => {
                            assert(fields_from(bv, i as int) =~= Seq::<(u8, Seq<u8>)>::empty());
                            i = b.len();
                            assert(fields_from(bv, i as int) =~= Seq::<(u8, Seq<u8>)>::empty());
                        },
                    }
                }
            }
        }
    }
    assert(fields_from(bv, i as int) =~= Seq::<(u8, Seq<u8>)>::empty());
    assert(seen =~= all);
    true
}

impl ServiceProbeMatcher {
    /// The rules, in order.
    pub closed spec fn rules_view(&self) -> Seq<RuleView> {
        rule_views(self.rules@)
    }

    /// Reads the rules of a probe file: each line's `match` rule, else its
    /// `softmatch` rule; blank lines, comments and lines that give no rule
    /// are passed over.
    pub fn from_content(content: &str) -> (res: ServiceProbeMatcher)
        requires
            probe_content_ok(content@),
        ensures
            res.rules_view() == rules_of(lines(content@)),
    {
        proof {
            reveal_strlit("#");
        }
        let c = chars_of(content);
        let ls = lines_exec(c.as_slice());
        let ghost lv = ls@.map_values(|v: Vec<char>| v@);
        let mut rules: Vec<ProbeRule> = Vec::new();
        let mut i: usize = 0;
        assert(lv.take(0) =~= Seq::<Seq<char>>::empty());
        while i < ls.len()
            invariant
                i <= ls@.len(),
                c@ == content@,
                lv == ls@.map_values(|v: Vec<char>| v@),
                lv == lines(content@),
                probe_content_ok(content@),
                rule_views(rules@) == rules_of(lv.take(i as int)),
            decreases ls@.len() - i,
        {
            assert(lv[i as int] == ls@[i as int]@);
            proof {
                assert(lv.take(i + 1).drop_last() =~= lv.take(i as int));
                assert(lv.take(i + 1).last() == lv[i as int]);
            }
            let t = trim_chars(ls[i].as_slice());
            let ghost before = rules@;
            if t.len() > 0 && !starts_with_str(t.as_slice(), "#") {
                let ts = string_of(t.as_slice());
                match parse_probe_line(ts.as_str(), false) {
                    Some(r) => {
                        rules.push(r);
                        assert(rule_views(rules@) =~= rule_views(before).push(r@));
                    },
                    None => match parse_probe_line(ts.as_str(), true) {
                        Some(r) => {
                            rules.push(r);
                            assert(rule_views(rules@) =~= rule_views(before).push(r@));
                        },
                        None => {},
                    },
                }
            }
            i = i + 1;
        }
        assert(lv.take(i as int) =~= lv);
        ServiceProbeMatcher { rules }
    }

    /// Number of rules.
    pub fn rule_count(&self) -> (res: usize)
        ensures
            res == self.rules_view().len(),
    {
        self.rules.len()
    }

    /// The service a banner shows: the product, else the service, of the
    /// first rule that matches it.
    pub fn match_service(&self, banner: &[u8]) -> (res: Option<String>)
        ensures
            match res {
                Some(s) => first_match(self.rules_view(), banner@) == Some(s@),
                None => first_match(self.rules_view(), banner@) is None,
            },
    {
        let ghost rv = rule_views(self.rules@);
        let mut i: usize = 0;
        assert(rv.skip(0) =~= rv);
        while i < self.rules.len()
            invariant
                i <= self.rules@.len(),
                rv == rule_views(self.rules@),
                first_match(rv, banner@) == first_match(rv.skip(i as int), banner@),
            decreases self.rules@.len() - i,
        {
            let rule = &self.rules[i];
            assert(rv.skip(i as int)[0] == rule@);
            assert(rv.skip(i as int).drop_first() =~= rv.skip(i + 1));
            if rule.is_match(banner) {
                return match &rule.product {
                    Some(p) => Some(p.clone()),
                    None => Some(rule.service.clone()),
                };
            }
            i = i + 1;
        }
        None
    }
}

/// The rules a probe file gives, when it gives any.
pub fn loaded_matcher(content: &str) -> (res: Option<ServiceProbeMatcher>)
    requires
        probe_content_ok(content@),
    ensures
        match res {
            Some(m) => m.rules_view() == rules_of(lines(content@)) && m.rules_view().len() > 0,
            None => rules_of(lines(content@)).len() == 0,
        },
{
    let m = ServiceProbeMatcher::from_content(content);
    if m.rule_count() == 0 {
        None
    } else {
        Some(m)
    }
}

/// The service a banner shows, by the loaded rules: none for an empty
/// banner or when no rules are loaded.
pub fn match_service_banner(matcher: Option<&ServiceProbeMatcher>, banner: &[u8]) -> (res: Option<String>)
    ensures
        banner@.len() == 0 ==> res is None,
        banner@.len() > 0 ==> match matcher {
            None => res is None,
            Some(m) => match res {
                Some(s) => first_match(m.rules_view(), banner@) == Some(s@),
                None => first_match(m.rules_view(), banner@) is None,
            },
        },
{
    if banner.len() == 0 {
        return None;
    }
    match matcher {
        Some(m) => m.match_service(banner),
        None => None,
    }
}

/// The rule's pattern matches the banner.
pub open spec fn rule_matches(r: RuleView, banner: Seq<u8>) -> bool {
    probe_regex_outcome(r.pattern, r.case_insensitive, r.dot_matches_new_line, r.multi_line, banner) == Some(true)
}

/// The rule written first among those that match a banner names its
/// service: its product when it has one, else its service, whatever later
/// rules say; a banner that no rule matches names none.
pub proof fn law_first_matching_rule_wins(rules: Seq<RuleView>, banner: Seq<u8>, i: int)
    ensures
        (0 <= i < rules.len() && rule_matches(rules[i], banner) && forall|j: int|
            0 <= j < i ==> !rule_matches(#[trigger] rules[j], banner)) ==> first_match(rules, banner) == Some(
            match rules[i].product {
                Some(p) => p,
                None => rules[i].service,
            },
        ),
        (forall|j: int| 0 <= j < rules.len() ==> !rule_matches(#[trigger] rules[j], banner)) ==> first_match(
            rules,
            banner,
        ) is None,
    decreases rules.len(),
{
    if rules.len() > 0 {
        let tail = rules.drop_first();
        law_first_matching_rule_wins(tail, banner, i - 1);
        if 0 < i < rules.len() && rule_matches(rules[i], banner) && forall|j: int|
            0 <= j < i ==> !rule_matches(#[trigger] rules[j], banner) {
            assert(!rule_matches(rules[0], banner));
            assert(tail[i - 1] == rules[i]);
            assert forall|j: int| 0 <= j < i - 1 implies !rule_matches(#[trigger] tail[j], banner) by {
                assert(tail[j] == rules[j + 1]);
            }
        }
        if forall|j: int| 0 <= j < rules.len() ==> !rule_matches(#[trigger] rules[j], banner) {
            assert(!rule_matches(rules[0], banner));
            assert forall|j: int| 0 <= j < tail.len() implies !rule_matches(#[trigger] tail[j], banner) by {
                assert(tail[j] == rules[j + 1]);
            }
        }
    }
}

} // verus!
