//! Template variables: `{{BaseURL}}` and friends, random-string placeholders
//! and values captured by extractors.
use vstd::prelude::*;
use crate::text::{
    find, occurs_at, ascii_lower, ascii_lower_exec, chars_of, concat, has_prefix, index_of, index_of_exec,
    last_index_of, last_index_of_exec, replace_all, replace_exec, rsplit_once_char,
    rsplit_once_char_exec, slice_of, split_once, split_once_exec, string_of, trim, trim_str,
};

verus! {

// ---------------------------------------------------------------------------
// Target URL decomposition
// ---------------------------------------------------------------------------

/// The port a scheme implies when the target names none.
pub open spec fn default_port(scheme: Seq<char>) -> Seq<char> {
    if scheme == "https"@ {
        "443"@
    } else {
        "80"@
    }
}

/// Scheme (lower-cased, `http` when absent) and what follows `://`.
pub open spec fn target_scheme_rest(t: Seq<char>) -> (Seq<char>, Seq<char>) {
    let tr = trim(t);
    match split_once(tr, "://"@) {
        Some((s, r)) => (ascii_lower(s), r),
        None => ("http"@, tr),
    }
}

/// Authority and path (`/` when absent).
pub open spec fn target_host_path(t: Seq<char>) -> (Seq<char>, Seq<char>) {
    let rest = target_scheme_rest(t).1;
    match index_of(rest, '/') {
        Some(i) => (rest.take(i), rest.skip(i)),
        None => (rest, "/"@),
    }
}

/// Host name and port of the authority; a bracketed IPv6 literal loses its
/// brackets, and a missing port is the scheme's default.
pub open spec fn target_host_port(t: Seq<char>) -> (Seq<char>, Seq<char>) {
    let scheme = target_scheme_rest(t).0;
    let hp = target_host_path(t).0;
    if hp.len() > 0 && hp[0] == '[' {
        match index_of(hp, ']') {
            Some(e) => {
                let after = hp.skip(e + 1);
                let port = if has_prefix(after, seq![':']) {
                    after.skip(1)
                } else {
                    default_port(scheme)
                };
                (hp.subrange(1, e), port)
            },
            None => (hp, Seq::empty()),
        }
    } else {
        match rsplit_once_char(hp, ':') {
            Some((h, p)) => if index_of(h, ':') is None {
                (h, p)
            } else {
                (hp, default_port(scheme))
            },
            None => (hp, default_port(scheme)),
        }
    }
}

/// The last path segment when it holds a dot, else nothing.
pub open spec fn path_file(path: Seq<char>) -> Seq<char> {
    match last_index_of(path, '/') {
        Some(k) => {
            let c = path.skip(k + 1);
            if index_of(c, '.') is Some {
                c
            } else {
                Seq::empty()
            }
        },
        None => Seq::empty(),
    }
}

/// `scheme://host`, with `:port` unless the port is 80 or 443.
pub open spec fn base_url_of(scheme: Seq<char>, host: Seq<char>, port: Seq<char>) -> Seq<char> {
    if port == "80"@ || port == "443"@ {
        scheme + "://"@ + host
    } else {
        scheme + "://"@ + host + ":"@ + port
    }
}

/// The parts of a scan target that template variables stand for.
pub struct ParsedTarget {
    pub base_url: String,
    pub hostname: String,
    pub host: String,
    pub port: String,
    pub scheme: String,
    pub path: String,
    pub file: String,
}

/// The mathematical content of a decomposed target.
pub struct TargetView {
    pub base_url: Seq<char>,
    pub hostname: Seq<char>,
    pub host: Seq<char>,
    pub port: Seq<char>,
    pub scheme: Seq<char>,
    pub path: Seq<char>,
    pub file: Seq<char>,
}

impl View for ParsedTarget {
    type V = TargetView;

    open spec fn view(&self) -> TargetView {
        TargetView {
            base_url: self.base_url@,
            hostname: self.hostname@,
            host: self.host@,
            port: self.port@,
            scheme: self.scheme@,
            path: self.path@,
            file: self.file@,
        }
    }
}

/// The decomposition of the target `t`: all parts empty for a blank target.
pub open spec fn target_view(t: Seq<char>) -> TargetView {
    if trim(t).len() == 0 {
        TargetView {
            base_url: Seq::empty(),
            hostname: Seq::empty(),
            host: Seq::empty(),
            port: Seq::empty(),
            scheme: Seq::empty(),
            path: Seq::empty(),
            file: Seq::empty(),
        }
    } else {
        let scheme = target_scheme_rest(t).0;
        let host = target_host_port(t).0;
        let port = target_host_port(t).1;
        let path = target_host_path(t).1;
        TargetView {
            base_url: base_url_of(scheme, host, port),
            hostname: host,
            host: host,
            port: port,
            scheme: scheme,
            path: path,
            file: path_file(path),
        }
    }
}

fn default_port_exec(scheme: &[char]) -> (res: Vec<char>)
    ensures
        res@ == default_port(scheme@),
{
    if crate::text::eq_str(scheme, "https") {
        chars_of("443")
    } else {
        chars_of("80")
    }
}

/// Splits a scan target into scheme, host, port, path and file.
pub fn parse_target_url(target: &str) -> (res: ParsedTarget)
    ensures
        res@ == target_view(target@),
{
    let trimmed = trim_str(target);
    if trimmed.len() == 0 {
        return ParsedTarget {
            base_url: String::new(),
            hostname: String::new(),
            host: String::new(),
            port: String::new(),
            scheme: String::new(),
            path: String::new(),
            file: String::new(),
        };
    }
    let sep = chars_of("://");
    let (scheme, rest) = match split_once_exec(trimmed.as_slice(), sep.as_slice()) {
        Some((s, r)) => (ascii_lower_exec(s.as_slice()), r),
        None => (chars_of("http"), trimmed),
    };
    assert(scheme@ == target_scheme_rest(target@).0 && rest@ == target_scheme_rest(target@).1);
    let (host_part, path_part) = match index_of_exec(rest.as_slice(), '/') {
        Some(i) => (slice_of(rest.as_slice(), 0, i), slice_of(rest.as_slice(), i, rest.len())),
        None => (rest, chars_of("/")),
    };
    assert(host_part@ =~= target_host_path(target@).0);
    assert(path_part@ =~= target_host_path(target@).1);
    let (hostname, port) = if host_part.len() > 0 && host_part[0] == '[' {
        proof {
            crate::text::lemma_index_of(host_part@, ']');
        }
        match index_of_exec(host_part.as_slice(), ']') {
            Some(e) => {
                let after = slice_of(host_part.as_slice(), e + 1, host_part.len());
                assert(after@ =~= host_part@.skip(e + 1));
                let p = if after.len() > 0 && after[0] == ':' {
                    assert(after@.take(1) =~= seq![':']);
                    let q = slice_of(after.as_slice(), 1, after.len());
                    assert(q@ =~= after@.skip(1));
                    q
                } else {
                    assert(!has_prefix(after@, seq![':'])) by {
                        if after@.len() > 0 {
                            assert(after@.take(1)[0] == after@[0]);
                        }
                    }
                    default_port_exec(scheme.as_slice())
                };
                (slice_of(host_part.as_slice(), 1, e), p)
            },
            None => (host_part, Vec::new()),
        }
    } else {
        match rsplit_once_char_exec(host_part.as_slice(), ':') {
            Some((h, p)) => {
                if !crate::text::has_char(h.as_slice(), ':') {
                    (h, p)
                } else {
                    (host_part, default_port_exec(scheme.as_slice()))
                }
            },
            None => (host_part, default_port_exec(scheme.as_slice())),
        }
    };
    assert(hostname@ =~= target_host_port(target@).0);
    assert(port@ =~= target_host_port(target@).1);
    proof {
        crate::text::lemma_last_index_of(path_part@, '/');
    }
    let file = match last_index_of_exec(path_part.as_slice(), '/') {
        Some(k) => {
            let c = slice_of(path_part.as_slice(), k + 1, path_part.len());
            assert(c@ =~= path_part@.skip(k + 1));
            if crate::text::has_char(c.as_slice(), '.') {
                c
            } else {
                Vec::new()
            }
        },
        None => Vec::new(),
    };
    assert(file@ =~= path_file(path_part@));
    let colon_slashes = chars_of("://");
    let with_host = {
        let a = concat(scheme.as_slice(), colon_slashes.as_slice());
        concat(a.as_slice(), hostname.as_slice())
    };
    let base_url = if crate::text::eq_str(port.as_slice(), "80") || crate::text::eq_str(
        port.as_slice(),
        "443",
    ) {
        with_host
    } else {
        let colon = chars_of(":");
        let a = concat(with_host.as_slice(), colon.as_slice());
        concat(a.as_slice(), port.as_slice())
    };
    ParsedTarget {
        base_url: string_of(base_url.as_slice()),
        hostname: string_of(hostname.as_slice()),
        host: string_of(hostname.as_slice()),
        port: string_of(port.as_slice()),
        scheme: string_of(scheme.as_slice()),
        path: string_of(path_part.as_slice()),
        file: string_of(file.as_slice()),
    }
}

// ---------------------------------------------------------------------------
// Random placeholders
// ---------------------------------------------------------------------------

/// One step of the linear congruential generator behind random placeholders.
pub open spec fn lcg_next(x: u32) -> u32 {
    (((x as nat * 1103515245nat) % 0x1_0000_0000nat + 12345nat) % 0x1_0000_0000nat) as u32
}

/// The seed that follows `seed` (wrapping).
pub open spec fn next_seed(seed: u32) -> u32 {
    if seed == u32::MAX {
        0
    } else {
        (seed + 1) as u32
    }
}

/// Letter number `i` of `a..zA..Z`.
pub open spec fn alpha_char(i: int) -> char {
    if i < 26 {
        (97 + i) as char
    } else {
        (65 + i - 26) as char
    }
}

/// Digit number `i` of `0..9a..f`.
pub open spec fn hex_char(i: int) -> char {
    if i < 10 {
        (48 + i) as char
    } else {
        (97 + i - 10) as char
    }
}

/// The character a generator state picks.
pub open spec fn picked_char(x: u32, hex: bool) -> char {
    if hex {
        hex_char(((x >> 16u32) as int) % 16)
    } else {
        alpha_char(((x >> 16u32) as int) % 52)
    }
}

/// `n` characters drawn from the generator after state `x`.
pub open spec fn random_text(x: u32, n: nat, hex: bool) -> Seq<char>
    decreases n,
{
    if n == 0 {
        Seq::empty()
    } else {
        let y = lcg_next(x);
        seq![picked_char(y, hex)] + random_text(y, (n - 1) as nat, hex)
    }
}

/// The random string of length `n` that `seed` yields.
pub open spec fn random_string(seed: u32, n: nat, hex: bool) -> Seq<char> {
    random_text(lcg_next(seed), n, hex)
}

fn lcg_next_exec(x: u32) -> (res: u32)
    ensures
        res == lcg_next(x),
{
    let y = x.wrapping_mul(1103515245);
    let z = y.wrapping_add(12345);
    assert(z == lcg_next(x)) by (nonlinear_arith)
        requires
            y == ((x as nat * 1103515245nat) % 0x1_0000_0000nat) as u32,
            z == (if y + 12345 > u32::MAX {
                (y + 12345 - 0x1_0000_0000) as u32
            } else {
                (y + 12345) as u32
            }),
    ;
    z
}

fn picked_char_exec(x: u32, hex: bool) -> (res: char)
    ensures
        res == picked_char(x, hex),
{
    let hi: u32 = x >> 16;
    assert(hi < 65536) by (bit_vector)
        requires
            hi == x >> 16u32,
    ;
    if hex {
        let i: u32 = hi % 16;
        if i < 10 {
            crate::text::char_from_u32(48 + i)
        } else {
            crate::text::char_from_u32(97 + i - 10)
        }
    } else {
        let i: u32 = hi % 52;
        if i < 26 {
            crate::text::char_from_u32(97 + i)
        } else {
            crate::text::char_from_u32(65 + i - 26)
        }
    }
}

/// The random string of length `n` that `seed` yields: letters, or lower-case
/// hexadecimal digits when `hex`.
pub fn generate_random(seed: u32, n: usize, hex: bool) -> (res: Vec<char>)
    ensures
        res@ == random_string(seed, n as nat, hex),
{
    let mut out: Vec<char> = Vec::new();
    let mut x = lcg_next_exec(seed);
    let mut i: usize = 0;
    while i < n
        invariant
            i <= n,
            out@ + random_text(x, (n - i) as nat, hex) == random_string(seed, n as nat, hex),
        decreases n - i,
    {
        let ghost before = random_text(x, (n - i) as nat, hex);
        x = lcg_next_exec(x);
        let c = picked_char_exec(x, hex);
        proof {
            assert(before == seq![c] + random_text(x, (n - i - 1) as nat, hex));
            assert(out@.push(c) + random_text(x, (n - i - 1) as nat, hex) =~= out@ + before);
        }
        out.push(c);
        i = i + 1;
    }
    assert(out@ + random_text(x, 0, hex) =~= out@);
    out
}

fn next_seed_exec(seed: u32) -> (res: u32)
    ensures
        res == next_seed(seed),
{
    if seed == u32::MAX {
        0
    } else {
        seed + 1
    }
}

/// Number of `{` characters.
pub open spec fn brace_count(s: Seq<char>) -> nat
    decreases s.len(),
{
    if s.len() == 0 {
        0
    } else {
        brace_count(s.drop_last()) + if s.last() == '{' {
            1nat
        } else {
            0nat
        }
    }
}

proof fn lemma_brace_count_concat(a: Seq<char>, b: Seq<char>)
    ensures
        brace_count(a + b) == brace_count(a) + brace_count(b),
    decreases b.len(),
{
    if b.len() == 0 {
        assert(a + b =~= a);
    } else {
        assert((a + b).drop_last() =~= a + b.drop_last());
        lemma_brace_count_concat(a, b.drop_last());
    }
}

proof fn lemma_brace_count_none(s: Seq<char>)
    requires
        forall|k: int| 0 <= k < s.len() ==> s[k] != '{',
    ensures
        brace_count(s) == 0,
    decreases s.len(),
{
    if s.len() > 0 {
        lemma_brace_count_none(s.drop_last());
    }
}

proof fn lemma_random_text_plain(x: u32, n: nat, hex: bool)
    ensures
        random_text(x, n, hex).len() == n,
        forall|k: int| 0 <= k < n ==> is_plain_char(#[trigger] random_text(x, n, hex)[k], hex),
    decreases n,
{
    if n > 0 {
        let y = lcg_next(x);
        lemma_random_text_plain(y, (n - 1) as nat, hex);
        let r = random_text(x, n, hex);
        assert forall|k: int| 0 <= k < n implies is_plain_char(#[trigger] r[k], hex) by {
            if k > 0 {
                assert(r[k] == random_text(y, (n - 1) as nat, hex)[k - 1]);
            } else {
                let h = (y >> 16u32) as int;
                assert(0 <= h % 52 < 52 && 0 <= h % 16 < 16);
            }
        }
    }
}

/// A character a random string can hold: an ASCII letter, or a lower-case
/// hexadecimal digit when `hex`.
pub open spec fn is_plain_char(c: char, hex: bool) -> bool {
    if hex {
        ('0' <= c && c <= '9') || ('a' <= c && c <= 'f')
    } else {
        crate::text::is_ascii_alpha(c)
    }
}

/// Random strings have the asked length and hold letters (or hexadecimal
/// digits) only.
pub proof fn law_random_string_shape(seed: u32, n: nat, hex: bool)
    ensures
        random_string(seed, n, hex).len() == n,
        forall|k: int| 0 <= k < n ==> is_plain_char(#[trigger] random_string(seed, n, hex)[k], hex),
{
    lemma_random_text_plain(lcg_next(seed), n, hex);
}

/// Replacing `s[a..b]`, which starts with `{{`, by brace-free text removes
/// braces.
proof fn lemma_splice_fewer_braces(s: Seq<char>, a: int, b: int, r: Seq<char>)
    requires
        0 <= a,
        a + 2 <= b <= s.len(),
        s[a] == '{',
        s[a + 1] == '{',
        forall|k: int| 0 <= k < r.len() ==> r[k] != '{',
    ensures
        brace_count(s.take(a) + r + s.skip(b)) + 2 <= brace_count(s),
{
    let mid = s.subrange(a, b);
    assert(s =~= s.take(a) + mid + s.skip(b));
    lemma_brace_count_concat(s.take(a) + mid, s.skip(b));
    lemma_brace_count_concat(s.take(a), mid);
    lemma_brace_count_concat(s.take(a) + r, s.skip(b));
    lemma_brace_count_concat(s.take(a), r);
    lemma_brace_count_none(r);
    assert(mid =~= mid.take(2) + mid.skip(2));
    lemma_brace_count_concat(mid.take(2), mid.skip(2));
    let t = mid.take(2);
    assert(t.drop_last().drop_last() =~= Seq::<char>::empty());
    assert(t.last() == '{' && t.drop_last().last() == '{');
    assert(t.drop_last().len() == 1);
    assert(brace_count(t.drop_last().drop_last()) == 0);
    assert(brace_count(t.drop_last()) == 1);
    assert(brace_count(t) == 2);
}

/// The number of characters a sized placeholder asks for: its decimal
/// count, or eight when that does not parse.
pub open spec fn placeholder_len(spec: Seq<char>) -> nat {
    match crate::text::parse_int(spec, 0, usize::MAX as int) {
        Some(v) => v as nat,
        None => 8,
    }
}

/// `s[a..b]` replaced by `r`.
pub open spec fn splice(s: Seq<char>, a: int, b: int, r: Seq<char>) -> Seq<char> {
    s.take(a) + r + s.skip(b)
}

pub proof fn lemma_placeholder_step(s: Seq<char>, p: Seq<char>, a: int, b: int, seed: u32, n: nat, hex: bool)
    requires
        occurs_at(s, p, a),
        p.len() >= 2,
        p[0] == '{',
        p[1] == '{',
        a + 2 <= b <= s.len(),
    ensures
        brace_count(splice(s, a, b, random_string(seed, n, hex))) < brace_count(s),
{
    assert(s[a] == s.subrange(a, a + p.len())[0]);
    assert(s[a + 1] == s.subrange(a, a + p.len())[1]);
    law_random_string_shape(seed, n, hex);
    let r = random_string(seed, n, hex);
    assert forall|k: int| 0 <= k < r.len() implies r[k] != '{' by {
        assert(is_plain_char(r[k], hex));
    }
    lemma_splice_fewer_braces(s, a, b, r);
}

/// Each `{{randstr}}`, leftmost first, replaced by eight random letters; the
/// seed advances once per placeholder. Gives the text and the next seed.
#[verifier::opaque]
pub open spec fn randstr_plain_pass(s: Seq<char>, seed: u32) -> (Seq<char>, u32)
    decreases brace_count(s),
{
    match find(s, "{{randstr}}"@) {
        Some(i) => {
            proof {
                reveal_strlit("{{randstr}}");
                crate::text::lemma_find_from_bounds(s, "{{randstr}}"@, 0);
                lemma_placeholder_step(s, "{{randstr}}"@, i, i + 11, seed, 8, false);
            }
            randstr_plain_pass(
                splice(s, i, i + 11, random_string(seed, 8, false)),
                next_seed(seed),
            )
        },
        None => (s, seed),
    }
}

/// Each `{{randstr_N}}`, leftmost first, replaced by `N` random letters
/// (eight when `N` is not a count); stops at the first such opening without
/// a closing `}}` after it.
#[verifier::opaque]
pub open spec fn randstr_sized_pass(s: Seq<char>, seed: u32) -> Seq<char>
    decreases brace_count(s),
{
    match find(s, "{{randstr_"@) {
        Some(st) => match find(s.skip(st), "}}"@) {
            Some(end) => {
                let n = placeholder_len(s.subrange(st + 10, st + end));
                proof {
                    reveal_strlit("{{randstr_");
                    reveal_strlit("}}");
                    crate::text::lemma_find_from_bounds(s, "{{randstr_"@, 0);
                    crate::text::lemma_find_from_bounds(s.skip(st), "}}"@, 0);
                    lemma_placeholder_step(s, "{{randstr_"@, st, st + end + 2, seed, n, false);
                }
                randstr_sized_pass(
                    splice(s, st, st + end + 2, random_string(seed, n, false)),
                    next_seed(seed),
                )
            },
            None => s,
        },
        None => s,
    }
}

fn splice_exec(s: &[char], a: usize, b: usize, r: &[char]) -> (res: Vec<char>)
    requires
        a <= b <= s@.len(),
    ensures
        res@ == splice(s@, a as int, b as int, r@),
{
    let head = slice_of(s, 0, a);
    let tail = slice_of(s, b, s.len());
    let x = concat(head.as_slice(), r);
    let y = concat(x.as_slice(), tail.as_slice());
    assert(head@ =~= s@.take(a as int));
    assert(tail@ =~= s@.skip(b as int));
    y
}

proof fn lemma_plain_unfold(s: Seq<char>, seed: u32, i: int)
    requires
        find(s, "{{randstr}}"@) == Some(i),
    ensures
        i + 11 <= s.len(),
        brace_count(splice(s, i, i + 11, random_string(seed, 8, false))) < brace_count(s),
        randstr_plain_pass(s, seed) == randstr_plain_pass(
            splice(s, i, i + 11, random_string(seed, 8, false)),
            next_seed(seed),
        ),
{
    reveal(randstr_plain_pass);
    reveal_strlit("{{randstr}}");
    crate::text::lemma_find_from_bounds(s, "{{randstr}}"@, 0);
    lemma_placeholder_step(s, "{{randstr}}"@, i, i + 11, seed, 8, false);
}

proof fn lemma_plain_stop(s: Seq<char>, seed: u32)
    requires
        find(s, "{{randstr}}"@) is None,
    ensures
        randstr_plain_pass(s, seed) == (s, seed),
{
    reveal(randstr_plain_pass);
}

proof fn lemma_sized_stop(s: Seq<char>, seed: u32)
    requires
        find(s, "{{randstr_"@) matches Some(st) ==> find(s.skip(st), "}}"@) is None,
    ensures
        randstr_sized_pass(s, seed) == s,
{
    reveal(randstr_sized_pass);
}

proof fn lemma_sized_unfold(s: Seq<char>, seed: u32, st: int, end: int)
    requires
        find(s, "{{randstr_"@) == Some(st),
        find(s.skip(st), "}}"@) == Some(end),
    ensures
        10 <= end,
        st + end + 2 <= s.len(),
        brace_count(
            splice(s, st, st + end + 2, random_string(seed, placeholder_len(s.subrange(st + 10, st + end)), false)),
        ) < brace_count(s),
        randstr_sized_pass(s, seed) == randstr_sized_pass(
            splice(
                s,
                st,
                st + end + 2,
                random_string(seed, placeholder_len(s.subrange(st + 10, st + end)), false),
            ),
            next_seed(seed),
        ),
{
    reveal(randstr_sized_pass);
    reveal_strlit("{{randstr_");
    reveal_strlit("}}");
    crate::text::lemma_find_from_bounds(s, "{{randstr_"@, 0);
    crate::text::lemma_find_from_bounds(s.skip(st), "}}"@, 0);
    lemma_close_after_open(s, st, end);
    lemma_placeholder_step(
        s,
        "{{randstr_"@,
        st,
        st + end + 2,
        seed,
        placeholder_len(s.subrange(st + 10, st + end)),
        false,
    );
}

/// Replaces the first `{{randstr}}`, if there is one.
fn randstr_plain_step(s: &Vec<char>, seed: u32) -> (res: Option<(Vec<char>, u32)>)
    ensures
        res is None ==> randstr_plain_pass(s@, seed) == (s@, seed),
        res matches Some(r) ==> brace_count(r.0@) < brace_count(s@) && randstr_plain_pass(s@, seed)
            == randstr_plain_pass(r.0@, r.1),
{
    let pat = chars_of("{{randstr}}");
    match crate::text::find_exec(s.as_slice(), pat.as_slice()) {
        Some(start) => {
            proof {
                lemma_plain_unfold(s@, seed, start as int);
            }
            let len = s.len();
            assert(start + 11 <= len);
            let r = generate_random_alpha(seed, 8);
            Some((splice_exec(s.as_slice(), start, start + 11, r.as_slice()), next_seed_exec(seed)))
        },
        None => {
            proof {
                lemma_plain_stop(s@, seed);
            }
            None
        },
    }
}

fn replace_randstr_plain(s: Vec<char>, seed: u32) -> (res: (Vec<char>, u32))
    ensures
        (res.0@, res.1) == randstr_plain_pass(s@, seed),
{
    let ghost s0 = s@;
    let mut result = s;
    let mut seed_now = seed;
    loop
        invariant
            randstr_plain_pass(result@, seed_now) == randstr_plain_pass(s0, seed),
        ensures
            (result@, seed_now) == randstr_plain_pass(s0, seed),
        decreases brace_count(result@),
    {
        match randstr_plain_step(&result, seed_now) {
            Some((r, n)) => {
                result = r;
                seed_now = n;
            },
            None => {
                break ;
            },
        }
    }
    (result, seed_now)
}

fn placeholder_len_exec(spec: &[char]) -> (res: usize)
    ensures
        res as nat == placeholder_len(spec@),
{
    match crate::text::parse_usize_exec(spec) {
        Some(v) => v,
        None => 8,
    }
}

/// A closing `}}` found after an opening `{{randstr_` lies past its ten
/// characters.
proof fn lemma_close_after_open(s: Seq<char>, st: int, end: int)
    requires
        occurs_at(s, "{{randstr_"@, st),
        occurs_at(s.skip(st), "}}"@, end),
    ensures
        end >= 10,
{
    reveal_strlit("{{randstr_");
    reveal_strlit("}}");
    if end < 10 {
        assert(s.skip(st)[end] == s.subrange(st, st + 10)[end]);
        assert(s.skip(st)[end] == s.skip(st).subrange(end, end + 2)[0]);
    }
}

/// Replaces the first `{{randstr_N}}`, if there is one with a closing.
fn randstr_sized_step(s: &Vec<char>, seed: u32) -> (res: Option<(Vec<char>, u32)>)
    ensures
        res is None ==> randstr_sized_pass(s@, seed) == s@,
        res matches Some(r) ==> brace_count(r.0@) < brace_count(s@) && randstr_sized_pass(s@, seed)
            == randstr_sized_pass(r.0@, r.1),
{
    proof {
        reveal_strlit("{{randstr_");
        reveal_strlit("}}");
    }
    let pre = chars_of("{{randstr_");
    let close = chars_of("}}");
    let found = crate::text::find_exec(s.as_slice(), pre.as_slice());
    if found.is_none() {
        proof {
            lemma_sized_stop(s@, seed);
        }
        return None;
    }
    let st = found.unwrap();
    proof {
        crate::text::lemma_find_from_bounds(s@, pre@, 0);
    }
    let tail = slice_of(s.as_slice(), st, s.len());
    assert(tail@ =~= s@.skip(st as int));
    let closing = crate::text::find_exec(tail.as_slice(), close.as_slice());
    if closing.is_none() {
        proof {
            lemma_sized_stop(s@, seed);
        }
        return None;
    }
    let end = closing.unwrap();
    proof {
        lemma_sized_unfold(s@, seed, st as int, end as int);
    }
    let count_text = slice_of(s.as_slice(), st + 10, st + end);
    let n = placeholder_len_exec(count_text.as_slice());
    let r = generate_random_alpha(seed, n);
    Some((splice_exec(s.as_slice(), st, st + end + 2, r.as_slice()), next_seed_exec(seed)))
}

fn replace_randstr_sized(s: Vec<char>, seed: u32) -> (res: Vec<char>)
    ensures
        res@ == randstr_sized_pass(s@, seed),
{
    let ghost s0 = s@;
    let mut result = s;
    let mut seed_now = seed;
    loop
        invariant
            randstr_sized_pass(result@, seed_now) == randstr_sized_pass(s0, seed),
        ensures
            result@ == randstr_sized_pass(s0, seed),
        decreases brace_count(result@),
    {
        match randstr_sized_step(&result, seed_now) {
            Some((r, n)) => {
                result = r;
                seed_now = n;
            },
            None => {
                break ;
            },
        }
    }
    result
}

/// Replaces `{{randstr}}` and `{{randstr_N}}` placeholders by random
/// letters drawn from the generator seeded with `seed`.
fn replace_randstr(s: Vec<char>, seed: u32) -> (res: Vec<char>)
    ensures
        res@ == randstr_sized_pass(randstr_plain_pass(s@, seed).0, randstr_plain_pass(s@, seed).1),
{
    let (plain, next) = replace_randstr_plain(s, seed);
    replace_randstr_sized(plain, next)
}

/// `n` random letters from the generator seeded with `seed`.
pub fn generate_random_alpha(seed: u32, n: usize) -> (res: Vec<char>)
    ensures
        res@ == random_string(seed, n as nat, false),
{
    generate_random(seed, n, false)
}

/// `n` random lower-case hexadecimal digits from the generator seeded with
/// `seed`.
pub fn generate_random_hex(seed: u32, n: usize) -> (res: Vec<char>)
    ensures
        res@ == random_string(seed, n as nat, true),
{
    generate_random(seed, n, true)
}

/// Each `{{randstr_hex}}`, leftmost first, replaced by eight random
/// lower-case hexadecimal digits; the seed advances once per placeholder.
/// Gives the text and the next seed.
#[verifier::opaque]
pub open spec fn hex_plain_pass(s: Seq<char>, seed: u32) -> (Seq<char>, u32)
    decreases brace_count(s),
{
    match find(s, "{{randstr_hex}}"@) {
        Some(i) => {
            proof {
                reveal_strlit("{{randstr_hex}}");
                crate::text::lemma_find_from_bounds(s, "{{randstr_hex}}"@, 0);
                lemma_placeholder_step(s, "{{randstr_hex}}"@, i, i + 15, seed, 8, true);
            }
            hex_plain_pass(splice(s, i, i + 15, random_string(seed, 8, true)), next_seed(seed))
        },
        None => (s, seed),
    }
}

/// Each `{{randstr_hex_N}}`, leftmost first, replaced by `N` random
/// hexadecimal digits (eight when `N` is not a count); stops at the first
/// such opening without a closing `}}` after it.
#[verifier::opaque]
pub open spec fn hex_sized_pass(s: Seq<char>, seed: u32) -> Seq<char>
    decreases brace_count(s),
{
    match find(s, "{{randstr_hex_"@) {
        Some(st) => match find(s.skip(st), "}}"@) {
            Some(end) => {
                let n = placeholder_len(s.subrange(st + 14, st + end));
                proof {
                    reveal_strlit("{{randstr_hex_");
                    reveal_strlit("}}");
                    crate::text::lemma_find_from_bounds(s, "{{randstr_hex_"@, 0);
                    crate::text::lemma_find_from_bounds(s.skip(st), "}}"@, 0);
                    lemma_placeholder_step(s, "{{randstr_hex_"@, st, st + end + 2, seed, n, true);
                }
                hex_sized_pass(
                    splice(s, st, st + end + 2, random_string(seed, n, true)),
                    next_seed(seed),
                )
            },
            None => s,
        },
        None => s,
    }
}

/// The hexadecimal placeholders of `s` replaced: first the plain ones, then
/// the sized ones with the seed the first pass left.
pub open spec fn hex_replaced(s: Seq<char>, seed: u32) -> Seq<char> {
    hex_sized_pass(hex_plain_pass(s, seed).0, hex_plain_pass(s, seed).1)
}

proof fn lemma_hex_plain_unfold(s: Seq<char>, seed: u32, i: int)
    requires
        find(s, "{{randstr_hex}}"@) == Some(i),
    ensures
        i + 15 <= s.len(),
        brace_count(splice(s, i, i + 15, random_string(seed, 8, true))) < brace_count(s),
        hex_plain_pass(s, seed) == hex_plain_pass(
            splice(s, i, i + 15, random_string(seed, 8, true)),
            next_seed(seed),
        ),
{
    reveal(hex_plain_pass);
    reveal_strlit("{{randstr_hex}}");
    crate::text::lemma_find_from_bounds(s, "{{randstr_hex}}"@, 0);
    lemma_placeholder_step(s, "{{randstr_hex}}"@, i, i + 15, seed, 8, true);
}

proof fn lemma_hex_plain_stop(s: Seq<char>, seed: u32)
    requires
        find(s, "{{randstr_hex}}"@) is None,
    ensures
        hex_plain_pass(s, seed) == (s, seed),
{
    reveal(hex_plain_pass);
}

proof fn lemma_hex_sized_stop(s: Seq<char>, seed: u32)
    requires
        find(s, "{{randstr_hex_"@) matches Some(st) ==> find(s.skip(st), "}}"@) is None,
    ensures
        hex_sized_pass(s, seed) == s,
{
    reveal(hex_sized_pass);
}

/// A closing `}}` found after an opening `{{randstr_hex_` lies past its
/// fourteen characters.
proof fn lemma_hex_close_after_open(s: Seq<char>, st: int, end: int)
    requires
        occurs_at(s, "{{randstr_hex_"@, st),
        occurs_at(s.skip(st), "}}"@, end),
    ensures
        end >= 14,
{
    reveal_strlit("{{randstr_hex_");
    reveal_strlit("}}");
    if end < 14 {
        assert(s.skip(st)[end] == s.subrange(st, st + 14)[end]);
        assert(s.skip(st)[end] == s.skip(st).subrange(end, end + 2)[0]);
    }
}

proof fn lemma_hex_sized_unfold(s: Seq<char>, seed: u32, st: int, end: int)
    requires
        find(s, "{{randstr_hex_"@) == Some(st),
        find(s.skip(st), "}}"@) == Some(end),
    ensures
        14 <= end,
        st + end + 2 <= s.len(),
        brace_count(
            splice(s, st, st + end + 2, random_string(seed, placeholder_len(s.subrange(st + 14, st + end)), true)),
        ) < brace_count(s),
        hex_sized_pass(s, seed) == hex_sized_pass(
            splice(
                s,
                st,
                st + end + 2,
                random_string(seed, placeholder_len(s.subrange(st + 14, st + end)), true),
            ),
            next_seed(seed),
        ),
{
    reveal(hex_sized_pass);
    reveal_strlit("{{randstr_hex_");
    reveal_strlit("}}");
    crate::text::lemma_find_from_bounds(s, "{{randstr_hex_"@, 0);
    crate::text::lemma_find_from_bounds(s.skip(st), "}}"@, 0);
    lemma_hex_close_after_open(s, st, end);
    lemma_placeholder_step(
        s,
        "{{randstr_hex_"@,
        st,
        st + end + 2,
        seed,
        placeholder_len(s.subrange(st + 14, st + end)),
        true,
    );
}

/// Replaces the first `{{randstr_hex}}`, if there is one.
fn hex_plain_step(s: &Vec<char>, seed: u32) -> (res: Option<(Vec<char>, u32)>)
    ensures
        res is None ==> hex_plain_pass(s@, seed) == (s@, seed),
        res matches Some(r) ==> brace_count(r.0@) < brace_count(s@) && hex_plain_pass(s@, seed)
            == hex_plain_pass(r.0@, r.1),
{
    let pat = chars_of("{{randstr_hex}}");
    match crate::text::find_exec(s.as_slice(), pat.as_slice()) {
        Some(start) => {
            proof {
                lemma_hex_plain_unfold(s@, seed, start as int);
            }
            let len = s.len();
            assert(start + 15 <= len);
            let r = generate_random_hex(seed, 8);
            Some((splice_exec(s.as_slice(), start, start + 15, r.as_slice()), next_seed_exec(seed)))
        },
        None => {
            proof {
                lemma_hex_plain_stop(s@, seed);
            }
            None
        },
    }
}

/// Replaces the first `{{randstr_hex_N}}`, if there is one with a closing.
fn hex_sized_step(s: &Vec<char>, seed: u32) -> (res: Option<(Vec<char>, u32)>)
    ensures
        res is None ==> hex_sized_pass(s@, seed) == s@,
        res matches Some(r) ==> brace_count(r.0@) < brace_count(s@) && hex_sized_pass(s@, seed)
            == hex_sized_pass(r.0@, r.1),
{
    proof {
        reveal_strlit("{{randstr_hex_");
        reveal_strlit("}}");
    }
    let pre = chars_of("{{randstr_hex_");
    let close = chars_of("}}");
    let found = crate::text::find_exec(s.as_slice(), pre.as_slice());
    if found.is_none() {
        proof {
            lemma_hex_sized_stop(s@, seed);
        }
        return None;
    }
    let st = found.unwrap();
    proof {
        crate::text::lemma_find_from_bounds(s@, pre@, 0);
    }
    let tail = slice_of(s.as_slice(), st, s.len());
    assert(tail@ =~= s@.skip(st as int));
    let closing = crate::text::find_exec(tail.as_slice(), close.as_slice());
    if closing.is_none() {
        proof {
            lemma_hex_sized_stop(s@, seed);
        }
        return None;
    }
    let end = closing.unwrap();
    proof {
        lemma_hex_sized_unfold(s@, seed, st as int, end as int);
    }
    let count_text = slice_of(s.as_slice(), st + 14, st + end);
    let n = placeholder_len_exec(count_text.as_slice());
    let r = generate_random_hex(seed, n);
    Some((splice_exec(s.as_slice(), st, st + end + 2, r.as_slice()), next_seed_exec(seed)))
}

/// Replaces the hexadecimal random placeholders: each `{{randstr_hex}}`
/// by eight digits, then each `{{randstr_hex_N}}` by `N` digits, drawn from
/// the generator seeded with `seed`.
fn replace_randstr_hex(s: Vec<char>, seed: u32) -> (res: Vec<char>)
    ensures
        res@ == hex_replaced(s@, seed),
{
    let ghost s0 = s@;
    let mut result = s;
    let mut seed_now = seed;
    loop
        invariant
            hex_plain_pass(result@, seed_now) == hex_plain_pass(s0, seed),
        ensures
            (result@, seed_now) == hex_plain_pass(s0, seed),
        decreases brace_count(result@),
    {
        match hex_plain_step(&result, seed_now) {
            Some((r, n)) => {
                result = r;
                seed_now = n;
            },
            None => {
                break ;
            },
        }
    }
    let ghost mid = result@;
    let ghost mid_seed = seed_now;
    loop
        invariant
            hex_sized_pass(result@, seed_now) == hex_sized_pass(mid, mid_seed),
            (mid, mid_seed) == hex_plain_pass(s0, seed),
        ensures
            result@ == hex_sized_pass(mid, mid_seed),
        decreases brace_count(result@),
    {
        match hex_sized_step(&result, seed_now) {
            Some((r, n)) => {
                result = r;
                seed_now = n;
            },
            None => {
                break ;
            },
        }
    }
    result
}

/// The template variables of `input` filled in from the target.
pub open spec fn substituted(input: Seq<char>, target: Seq<char>) -> Seq<char> {
    let v = target_view(target);
    let s1 = replace_all(input, "{{BaseURL}}"@, v.base_url);
    let s2 = replace_all(s1, "{{Hostname}}"@, v.hostname);
    let s3 = replace_all(s2, "{{Host}}"@, v.host);
    let s4 = replace_all(s3, "{{Port}}"@, v.port);
    let s5 = replace_all(s4, "{{Scheme}}"@, v.scheme);
    let s6 = replace_all(s5, "{{FQDN}}"@, v.hostname);
    let s7 = replace_all(s6, "{{Path}}"@, v.path);
    replace_all(s7, "{{File}}"@, v.file)
}

/// The variables of `input` filled in from the target, then its random
/// placeholders: the hexadecimal ones from the hexadecimal generator seeded
/// with `seed`, then the letter ones from the letter generator seeded with
/// `seed`.
pub open spec fn variables_replaced(input: Seq<char>, target: Seq<char>, seed: u32) -> Seq<char> {
    let h = hex_replaced(substituted(input, target), seed);
    let (s, next) = randstr_plain_pass(h, seed);
    randstr_sized_pass(s, next)
}

fn replace_text(s: &Vec<char>, pat: &str, to: &String) -> (res: Vec<char>)
    requires
        pat@.len() > 0,
    ensures
        res@ == replace_all(s@, pat@, to@),
{
    let p = chars_of(pat);
    let t = chars_of(to.as_str());
    replace_exec(s.as_slice(), p.as_slice(), t.as_slice())
}

/// Fills in the template variables of `input` for `target`; the random
/// placeholders draw from the generator seeded with `seed`.
pub fn replace_variables_seeded(input: &str, target: &str, seed: u32) -> (res: String)
    ensures
        res@ == variables_replaced(input@, target@, seed),
{
    proof {
        reveal_strlit("{{BaseURL}}");
        reveal_strlit("{{Hostname}}");
        reveal_strlit("{{Host}}");
        reveal_strlit("{{Port}}");
        reveal_strlit("{{Scheme}}");
        reveal_strlit("{{FQDN}}");
        reveal_strlit("{{Path}}");
        reveal_strlit("{{File}}");
    }
    let parsed = parse_target_url(target);
    let mut result = chars_of(input);
    result = replace_text(&result, "{{BaseURL}}", &parsed.base_url);
    result = replace_text(&result, "{{Hostname}}", &parsed.hostname);
    result = replace_text(&result, "{{Host}}", &parsed.host);
    result = replace_text(&result, "{{Port}}", &parsed.port);
    result = replace_text(&result, "{{Scheme}}", &parsed.scheme);
    result = replace_text(&result, "{{FQDN}}", &parsed.hostname);
    result = replace_text(&result, "{{Path}}", &parsed.path);
    result = replace_text(&result, "{{File}}", &parsed.file);
    let hexed = replace_randstr_hex(result, seed);
    let done = replace_randstr(hexed, seed);
    string_of(done.as_slice())
}

/// Fills in the template variables of `input` for `target`; the random
/// placeholders draw from a freshly seeded generator.
pub fn replace_variables(input: &str, target: &str) -> (res: String)
    ensures
        exists|seed: u32| res@ == variables_replaced(input@, target@, seed),
{
    let seed = crate::ids::random_seed();
    replace_variables_seeded(input, target, seed)
}

/// Text without random placeholders does not depend on the seed: it is the
/// variable substitution alone.
pub proof fn law_no_placeholder_no_randomness(input: Seq<char>, target: Seq<char>, seed: u32)
    requires
        !crate::text::contains(substituted(input, target), "{{randstr"@),
    ensures
        variables_replaced(input, target, seed) == substituted(input, target),
{
    let s = substituted(input, target);
    reveal_strlit("{{randstr");
    reveal_strlit("{{randstr}}");
    reveal_strlit("{{randstr_");
    crate::text::lemma_find_from_bounds(s, "{{randstr"@, 0);
    crate::text::lemma_find_from_bounds(s, "{{randstr}}"@, 0);
    crate::text::lemma_find_from_bounds(s, "{{randstr_"@, 0);
    if let Some(k) = find(s, "{{randstr}}"@) {
        assert(s.subrange(k, k + 9) =~= s.subrange(k, k + 11).subrange(0, 9));
        assert("{{randstr}}"@.subrange(0, 9) =~= "{{randstr"@);
        assert(occurs_at(s, "{{randstr"@, k));
    }
    lemma_plain_stop(s, seed);
    if let Some(k) = find(s, "{{randstr_"@) {
        assert(s.subrange(k, k + 9) =~= s.subrange(k, k + 10).subrange(0, 9));
        assert("{{randstr_"@.subrange(0, 9) =~= "{{randstr"@);
        assert(occurs_at(s, "{{randstr"@, k));
    }
    lemma_sized_stop(s, seed);
    reveal_strlit("{{randstr_hex}}");
    reveal_strlit("{{randstr_hex_");
    crate::text::lemma_find_from_bounds(s, "{{randstr_hex}}"@, 0);
    crate::text::lemma_find_from_bounds(s, "{{randstr_hex_"@, 0);
    if let Some(k) = find(s, "{{randstr_hex}}"@) {
        assert(s.subrange(k, k + 9) =~= s.subrange(k, k + 15).subrange(0, 9));
        assert("{{randstr_hex}}"@.subrange(0, 9) =~= "{{randstr"@);
        assert(occurs_at(s, "{{randstr"@, k));
    }
    if let Some(k) = find(s, "{{randstr_hex_"@) {
        assert(s.subrange(k, k + 9) =~= s.subrange(k, k + 14).subrange(0, 9));
        assert("{{randstr_hex_"@.subrange(0, 9) =~= "{{randstr"@);
        assert(occurs_at(s, "{{randstr"@, k));
    }
    lemma_hex_plain_stop(s, seed);
    lemma_hex_sized_stop(s, seed);
}

// ---------------------------------------------------------------------------
// Values captured by extractors
// ---------------------------------------------------------------------------

/// The (name, value) views of a list of variables.
pub open spec fn pair_views(v: Seq<(String, String)>) -> Seq<(Seq<char>, Seq<char>)> {
    v.map_values(|p: (String, String)| (p.0@, p.1@))
}

/// Each `{{name}}` replaced by its value, the variables taken in order.
pub open spec fn dynamic_replaced(s: Seq<char>, vars: Seq<(Seq<char>, Seq<char>)>) -> Seq<char>
    decreases vars.len(),
{
    if vars.len() == 0 {
        s
    } else {
        let (k, v) = vars.last();
        replace_all(dynamic_replaced(s, vars.drop_last()), "{{"@ + k + "}}"@, v)
    }
}

/// Text without `{{` holds no placeholder: filling in captured values
/// leaves it as it is, whatever the variables (and any text is left as it
/// is when there are none).
pub proof fn law_no_placeholder_no_change(s: Seq<char>, vars: Seq<(Seq<char>, Seq<char>)>)
    requires
        !crate::text::contains(s, "{{"@),
    ensures
        dynamic_replaced(s, vars) == s,
        dynamic_replaced(s, Seq::empty()) == s,
    decreases vars.len(),
{
    if vars.len() > 0 {
        law_no_placeholder_no_change(s, vars.drop_last());
        let (k, v) = vars.last();
        let p = "{{"@ + k + "}}"@;
        reveal_strlit("{{");
        reveal_strlit("}}");
        crate::text::lemma_find_from_bounds(s, p, 0);
        crate::text::lemma_find_from_bounds(s, "{{"@, 0);
        if let Some(i) = find(s, p) {
            assert(s.subrange(i, i + 2) =~= s.subrange(i, i + p.len()).subrange(0, 2));
            assert(p.subrange(0, 2) =~= "{{"@);
            assert(occurs_at(s, "{{"@, i));
        }
    }
}

/// Replaces each `{{name}}` by the value the extractors captured for it.
pub fn replace_dynamic_vars(input: &str, variables: &[(String, String)]) -> (res: String)
    ensures
        res@ == dynamic_replaced(input@, pair_views(variables@)),
{
    proof {
        reveal_strlit("{{");
        reveal_strlit("}}");
    }
    let open = chars_of("{{");
    let close = chars_of("}}");
    let ghost pv = pair_views(variables@);
    let mut result = chars_of(input);
    let mut i: usize = 0;
    while i < variables.len()
        invariant
            i <= variables@.len(),
            pv == pair_views(variables@),
            open@ == "{{"@,
            close@ == "}}"@,
            open@.len() == 2,
            result@ == dynamic_replaced(input@, pv.take(i as int)),
        decreases variables@.len() - i,
    {
        let (k, v) = &variables[i];
        let kc = chars_of(k.as_str());
        let a = concat(open.as_slice(), kc.as_slice());
        let placeholder = concat(a.as_slice(), close.as_slice());
        let vc = chars_of(v.as_str());
        result = replace_exec(result.as_slice(), placeholder.as_slice(), vc.as_slice());
        proof {
            assert(pv.take(i + 1).drop_last() =~= pv.take(i as int));
            assert(pv.take(i + 1).last() == pv[i as int]);
        }
        i = i + 1;
    }
    assert(pv.take(i as int) =~= pv);
    string_of(result.as_slice())
}

/// Fills in template variables and captured values in each header value;
/// names are kept.
pub fn replace_headers(
    headers: &[(String, String)],
    target: &str,
    variables: &[(String, String)],
) -> (res: Vec<(String, String)>)
    ensures
        res@.len() == headers@.len(),
        forall|i: int|
            0 <= i < headers@.len() ==> (#[trigger] res@[i]).0@ == headers@[i].0@ && exists|
                seed: u32,
            |
                res@[i].1@ == dynamic_replaced(
                    variables_replaced(headers@[i].1@, target@, seed),
                    pair_views(variables@),
                ),
{
    let mut out: Vec<(String, String)> = Vec::new();
    let mut i: usize = 0;
    while i < headers.len()
        invariant
            i <= headers@.len(),
            out@.len() == i,
            forall|j: int|
                0 <= j < i ==> (#[trigger] out@[j]).0@ == headers@[j].0@ && exists|seed: u32|
                    out@[j].1@ == dynamic_replaced(
                        variables_replaced(headers@[j].1@, target@, seed),
                        pair_views(variables@),
                    ),
        decreases headers@.len() - i,
    {
        let (k, v) = &headers[i];
        let filled = replace_variables(v.as_str(), target);
        let value = replace_dynamic_vars(filled.as_str(), variables);
        let name = k.clone();
        let ghost sd = choose|seed: u32| filled@ == variables_replaced(v@, target@, seed);
        proof {
            assert(value@ == dynamic_replaced(
                variables_replaced(headers@[i as int].1@, target@, sd),
                pair_views(variables@),
            ));
        }
        let ghost before = out@;
        out.push((name, value));
        proof {
            assert(out@[i as int].0@ == headers@[i as int].0@);
            assert(out@[i as int].1@ == dynamic_replaced(
                variables_replaced(headers@[i as int].1@, target@, sd),
                pair_views(variables@),
            ));
            assert forall|j: int| 0 <= j < i + 1 implies (#[trigger] out@[j]).0@ == headers@[j].0@ && exists|
                seed: u32,
            |
                out@[j].1@ == dynamic_replaced(
                    variables_replaced(headers@[j].1@, target@, seed),
                    pair_views(variables@),
                ) by {
                if j < i {
                    assert(out@[j] == before[j]);
                }
            }
        }
        i = i + 1;
    }
    out
}

/// Text without `{{` holds no occurrence of a pattern that starts with
/// `{{`, so replacing it leaves the text as it is.
proof fn lemma_braceless_replace(s: Seq<char>, p: Seq<char>, t: Seq<char>)
    requires
        !crate::text::contains(s, "{{"@),
        p.len() >= 2,
        p[0] == '{',
        p[1] == '{',
    ensures
        replace_all(s, p, t) == s,
{
    reveal_strlit("{{");
    crate::text::lemma_find_from_bounds(s, p, 0);
    crate::text::lemma_find_from_bounds(s, "{{"@, 0);
    if let Some(i) = find(s, p) {
        assert(s.subrange(i, i + 2) =~= s.subrange(i, i + p.len()).subrange(0, 2));
        assert(s.subrange(i, i + 2) =~= "{{"@);
        assert(occurs_at(s, "{{"@, i));
    }
}

/// A pattern longer than the text does not occur in it.
proof fn lemma_longer_absent(s: Seq<char>, p: Seq<char>, t: Seq<char>)
    requires
        p.len() > s.len(),
    ensures
        replace_all(s, p, t) == s,
{
}

/// `{{Port}}` in a template is replaced by the port of the scan target: a
/// template that is just `{{Port}}` becomes the target's port (its explicit
/// port, else its scheme's default), whatever the seed, when that port holds
/// no `{{`.
pub proof fn law_port_placeholder(target: Seq<char>, seed: u32)
    requires
        !crate::text::contains(target_view(target).port, "{{"@),
    ensures
        variables_replaced("{{Port}}"@, target, seed) == target_view(target).port,
{
    let v = target_view(target);
    let input = "{{Port}}"@;
    reveal_strlit("{{Port}}");
    reveal_strlit("{{BaseURL}}");
    reveal_strlit("{{Hostname}}");
    reveal_strlit("{{Host}}");
    reveal_strlit("{{Scheme}}");
    reveal_strlit("{{FQDN}}");
    reveal_strlit("{{Path}}");
    reveal_strlit("{{File}}");
    reveal_strlit("{{randstr");
    reveal_strlit("{{");
    lemma_longer_absent(input, "{{BaseURL}}"@, v.base_url);
    lemma_longer_absent(input, "{{Hostname}}"@, v.hostname);
    let s1 = replace_all(input, "{{BaseURL}}"@, v.base_url);
    let s2 = replace_all(s1, "{{Hostname}}"@, v.hostname);
    assert(s2 == input);
    assert(!occurs_at(input, "{{Host}}"@, 0)) by {
        assert(input.subrange(0, 8)[2] != "{{Host}}"@[2]);
    }
    assert(crate::text::find_from(input, "{{Host}}"@, 1) is None);
    assert(find(input, "{{Host}}"@) is None);
    let s3 = replace_all(s2, "{{Host}}"@, v.host);
    assert(s3 == input);
    assert(occurs_at(input, "{{Port}}"@, 0)) by {
        assert(input.subrange(0, 8) =~= input);
    }
    assert(find(input, "{{Port}}"@) == Some(0int));
    let empty = Seq::<char>::empty();
    assert(input.skip(8) =~= empty);
    assert(replace_all(empty, "{{Port}}"@, v.port) == empty);
    let s4 = replace_all(s3, "{{Port}}"@, v.port);
    assert(s4 =~= v.port);
    lemma_braceless_replace(s4, "{{Scheme}}"@, v.scheme);
    lemma_braceless_replace(s4, "{{FQDN}}"@, v.hostname);
    lemma_braceless_replace(s4, "{{Path}}"@, v.path);
    lemma_braceless_replace(s4, "{{File}}"@, v.file);
    assert(substituted(input, target) == v.port);
    crate::text::lemma_find_from_bounds(v.port, "{{randstr"@, 0);
    crate::text::lemma_find_from_bounds(v.port, "{{"@, 0);
    if let Some(k) = find(v.port, "{{randstr"@) {
        assert(v.port.subrange(k, k + 2) =~= v.port.subrange(k, k + 9).subrange(0, 2));
        assert(v.port.subrange(k, k + 2) =~= "{{"@);
        assert(occurs_at(v.port, "{{"@, k));
    }
    law_no_placeholder_no_randomness(input, target, seed);
}

/// A target written `scheme://host:port`, with a host that is no bracketed
/// literal and neither the host nor the port holding `:` or `/`, has that
/// host and that port, whatever the scheme's default port is.
pub proof fn law_explicit_port(scheme: Seq<char>, h: Seq<char>, p: Seq<char>)
    requires
        scheme.len() > 0,
        !crate::text::is_ws(scheme[0]),
        forall|k: int| 0 <= k < scheme.len() ==> scheme[k] != ':',
        h.len() > 0,
        h[0] != '[',
        forall|k: int| 0 <= k < h.len() ==> h[k] != ':' && h[k] != '/',
        p.len() > 0,
        forall|k: int| 0 <= k < p.len() ==> p[k] != ':' && p[k] != '/',
        !crate::text::is_ws(p.last()),
    ensures
        target_view(scheme + "://"@ + h + ":"@ + p).port == p,
        target_view(scheme + "://"@ + h + ":"@ + p).hostname == h,
{
    reveal_strlit("://");
    reveal_strlit(":");
    let sep = "://"@;
    let t = scheme + sep + h + ":"@ + p;
    let n = scheme.len() as int;
    assert(t[0] == scheme[0]);
    assert(t.last() == p.last());
    assert(crate::text::trim_start(t) == t);
    assert(crate::text::trim_end(t) == t);
    assert(crate::text::trim(t) == t);
    // the first `://` follows the scheme
    assert(occurs_at(t, sep, n)) by {
        assert(t.subrange(n, n + 3) =~= sep);
    }
    crate::text::lemma_find_from_bounds(t, sep, 0);
    assert forall|k: int| 0 <= k < n implies !occurs_at(t, sep, k) by {
        if occurs_at(t, sep, k) {
            assert(t.subrange(k, k + 3)[0] == t[k]);
            assert(t[k] == scheme[k]);
        }
    }
    assert(find(t, sep) == Some(n));
    let rest = t.skip(n + 3);
    assert(rest =~= h + ":"@ + p);
    assert(target_scheme_rest(t).1 == rest);
    // no `/` after it
    crate::text::lemma_index_of(rest, '/');
    assert forall|k: int| 0 <= k < rest.len() implies rest[k] != '/' by {
        if k < h.len() {
            assert(rest[k] == h[k]);
        } else if k > h.len() {
            assert(rest[k] == p[k - h.len() - 1]);
        }
    }
    assert(target_host_path(t).0 == rest);
    assert(rest[0] == h[0]);
    // the last `:` separates host and port
    crate::text::lemma_last_index_of(rest, ':');
    let hl = h.len() as int;
    assert(rest[hl] == ':');
    assert(crate::text::last_index_of(rest, ':') == Some(hl)) by {
        match crate::text::last_index_of(rest, ':') {
            Some(j) => {
                if j < hl {
                    assert(rest[j] == h[j]);
                } else if j > hl {
                    assert(rest[j] == p[j - hl - 1]);
                }
            },
            None => {},
        }
    }
    assert(rest.take(hl) =~= h);
    assert(rest.skip(hl + 1) =~= p);
    crate::text::lemma_index_of(h, ':');
    assert(crate::text::index_of(h, ':') is None);
}

/// `{{Port}}` becomes the explicit port of a `scheme://host:port` target,
/// never the scheme's default: for `http://10.0.0.1:8080` it is `8080`.
pub proof fn law_port_placeholder_explicit(scheme: Seq<char>, h: Seq<char>, p: Seq<char>, seed: u32)
    requires
        scheme.len() > 0,
        !crate::text::is_ws(scheme[0]),
        forall|k: int| 0 <= k < scheme.len() ==> scheme[k] != ':',
        h.len() > 0,
        h[0] != '[',
        forall|k: int| 0 <= k < h.len() ==> h[k] != ':' && h[k] != '/',
        p.len() > 0,
        forall|k: int| 0 <= k < p.len() ==> p[k] != ':' && p[k] != '/' && p[k] != '{',
        !crate::text::is_ws(p.last()),
    ensures
        variables_replaced("{{Port}}"@, scheme + "://"@ + h + ":"@ + p, seed) == p,
{
    law_explicit_port(scheme, h, p);
    reveal_strlit("{{");
    crate::text::lemma_find_from_bounds(p, "{{"@, 0);
    if let Some(k) = find(p, "{{"@) {
        assert(p.subrange(k, k + 2)[0] == p[k]);
    }
    law_port_placeholder(scheme + "://"@ + h + ":"@ + p, seed);
}

/// A placeholder `{{...}}` whose only braces come first is untouched by
/// replacing another placeholder that differs from it at position `j`.
proof fn lemma_other_placeholder_untouched(s: Seq<char>, p: Seq<char>, t: Seq<char>, j: int)
    requires
        s.len() >= 3,
        s[0] == '{',
        s[1] == '{',
        forall|k: int| 2 <= k < s.len() ==> s[k] != '{',
        p.len() >= 2,
        p[0] == '{',
        p[1] == '{',
        0 <= j < p.len(),
        j < s.len(),
        s[j] != p[j],
    ensures
        replace_all(s, p, t) == s,
{
    crate::text::lemma_find_from_bounds(s, p, 0);
    if let Some(i) = find(s, p) {
        assert(s.subrange(i, i + p.len())[0] == s[i]);
        assert(s.subrange(i, i + p.len())[1] == s[i + 1]);
        if i == 0 {
            assert(s.subrange(0, p.len() as int)[j] == s[j]);
        }
    }
}

/// Replacing a whole text by `t` gives `t`.
proof fn lemma_whole_replaced(s: Seq<char>, t: Seq<char>)
    requires
        s.len() > 0,
    ensures
        replace_all(s, s, t) == t,
{
    assert(occurs_at(s, s, 0)) by {
        assert(s.subrange(0, s.len() as int) =~= s);
    }
    assert(find(s, s) == Some(0int));
    let empty = Seq::<char>::empty();
    assert(s.skip(s.len() as int) =~= empty);
    assert(replace_all(empty, s, t) == empty);
    assert(s.take(0) + t + empty =~= t);
}

/// After a placeholder has become a value without `{{`, the later
/// placeholders leave it as it is, and no random placeholder is left.
proof fn lemma_value_settles(v: Seq<char>)
    requires
        !crate::text::contains(v, "{{"@),
    ensures
        replace_all(v, "{{Hostname}}"@, Seq::empty()) == v,
        forall|t: Seq<char>| #[trigger] replace_all(v, "{{Host}}"@, t) == v,
        forall|t: Seq<char>| #[trigger] replace_all(v, "{{Port}}"@, t) == v,
        forall|t: Seq<char>| #[trigger] replace_all(v, "{{Scheme}}"@, t) == v,
        forall|t: Seq<char>| #[trigger] replace_all(v, "{{FQDN}}"@, t) == v,
        forall|t: Seq<char>| #[trigger] replace_all(v, "{{Path}}"@, t) == v,
        forall|t: Seq<char>| #[trigger] replace_all(v, "{{File}}"@, t) == v,
        forall|t: Seq<char>| #[trigger] replace_all(v, "{{Hostname}}"@, t) == v,
        !crate::text::contains(v, "{{randstr"@),
{
    reveal_strlit("{{Hostname}}");
    reveal_strlit("{{Host}}");
    reveal_strlit("{{Port}}");
    reveal_strlit("{{Scheme}}");
    reveal_strlit("{{FQDN}}");
    reveal_strlit("{{Path}}");
    reveal_strlit("{{File}}");
    reveal_strlit("{{randstr");
    reveal_strlit("{{");
    assert forall|t: Seq<char>| #[trigger] replace_all(v, "{{Host}}"@, t) == v by {
        lemma_braceless_replace(v, "{{Host}}"@, t);
    }
    assert forall|t: Seq<char>| #[trigger] replace_all(v, "{{Port}}"@, t) == v by {
        lemma_braceless_replace(v, "{{Port}}"@, t);
    }
    assert forall|t: Seq<char>| #[trigger] replace_all(v, "{{Scheme}}"@, t) == v by {
        lemma_braceless_replace(v, "{{Scheme}}"@, t);
    }
    assert forall|t: Seq<char>| #[trigger] replace_all(v, "{{FQDN}}"@, t) == v by {
        lemma_braceless_replace(v, "{{FQDN}}"@, t);
    }
    assert forall|t: Seq<char>| #[trigger] replace_all(v, "{{Path}}"@, t) == v by {
        lemma_braceless_replace(v, "{{Path}}"@, t);
    }
    assert forall|t: Seq<char>| #[trigger] replace_all(v, "{{File}}"@, t) == v by {
        lemma_braceless_replace(v, "{{File}}"@, t);
    }
    assert forall|t: Seq<char>| #[trigger] replace_all(v, "{{Hostname}}"@, t) == v by {
        lemma_braceless_replace(v, "{{Hostname}}"@, t);
    }
    lemma_braceless_replace(v, "{{Hostname}}"@, Seq::empty());
    crate::text::lemma_find_from_bounds(v, "{{randstr"@, 0);
    crate::text::lemma_find_from_bounds(v, "{{"@, 0);
    if let Some(k) = find(v, "{{randstr"@) {
        assert(v.subrange(k, k + 2) =~= v.subrange(k, k + 9).subrange(0, 2));
        assert(v.subrange(k, k + 2) =~= "{{"@);
        assert(occurs_at(v, "{{"@, k));
    }
}

/// Each template variable stands for its part of the scan target: a
/// template that is just `{{BaseURL}}`, `{{Hostname}}`, `{{Host}}`,
/// `{{Scheme}}`, `{{FQDN}}`, `{{Path}}` or `{{File}}` becomes the target's
/// base URL, host name, host, scheme, host name, path or file, whatever the
/// seed, when that part holds no `{{`.
pub proof fn law_placeholders_stand_for_target(target: Seq<char>, seed: u32)
    ensures
        ({
            let v = target_view(target);
            &&& !crate::text::contains(v.base_url, "{{"@) ==> variables_replaced("{{BaseURL}}"@, target, seed)
                == v.base_url
            &&& !crate::text::contains(v.hostname, "{{"@) ==> variables_replaced("{{Hostname}}"@, target, seed)
                == v.hostname
            &&& !crate::text::contains(v.host, "{{"@) ==> variables_replaced("{{Host}}"@, target, seed)
                == v.host
            &&& !crate::text::contains(v.scheme, "{{"@) ==> variables_replaced("{{Scheme}}"@, target, seed)
                == v.scheme
            &&& !crate::text::contains(v.hostname, "{{"@) ==> variables_replaced("{{FQDN}}"@, target, seed)
                == v.hostname
            &&& !crate::text::contains(v.path, "{{"@) ==> variables_replaced("{{Path}}"@, target, seed)
                == v.path
            &&& !crate::text::contains(v.file, "{{"@) ==> variables_replaced("{{File}}"@, target, seed)
                == v.file
        }),
{
    let v = target_view(target);
    reveal_strlit("{{BaseURL}}");
    reveal_strlit("{{Hostname}}");
    reveal_strlit("{{Host}}");
    reveal_strlit("{{Port}}");
    reveal_strlit("{{Scheme}}");
    reveal_strlit("{{FQDN}}");
    reveal_strlit("{{Path}}");
    reveal_strlit("{{File}}");
    let b = "{{BaseURL}}"@;
    let hn = "{{Hostname}}"@;
    let ho = "{{Host}}"@;
    let po = "{{Port}}"@;
    let sc = "{{Scheme}}"@;
    let fq = "{{FQDN}}"@;
    let pa = "{{Path}}"@;
    let fi = "{{File}}"@;
    if !crate::text::contains(v.base_url, "{{"@) {
        lemma_whole_replaced(b, v.base_url);
        lemma_value_settles(v.base_url);
        assert(substituted(b, target) == v.base_url);
        law_no_placeholder_no_randomness(b, target, seed);
    }
    if !crate::text::contains(v.hostname, "{{"@) {
        lemma_other_placeholder_untouched(hn, b, v.base_url, 2);
        lemma_whole_replaced(hn, v.hostname);
        lemma_value_settles(v.hostname);
        assert(substituted(hn, target) == v.hostname);
        law_no_placeholder_no_randomness(hn, target, seed);
        lemma_longer_absent(fq, b, v.base_url);
        lemma_longer_absent(fq, hn, v.hostname);
        lemma_other_placeholder_untouched(fq, ho, v.host, 2);
        lemma_other_placeholder_untouched(fq, po, v.port, 2);
        lemma_longer_absent(fq, sc, v.scheme);
        lemma_whole_replaced(fq, v.hostname);
        assert(substituted(fq, target) == v.hostname);
        law_no_placeholder_no_randomness(fq, target, seed);
    }
    if !crate::text::contains(v.host, "{{"@) {
        lemma_longer_absent(ho, b, v.base_url);
        lemma_longer_absent(ho, hn, v.hostname);
        lemma_whole_replaced(ho, v.host);
        lemma_value_settles(v.host);
        assert(substituted(ho, target) == v.host);
        law_no_placeholder_no_randomness(ho, target, seed);
    }
    if !crate::text::contains(v.scheme, "{{"@) {
        lemma_other_placeholder_untouched(sc, b, v.base_url, 2);
        lemma_longer_absent(sc, hn, v.hostname);
        lemma_other_placeholder_untouched(sc, ho, v.host, 2);
        lemma_other_placeholder_untouched(sc, po, v.port, 2);
        lemma_whole_replaced(sc, v.scheme);
        lemma_value_settles(v.scheme);
        assert(substituted(sc, target) == v.scheme);
        law_no_placeholder_no_randomness(sc, target, seed);
    }
    if !crate::text::contains(v.path, "{{"@) {
        lemma_longer_absent(pa, b, v.base_url);
        lemma_longer_absent(pa, hn, v.hostname);
        lemma_other_placeholder_untouched(pa, ho, v.host, 2);
        lemma_other_placeholder_untouched(pa, po, v.port, 3);
        lemma_longer_absent(pa, sc, v.scheme);
        lemma_other_placeholder_untouched(pa, fq, v.hostname, 2);
        lemma_whole_replaced(pa, v.path);
        lemma_value_settles(v.path);
        assert(substituted(pa, target) == v.path);
        law_no_placeholder_no_randomness(pa, target, seed);
    }
    if !crate::text::contains(v.file, "{{"@) {
        lemma_longer_absent(fi, b, v.base_url);
        lemma_longer_absent(fi, hn, v.hostname);
        lemma_other_placeholder_untouched(fi, ho, v.host, 2);
        lemma_other_placeholder_untouched(fi, po, v.port, 2);
        lemma_longer_absent(fi, sc, v.scheme);
        lemma_other_placeholder_untouched(fi, fq, v.hostname, 3);
        lemma_other_placeholder_untouched(fi, pa, v.path, 2);
        lemma_whole_replaced(fi, v.file);
        lemma_value_settles(v.file);
        assert(substituted(fi, target) == v.file);
        law_no_placeholder_no_randomness(fi, target, seed);
    }
}

/// A pattern that starts with `{` does not occur in a text without `{`.
proof fn lemma_braceless_no_find(r: Seq<char>, p: Seq<char>)
    requires
        forall|k: int| 0 <= k < r.len() ==> r[k] != '{',
        p.len() > 0,
        p[0] == '{',
    ensures
        find(r, p) is None,
{
    crate::text::lemma_find_from_bounds(r, p, 0);
    if let Some(k) = find(r, p) {
        assert(r.subrange(k, k + p.len())[0] == r[k]);
    }
}

/// `{{randstr}}` stands for eight random letters and `{{randstr_hex}}` for
/// eight random lower-case hexadecimal digits: a template that is just one
/// of them becomes the random string of that length the seed yields,
/// whatever the target.
pub proof fn law_random_placeholders(target: Seq<char>, seed: u32)
    ensures
        variables_replaced("{{randstr}}"@, target, seed) == random_string(seed, 8, false),
        variables_replaced("{{randstr_hex}}"@, target, seed) == random_string(seed, 8, true),
        random_string(seed, 8, false).len() == 8,
        forall|k: int| 0 <= k < 8 ==> crate::text::is_ascii_alpha(#[trigger] random_string(seed, 8, false)[k]),
        random_string(seed, 8, true).len() == 8,
        forall|k: int|
            0 <= k < 8 ==> ('0' <= #[trigger] random_string(seed, 8, true)[k] <= '9') || ('a'
                <= random_string(seed, 8, true)[k] <= 'f'),
{
    let v = target_view(target);
    reveal_strlit("{{BaseURL}}");
    reveal_strlit("{{Hostname}}");
    reveal_strlit("{{Host}}");
    reveal_strlit("{{Port}}");
    reveal_strlit("{{Scheme}}");
    reveal_strlit("{{FQDN}}");
    reveal_strlit("{{Path}}");
    reveal_strlit("{{File}}");
    reveal_strlit("{{randstr}}");
    reveal_strlit("{{randstr_hex}}");
    reveal_strlit("{{randstr_hex_");
    reveal_strlit("{{randstr_");
    let b = "{{BaseURL}}"@;
    let hn = "{{Hostname}}"@;
    let ho = "{{Host}}"@;
    let po = "{{Port}}"@;
    let sc = "{{Scheme}}"@;
    let fq = "{{FQDN}}"@;
    let pa = "{{Path}}"@;
    let fi = "{{File}}"@;
    law_random_string_shape(seed, 8, false);
    law_random_string_shape(seed, 8, true);
    // letters
    let rp = "{{randstr}}"@;
    lemma_other_placeholder_untouched(rp, b, v.base_url, 2);
    lemma_longer_absent(rp, hn, v.hostname);
    lemma_other_placeholder_untouched(rp, ho, v.host, 2);
    lemma_other_placeholder_untouched(rp, po, v.port, 2);
    lemma_other_placeholder_untouched(rp, sc, v.scheme, 2);
    lemma_other_placeholder_untouched(rp, fq, v.hostname, 2);
    lemma_other_placeholder_untouched(rp, pa, v.path, 2);
    lemma_other_placeholder_untouched(rp, fi, v.file, 2);
    assert(substituted(rp, target) == rp);
    assert(find(rp, "{{randstr_hex}}"@) is None);
    lemma_hex_plain_stop(rp, seed);
    assert(find(rp, "{{randstr_hex_"@) is None);
    lemma_hex_sized_stop(rp, seed);
    assert(hex_replaced(rp, seed) == rp);
    let r = random_string(seed, 8, false);
    assert forall|k: int| 0 <= k < r.len() implies r[k] != '{' by {
        assert(is_plain_char(r[k], false));
    }
    assert(occurs_at(rp, rp, 0)) by {
        assert(rp.subrange(0, 11) =~= rp);
    }
    assert(find(rp, rp) == Some(0int));
    lemma_plain_unfold(rp, seed, 0);
    assert(splice(rp, 0, 11, r) =~= r);
    lemma_braceless_no_find(r, rp);
    lemma_plain_stop(r, next_seed(seed));
    lemma_braceless_no_find(r, "{{randstr_"@);
    lemma_sized_stop(r, next_seed(seed));
    // hexadecimal digits
    let hp = "{{randstr_hex}}"@;
    lemma_other_placeholder_untouched(hp, b, v.base_url, 2);
    lemma_other_placeholder_untouched(hp, hn, v.hostname, 2);
    lemma_other_placeholder_untouched(hp, ho, v.host, 2);
    lemma_other_placeholder_untouched(hp, po, v.port, 2);
    lemma_other_placeholder_untouched(hp, sc, v.scheme, 2);
    lemma_other_placeholder_untouched(hp, fq, v.hostname, 2);
    lemma_other_placeholder_untouched(hp, pa, v.path, 2);
    lemma_other_placeholder_untouched(hp, fi, v.file, 2);
    assert(substituted(hp, target) == hp);
    let x = random_string(seed, 8, true);
    assert forall|k: int| 0 <= k < x.len() implies x[k] != '{' by {
        assert(is_plain_char(x[k], true));
    }
    assert(occurs_at(hp, hp, 0)) by {
        assert(hp.subrange(0, 15) =~= hp);
    }
    assert(find(hp, hp) == Some(0int));
    lemma_hex_plain_unfold(hp, seed, 0);
    assert(splice(hp, 0, 15, x) =~= x);
    lemma_braceless_no_find(x, hp);
    lemma_hex_plain_stop(x, next_seed(seed));
    lemma_braceless_no_find(x, "{{randstr_hex_"@);
    lemma_hex_sized_stop(x, next_seed(seed));
    assert(hex_replaced(hp, seed) == x);
    lemma_braceless_no_find(x, rp);
    lemma_plain_stop(x, seed);
    lemma_braceless_no_find(x, "{{randstr_"@);
    lemma_sized_stop(x, seed);
    assert forall|k: int| 0 <= k < 8 implies crate::text::is_ascii_alpha(#[trigger] r[k]) by {
        assert(is_plain_char(r[k], false));
    }
    assert forall|k: int| 0 <= k < 8 implies ('0' <= #[trigger] x[k] <= '9') || ('a' <= x[k] <= 'f') by {
        assert(is_plain_char(x[k], true));
    }
}

} // verus!
