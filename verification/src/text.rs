//! Character-sequence primitives: the mathematical meaning of the string
//! operations the scanner relies on, and verified implementations of them.
use vstd::prelude::*;

verus! {

// ---------------------------------------------------------------------------
// Specifications
// ---------------------------------------------------------------------------

/// Unicode `White_Space`, the set used by `char::is_whitespace` and `str::trim`.
pub open spec fn is_ws(c: char) -> bool {
    ||| ('\u{9}' <= c && c <= '\u{d}')
    ||| c == ' '
    ||| c == '\u{85}'
    ||| c == '\u{a0}'
    ||| c == '\u{1680}'
    ||| ('\u{2000}' <= c && c <= '\u{200a}')
    ||| c == '\u{2028}'
    ||| c == '\u{2029}'
    ||| c == '\u{202f}'
    ||| c == '\u{205f}'
    ||| c == '\u{3000}'
}

/// `s` with its leading whitespace removed.
pub open spec fn trim_start(s: Seq<char>) -> Seq<char>
    decreases s.len(),
{
    if s.len() > 0 && is_ws(s[0]) {
        trim_start(s.drop_first())
    } else {
        s
    }
}

/// `s` with its trailing whitespace removed.
pub open spec fn trim_end(s: Seq<char>) -> Seq<char>
    decreases s.len(),
{
    if s.len() > 0 && is_ws(s.last()) {
        trim_end(s.drop_last())
    } else {
        s
    }
}

/// `s` with whitespace removed from both ends.
pub open spec fn trim(s: Seq<char>) -> Seq<char> {
    trim_end(trim_start(s))
}

pub open spec fn has_prefix(s: Seq<char>, p: Seq<char>) -> bool {
    p.len() <= s.len() && s.take(p.len() as int) == p
}

pub open spec fn has_suffix(s: Seq<char>, p: Seq<char>) -> bool {
    p.len() <= s.len() && s.skip(s.len() - p.len()) == p
}

/// `p` occurs in `s` at position `i`.
pub open spec fn occurs_at(s: Seq<char>, p: Seq<char>, i: int) -> bool {
    0 <= i && i + p.len() <= s.len() && s.subrange(i, i + p.len()) == p
}

/// First position at or after `i` where `p` occurs in `s`.
pub open spec fn find_from(s: Seq<char>, p: Seq<char>, i: int) -> Option<int>
    decreases s.len() + 1 - i,
{
    if i < 0 || i + p.len() > s.len() {
        None
    } else if occurs_at(s, p, i) {
        Some(i)
    } else {
        find_from(s, p, i + 1)
    }
}

/// First position where `p` occurs in `s` (`str::find`).
pub open spec fn find(s: Seq<char>, p: Seq<char>) -> Option<int> {
    find_from(s, p, 0)
}

/// `p` occurs somewhere in `s` (`str::contains`).
pub open spec fn contains(s: Seq<char>, p: Seq<char>) -> bool {
    find(s, p) is Some
}

/// First position of the character `c` in `s`.
pub open spec fn index_of(s: Seq<char>, c: char) -> Option<int>
    decreases s.len(),
{
    if s.len() == 0 {
        None
    } else if s[0] == c {
        Some(0)
    } else {
        match index_of(s.drop_first(), c) {
            Some(i) => Some(i + 1),
            None => None,
        }
    }
}

/// Last position of the character `c` in `s`.
pub open spec fn last_index_of(s: Seq<char>, c: char) -> Option<int>
    decreases s.len(),
{
    if s.len() == 0 {
        None
    } else if s.last() == c {
        Some(s.len() - 1)
    } else {
        last_index_of(s.drop_last(), c)
    }
}

/// The part of `s` before the first `c` (the first item of `str::split(c)`).
pub open spec fn before_char(s: Seq<char>, c: char) -> Seq<char> {
    match index_of(s, c) {
        Some(i) => s.take(i),
        None => s,
    }
}

/// `str::split_once`: the parts around the first occurrence of `p`.
pub open spec fn split_once(s: Seq<char>, p: Seq<char>) -> Option<(Seq<char>, Seq<char>)> {
    match find(s, p) {
        Some(i) => Some((s.take(i), s.skip(i + p.len()))),
        None => None,
    }
}

/// `str::split_once` with a single-character separator.
pub open spec fn split_once_char(s: Seq<char>, c: char) -> Option<(Seq<char>, Seq<char>)> {
    match index_of(s, c) {
        Some(i) => Some((s.take(i), s.skip(i + 1))),
        None => None,
    }
}

/// `str::rsplit_once` with a single-character separator.
pub open spec fn rsplit_once_char(s: Seq<char>, c: char) -> Option<(Seq<char>, Seq<char>)> {
    match last_index_of(s, c) {
        Some(i) => Some((s.take(i), s.skip(i + 1))),
        None => None,
    }
}

/// `str::replace` for a non-empty pattern: every non-overlapping occurrence of
/// `from`, scanning left to right, is replaced by `to`.
pub open spec fn replace_all(s: Seq<char>, from: Seq<char>, to: Seq<char>) -> Seq<char>
    recommends
        from.len() > 0,
    decreases s.len(),
{
    if from.len() == 0 {
        s
    } else {
        match find(s, from) {
            Some(i) => {
                proof {
                    lemma_find_from_bounds(s, from, 0);
                }
                s.take(i) + to + replace_all(s.skip(i + from.len()), from, to)
            },
            None => s,
        }
    }
}

pub open spec fn ascii_lower_char(c: char) -> char {
    if 'A' <= c && c <= 'Z' {
        ((c as u32) + 32) as char
    } else {
        c
    }
}

pub open spec fn ascii_upper_char(c: char) -> char {
    if 'a' <= c && c <= 'z' {
        ((c as u32) - 32) as char
    } else {
        c
    }
}

/// `str::to_ascii_lowercase`.
pub open spec fn ascii_lower(s: Seq<char>) -> Seq<char> {
    s.map_values(|c: char| ascii_lower_char(c))
}

/// `str::to_ascii_uppercase`.
pub open spec fn ascii_upper(s: Seq<char>) -> Seq<char> {
    s.map_values(|c: char| ascii_upper_char(c))
}

/// Every character of `s` is ASCII.
pub open spec fn all_ascii(s: Seq<char>) -> bool {
    forall|i: int| 0 <= i < s.len() ==> (s[i] as u32) < 128
}

/// `str::eq_ignore_ascii_case`.
pub open spec fn eq_ignore_ascii_case(a: Seq<char>, b: Seq<char>) -> bool {
    ascii_lower(a) == ascii_lower(b)
}

pub open spec fn is_ascii_digit(c: char) -> bool {
    '0' <= c && c <= '9'
}

pub open spec fn is_ascii_alpha(c: char) -> bool {
    ('a' <= c && c <= 'z') || ('A' <= c && c <= 'Z')
}

pub open spec fn is_ascii_alnum(c: char) -> bool {
    is_ascii_digit(c) || is_ascii_alpha(c)
}

pub open spec fn digit_value(c: char) -> int {
    (c as int) - ('0' as int)
}

/// Value of a non-empty run of ASCII digits.
pub open spec fn digits_value(s: Seq<char>) -> int
    decreases s.len(),
{
    if s.len() == 0 {
        0
    } else {
        digits_value(s.drop_last()) * 10 + digit_value(s.last())
    }
}

pub open spec fn all_digits(s: Seq<char>) -> bool {
    forall|i: int| 0 <= i < s.len() ==> is_ascii_digit(#[trigger] s[i])
}

/// The integer a decimal literal with an optional sign denotes
/// (the grammar of `str::parse` for integer types), before range checks.
pub open spec fn decimal_literal(s: Seq<char>, signed: bool) -> Option<int> {
    if s.len() > 0 && s[0] == '+' {
        if s.len() > 1 && all_digits(s.drop_first()) {
            Some(digits_value(s.drop_first()))
        } else {
            None
        }
    } else if signed && s.len() > 0 && s[0] == '-' {
        if s.len() > 1 && all_digits(s.drop_first()) {
            Some(-digits_value(s.drop_first()))
        } else {
            None
        }
    } else if s.len() > 0 && all_digits(s) {
        Some(digits_value(s))
    } else {
        None
    }
}

/// `str::parse::<T>()` for an integer type with bounds `lo..=hi`.
pub open spec fn parse_int(s: Seq<char>, lo: int, hi: int) -> Option<int> {
    match decimal_literal(s, lo < 0) {
        Some(v) => if lo <= v && v <= hi {
            Some(v)
        } else {
            None
        },
        None => None,
    }
}

pub open spec fn digit_char(d: int) -> char {
    (('0' as int) + d) as char
}

/// Decimal digits of a natural number, without leading zeros.
pub open spec fn decimal(n: nat) -> Seq<char>
    decreases n,
{
    if n < 10 {
        seq![digit_char(n as int)]
    } else {
        decimal(n / 10).push(digit_char((n % 10) as int))
    }
}

/// `to_string` of a signed integer.
pub open spec fn int_text(v: int) -> Seq<char> {
    if v < 0 {
        seq!['-'] + decimal((-v) as nat)
    } else {
        decimal(v as nat)
    }
}

// ---------------------------------------------------------------------------
// Lemmas
// ---------------------------------------------------------------------------

pub proof fn lemma_find_from_bounds(s: Seq<char>, p: Seq<char>, i: int)
    ensures
        find_from(s, p, i) matches Some(j) ==> i <= j && occurs_at(s, p, j) && (forall|k: int|
            i <= k < j ==> !occurs_at(s, p, k)),
        find_from(s, p, i) is None && i >= 0 ==> forall|k: int| i <= k ==> !occurs_at(s, p, k),
    decreases s.len() + 1 - i,
{
    if i < 0 || i + p.len() > s.len() {
    } else if occurs_at(s, p, i) {
    } else {
        lemma_find_from_bounds(s, p, i + 1);
    }
}

pub proof fn lemma_index_of(s: Seq<char>, c: char)
    ensures
        index_of(s, c) matches Some(i) ==> 0 <= i < s.len() && s[i] == c && (forall|k: int|
            0 <= k < i ==> s[k] != c),
        index_of(s, c) is None ==> forall|k: int| 0 <= k < s.len() ==> s[k] != c,
    decreases s.len(),
{
    if s.len() > 0 && s[0] != c {
        lemma_index_of(s.drop_first(), c);
        if let Some(i) = index_of(s.drop_first(), c) {
            assert forall|k: int| 0 <= k < i + 1 implies s[k] != c by {
                if k > 0 {
                    assert(s[k] == s.drop_first()[k - 1]);
                }
            }
        } else {
            assert forall|k: int| 0 <= k < s.len() implies s[k] != c by {
                if k > 0 {
                    assert(s[k] == s.drop_first()[k - 1]);
                }
            }
        }
    }
}

pub proof fn lemma_last_index_of(s: Seq<char>, c: char)
    ensures
        last_index_of(s, c) matches Some(i) ==> 0 <= i < s.len() && s[i] == c && (forall|k: int|
            i < k < s.len() ==> s[k] != c),
        last_index_of(s, c) is None ==> forall|k: int| 0 <= k < s.len() ==> s[k] != c,
    decreases s.len(),
{
    if s.len() > 0 && s.last() != c {
        let t = s.drop_last();
        lemma_last_index_of(t, c);
        assert forall|k: int| 0 <= k < t.len() implies t[k] == s[k] by {}
    }
}

/// `index_of` is determined by the positions of `c`.
proof fn lemma_index_of_char(s: Seq<char>, c: char, i: int)
    requires
        0 <= i <= s.len(),
        forall|k: int| 0 <= k < i ==> s[k] != c,
    ensures
        i < s.len() && s[i] == c ==> index_of(s, c) == Some(i),
        i == s.len() ==> index_of(s, c) is None,
{
    lemma_index_of(s, c);
}

proof fn lemma_last_index_of_char(s: Seq<char>, c: char, i: int)
    requires
        -1 <= i < s.len(),
        forall|k: int| i < k < s.len() ==> s[k] != c,
    ensures
        i >= 0 && s[i] == c ==> last_index_of(s, c) == Some(i),
        i == -1 ==> last_index_of(s, c) is None,
{
    lemma_last_index_of(s, c);
}

proof fn lemma_trim_start_skip(s: Seq<char>, i: int)
    requires
        0 <= i <= s.len(),
        forall|k: int| 0 <= k < i ==> is_ws(#[trigger] s[k]),
    ensures
        trim_start(s) == trim_start(s.skip(i)),
    decreases i,
{
    if i > 0 {
        assert(s.skip(1) =~= s.drop_first());
        lemma_trim_start_skip(s.drop_first(), i - 1);
        assert(s.drop_first().skip(i - 1) =~= s.skip(i));
    } else {
        assert(s.skip(0) =~= s);
    }
}

proof fn lemma_trim_end_take(s: Seq<char>, i: int)
    requires
        0 <= i <= s.len(),
        forall|k: int| i <= k < s.len() ==> is_ws(#[trigger] s[k]),
    ensures
        trim_end(s) == trim_end(s.take(i)),
    decreases s.len() - i,
{
    if i < s.len() {
        lemma_trim_end_take(s.drop_last(), i);
        assert(s.drop_last().take(i) =~= s.take(i));
    } else {
        assert(s.take(i) =~= s);
    }
}

pub proof fn lemma_digits_value_nonneg(s: Seq<char>)
    requires
        all_digits(s),
    ensures
        digits_value(s) >= 0,
    decreases s.len(),
{
    if s.len() > 0 {
        lemma_digits_value_nonneg(s.drop_last());
    }
}

proof fn lemma_digits_value_step(s: Seq<char>, i: int)
    requires
        0 <= i < s.len(),
    ensures
        digits_value(s.take(i + 1)) == digits_value(s.take(i)) * 10 + digit_value(s[i]),
{
    assert(s.take(i + 1).drop_last() =~= s.take(i));
}

// ---------------------------------------------------------------------------
// Conversions
// ---------------------------------------------------------------------------

/// Collects the characters of a string slice.
pub fn chars_of(s: &str) -> (res: Vec<char>)
    ensures
        res@ == s@,
{
    let mut res: Vec<char> = Vec::new();
    for c in it: s.chars()
        invariant
            res@ == it.seq().take(it.index() as int),
    {
        res.push(c);
    }
    res
}

/// Appends one character to a string (`String::push`).
#[verifier::external_body]
fn push_char(s: &mut String, c: char)
    ensures
        final(s)@ == old(s)@.push(c),
{
    s.push(c);
}

/// Builds a string from a sequence of characters.
pub fn string_of(cs: &[char]) -> (res: String)
    ensures
        res@ == cs@,
{
    let mut res = String::new();
    let mut i: usize = 0;
    while i < cs.len()
        invariant
            i <= cs@.len(),
            res@ == cs@.take(i as int),
        decreases cs@.len() - i,
    {
        push_char(&mut res, cs[i]);
        i = i + 1;
        assert(cs@.take(i as int) =~= cs@.take(i - 1).push(cs@[i - 1]));
    }
    assert(cs@.take(i as int) =~= cs@);
    res
}

/// A copy of `s[a..b]`.
pub fn slice_of(s: &[char], a: usize, b: usize) -> (res: Vec<char>)
    requires
        a <= b <= s@.len(),
    ensures
        res@ == s@.subrange(a as int, b as int),
{
    let mut res: Vec<char> = Vec::new();
    let mut i = a;
    while i < b
        invariant
            a <= i <= b <= s@.len(),
            res@ == s@.subrange(a as int, i as int),
        decreases b - i,
    {
        res.push(s[i]);
        i = i + 1;
        assert(res@ =~= s@.subrange(a as int, i as int));
    }
    res
}

/// A copy of `s`.
pub fn copy(s: &[char]) -> (res: Vec<char>)
    ensures
        res@ == s@,
{
    let r = slice_of(s, 0, s.len());
    assert(s@.subrange(0, s@.len() as int) =~= s@);
    r
}

/// `a` followed by `b`.
pub fn concat(a: &[char], b: &[char]) -> (res: Vec<char>)
    ensures
        res@ == a@ + b@,
{
    let mut res = copy(a);
    let mut i: usize = 0;
    while i < b.len()
        invariant
            i <= b@.len(),
            res@ == a@ + b@.take(i as int),
        decreases b@.len() - i,
    {
        res.push(b[i]);
        i = i + 1;
        assert(res@ =~= a@ + b@.take(i as int));
    }
    assert(b@.take(b@.len() as int) =~= b@);
    res
}

/// Character-wise equality.
pub fn chars_eq(a: &[char], b: &[char]) -> (res: bool)
    ensures
        res == (a@ == b@),
{
    if a.len() != b.len() {
        return false;
    }
    let mut i: usize = 0;
    while i < a.len()
        invariant
            i <= a@.len(),
            a@.len() == b@.len(),
            forall|k: int| 0 <= k < i ==> a@[k] == b@[k],
        decreases a@.len() - i,
    {
        if a[i] != b[i] {
            return false;
        }
        i = i + 1;
    }
    assert(a@ =~= b@);
    true
}

/// Whether `s` equals the given string slice.
pub fn eq_str(s: &[char], t: &str) -> (res: bool)
    ensures
        res == (s@ == t@),
{
    let tc = chars_of(t);
    chars_eq(s, tc.as_slice())
}

// ---------------------------------------------------------------------------
// Whitespace and trimming
// ---------------------------------------------------------------------------

/// `char::is_whitespace`.
pub fn is_whitespace(c: char) -> (res: bool)
    ensures
        res == is_ws(c),
{
    ('\u{9}' <= c && c <= '\u{d}') || c == ' ' || c == '\u{85}' || c == '\u{a0}' || c
        == '\u{1680}' || ('\u{2000}' <= c && c <= '\u{200a}') || c == '\u{2028}' || c
        == '\u{2029}' || c == '\u{202f}' || c == '\u{205f}' || c == '\u{3000}'
}

/// `str::trim_start`.
pub fn trim_start_chars(s: &[char]) -> (res: Vec<char>)
    ensures
        res@ == trim_start(s@),
{
    let mut i: usize = 0;
    while i < s.len() && is_whitespace(s[i])
        invariant
            i <= s@.len(),
            forall|k: int| 0 <= k < i ==> is_ws(#[trigger] s@[k]),
        decreases s@.len() - i,
    {
        i = i + 1;
    }
    proof {
        lemma_trim_start_skip(s@, i as int);
        let r = s@.skip(i as int);
        assert(r.len() > 0 ==> r[0] == s@[i as int]);
    }
    let r = slice_of(s, i, s.len());
    assert(r@ =~= s@.skip(i as int));
    r
}

/// `str::trim_end`.
pub fn trim_end_chars(s: &[char]) -> (res: Vec<char>)
    ensures
        res@ == trim_end(s@),
{
    let mut i: usize = s.len();
    while i > 0 && is_whitespace(s[i - 1])
        invariant
            i <= s@.len(),
            forall|k: int| i <= k < s@.len() ==> is_ws(#[trigger] s@[k]),
        decreases i,
    {
        i = i - 1;
    }
    proof {
        lemma_trim_end_take(s@, i as int);
    }
    let r = slice_of(s, 0, i);
    assert(r@ =~= s@.take(i as int));
    r
}

/// `str::trim`.
pub fn trim_chars(s: &[char]) -> (res: Vec<char>)
    ensures
        res@ == trim(s@),
{
    let a = trim_start_chars(s);
    trim_end_chars(a.as_slice())
}

/// `str::trim` on a string slice.
pub fn trim_str(s: &str) -> (res: Vec<char>)
    ensures
        res@ == trim(s@),
{
    let c = chars_of(s);
    trim_chars(c.as_slice())
}

// ---------------------------------------------------------------------------
// Searching
// ---------------------------------------------------------------------------

/// Whether `p` occurs in `s` at position `i`.
pub fn occurs_at_exec(s: &[char], p: &[char], i: usize) -> (res: bool)
    ensures
        res == occurs_at(s@, p@, i as int),
{
    if i > s.len() || p.len() > s.len() - i {
        return false;
    }
    let n = s.len();
    let mut k: usize = 0;
    while k < p.len()
        invariant
            n == s@.len(),
            i <= s@.len(),
            p@.len() <= s@.len() - i,
            k <= p@.len(),
            forall|j: int| 0 <= j < k ==> s@[i + j] == p@[j],
        decreases p@.len() - k,
    {
        if s[i + k] != p[k] {
            assert(s@.subrange(i as int, i + p@.len())[k as int] != p@[k as int]);
            return false;
        }
        k = k + 1;
    }
    assert(s@.subrange(i as int, i + p@.len()) =~= p@);
    true
}

/// `str::starts_with`.
pub fn starts_with(s: &[char], p: &[char]) -> (res: bool)
    ensures
        res == has_prefix(s@, p@),
{
    let r = occurs_at_exec(s, p, 0);
    assert(p@.len() <= s@.len() ==> s@.subrange(0, p@.len() as int) =~= s@.take(
        p@.len() as int,
    ));
    r
}

/// `str::starts_with` with a string-slice pattern.
pub fn starts_with_str(s: &[char], p: &str) -> (res: bool)
    ensures
        res == has_prefix(s@, p@),
{
    let pc = chars_of(p);
    starts_with(s, pc.as_slice())
}

/// `str::ends_with`.
pub fn ends_with(s: &[char], p: &[char]) -> (res: bool)
    ensures
        res == has_suffix(s@, p@),
{
    if p.len() > s.len() {
        return false;
    }
    let r = occurs_at_exec(s, p, s.len() - p.len());
    assert(s@.subrange(s@.len() - p@.len(), s@.len() as int) =~= s@.skip(
        s@.len() - p@.len(),
    ));
    r
}

/// First position at or after `from` where `p` occurs in `s`.
pub fn find_from_exec(s: &[char], p: &[char], from: usize) -> (res: Option<usize>)
    ensures
        res matches Some(i) ==> find_from(s@, p@, from as int) == Some(i as int),
        res is None ==> find_from(s@, p@, from as int) is None,
{
    proof {
        lemma_find_from_bounds(s@, p@, from as int);
    }
    if from > s.len() || p.len() > s.len() - from {
        return None;
    }
    let last = s.len() - p.len();
    let mut i = from;
    loop
        invariant
            from <= i <= last,
            last == s@.len() - p@.len(),
            find_from(s@, p@, from as int) == find_from(s@, p@, i as int),
        decreases last - i,
    {
        if occurs_at_exec(s, p, i) {
            return Some(i);
        }
        if i == last {
            assert(find_from(s@, p@, i + 1) is None);
            return None;
        }
        i = i + 1;
    }
}

/// `str::find`.
pub fn find_exec(s: &[char], p: &[char]) -> (res: Option<usize>)
    ensures
        res matches Some(i) ==> find(s@, p@) == Some(i as int),
        res is None ==> find(s@, p@) is None,
{
    find_from_exec(s, p, 0)
}

/// `str::contains`.
pub fn contains_exec(s: &[char], p: &[char]) -> (res: bool)
    ensures
        res == contains(s@, p@),
{
    find_exec(s, p).is_some()
}

/// `str::contains` with a string-slice pattern.
pub fn contains_str(s: &[char], p: &str) -> (res: bool)
    ensures
        res == contains(s@, p@),
{
    let pc = chars_of(p);
    contains_exec(s, pc.as_slice())
}

/// First position of `c` in `s`.
pub fn index_of_exec(s: &[char], c: char) -> (res: Option<usize>)
    ensures
        res matches Some(i) ==> i < s@.len() && index_of(s@, c) == Some(i as int),
        res is None ==> index_of(s@, c) is None,
{
    let mut i: usize = 0;
    while i < s.len()
        invariant
            i <= s@.len(),
            forall|k: int| 0 <= k < i ==> s@[k] != c,
        decreases s@.len() - i,
    {
        if s[i] == c {
            proof {
                lemma_index_of_char(s@, c, i as int);
            }
            return Some(i);
        }
        i = i + 1;
    }
    proof {
        lemma_index_of_char(s@, c, i as int);
    }
    None
}

/// Last position of `c` in `s`.
pub fn last_index_of_exec(s: &[char], c: char) -> (res: Option<usize>)
    ensures
        res matches Some(i) ==> last_index_of(s@, c) == Some(i as int),
        res is None ==> last_index_of(s@, c) is None,
{
    let mut i: usize = s.len();
    while i > 0
        invariant
            i <= s@.len(),
            forall|k: int| i <= k < s@.len() ==> s@[k] != c,
        decreases i,
    {
        if s[i - 1] == c {
            proof {
                lemma_last_index_of_char(s@, c, i - 1);
            }
            return Some(i - 1);
        }
        i = i - 1;
    }
    proof {
        lemma_last_index_of_char(s@, c, -1);
    }
    None
}

/// Whether `c` occurs in `s`.
pub fn has_char(s: &[char], c: char) -> (res: bool)
    ensures
        res == (index_of(s@, c) is Some),
{
    index_of_exec(s, c).is_some()
}

/// The part of `s` before the first `c`.
pub fn before_char_exec(s: &[char], c: char) -> (res: Vec<char>)
    ensures
        res@ == before_char(s@, c),
{
    proof {
        lemma_index_of(s@, c);
    }
    match index_of_exec(s, c) {
        Some(i) => slice_of(s, 0, i),
        None => copy(s),
    }
}

/// `str::split_once`.
pub fn split_once_exec(s: &[char], p: &[char]) -> (res: Option<(Vec<char>, Vec<char>)>)
    ensures
        res matches Some(r) ==> split_once(s@, p@) == Some((r.0@, r.1@)),
        res is None ==> split_once(s@, p@) is None,
{
    proof {
        lemma_find_from_bounds(s@, p@, 0);
    }
    match find_exec(s, p) {
        Some(i) => {
            let n = s.len();
            assert(occurs_at(s@, p@, i as int));
            let a = slice_of(s, 0, i);
            let b = slice_of(s, i + p.len(), s.len());
            assert(a@ =~= s@.take(i as int));
            assert(b@ =~= s@.skip(i + p@.len()));
            Some((a, b))
        },
        None => None,
    }
}

/// `str::split_once` with a character separator.
pub fn split_once_char_exec(s: &[char], c: char) -> (res: Option<(Vec<char>, Vec<char>)>)
    ensures
        res matches Some(r) ==> split_once_char(s@, c) == Some((r.0@, r.1@)),
        res is None ==> split_once_char(s@, c) is None,
{
    proof {
        lemma_index_of(s@, c);
    }
    match index_of_exec(s, c) {
        Some(i) => {
            let n = s.len();
            assert(i < s@.len());
            let a = slice_of(s, 0, i);
            let b = slice_of(s, i + 1, s.len());
            assert(b@ =~= s@.skip(i + 1));
            Some((a, b))
        },
        None => None,
    }
}

/// `str::rsplit_once` with a character separator.
pub fn rsplit_once_char_exec(s: &[char], c: char) -> (res: Option<(Vec<char>, Vec<char>)>)
    ensures
        res matches Some(r) ==> rsplit_once_char(s@, c) == Some((r.0@, r.1@)),
        res is None ==> rsplit_once_char(s@, c) is None,
{
    proof {
        lemma_last_index_of(s@, c);
    }
    match last_index_of_exec(s, c) {
        Some(i) => {
            let n = s.len();
            assert(i < s@.len());
            let a = slice_of(s, 0, i);
            let b = slice_of(s, i + 1, s.len());
            assert(b@ =~= s@.skip(i + 1));
            Some((a, b))
        },
        None => None,
    }
}

// ---------------------------------------------------------------------------
// Rewriting
// ---------------------------------------------------------------------------

/// `str::replace` for a non-empty pattern.
pub fn replace_exec(s: &[char], from: &[char], to: &[char]) -> (res: Vec<char>)
    requires
        from@.len() > 0,
    ensures
        res@ == replace_all(s@, from@, to@),
{
    let n = s.len();
    let mut out: Vec<char> = Vec::new();
    let mut pos: usize = 0;
    assert(s@.skip(0) =~= s@);
    assert(out@ + replace_all(s@, from@, to@) =~= replace_all(s@, from@, to@));
    loop
        invariant
            from@.len() > 0,
            n == s@.len(),
            pos <= s@.len(),
            out@ + replace_all(s@.skip(pos as int), from@, to@) == replace_all(s@, from@, to@),
        decreases s@.len() - pos,
    {
        let ghost rest = s@.skip(pos as int);
        match find_from_exec(s, from, pos) {
            Some(i) => {
                proof {
                    lemma_find_from_bounds(s@, from@, pos as int);
                    lemma_find_shift(s@, from@, pos as int);
                    assert(find(rest, from@) == Some(i - pos));
                    assert(occurs_at(s@, from@, i as int));
                    assert(rest.take(i - pos) =~= s@.subrange(pos as int, i as int));
                    assert(rest.skip(i - pos + from@.len()) =~= s@.skip(i + from@.len()));
                }
                let mid = slice_of(s, pos, i);
                out = concat(out.as_slice(), mid.as_slice());
                out = concat(out.as_slice(), to);
                proof {
                    assert(out@ + replace_all(s@.skip(i + from@.len()), from@, to@) =~= (out@
                        .subrange(0, out@.len() - to@.len() - mid@.len()) + (rest.take(i - pos)
                        + to@ + replace_all(rest.skip(i - pos + from@.len()), from@, to@))));
                }
                pos = i + from.len();
            },
            None => {
                proof {
                    lemma_find_shift(s@, from@, pos as int);
                }
                let tail = slice_of(s, pos, s.len());
                assert(tail@ =~= rest);
                out = concat(out.as_slice(), tail.as_slice());
                return out;
            },
        }
    }
}

/// Searching from `i` in `s` is searching from `0` in `s.skip(i)`, shifted.
proof fn lemma_find_shift(s: Seq<char>, p: Seq<char>, i: int)
    requires
        0 <= i <= s.len(),
    ensures
        find_from(s, p, i) matches Some(j) ==> find(s.skip(i), p) == Some(j - i),
        find_from(s, p, i) is None ==> find(s.skip(i), p) is None,
{
    lemma_find_shift_gen(s, p, i, i);
}

proof fn lemma_find_shift_gen(s: Seq<char>, p: Seq<char>, i: int, j: int)
    requires
        0 <= i <= j,
        i <= s.len(),
    ensures
        find_from(s, p, j) == (match find_from(s.skip(i), p, j - i) {
            Some(k) => Some(k + i),
            None => None,
        }),
    decreases s.len() + 1 - j,
{
    let t = s.skip(i);
    if j + p.len() > s.len() {
    } else {
        assert(occurs_at(s, p, j) == occurs_at(t, p, j - i)) by {
            assert(s.subrange(j, j + p.len()) =~= t.subrange(j - i, j - i + p.len()));
        }
        if !occurs_at(s, p, j) {
            lemma_find_shift_gen(s, p, i, j + 1);
        }
    }
}

/// `str::to_ascii_lowercase`.
pub fn ascii_lower_exec(s: &[char]) -> (res: Vec<char>)
    ensures
        res@ == ascii_lower(s@),
{
    let mut out: Vec<char> = Vec::new();
    let mut i: usize = 0;
    while i < s.len()
        invariant
            i <= s@.len(),
            out@ == ascii_lower(s@.take(i as int)),
        decreases s@.len() - i,
    {
        let c = s[i];
        let l = if 'A' <= c && c <= 'Z' {
            char_from_u32((c as u32) + 32)
        } else {
            c
        };
        out.push(l);
        i = i + 1;
        assert(out@ =~= ascii_lower(s@.take(i as int)));
    }
    assert(s@.take(i as int) =~= s@);
    out
}

/// `str::to_ascii_uppercase`.
pub fn ascii_upper_exec(s: &[char]) -> (res: Vec<char>)
    ensures
        res@ == ascii_upper(s@),
{
    let mut out: Vec<char> = Vec::new();
    let mut i: usize = 0;
    while i < s.len()
        invariant
            i <= s@.len(),
            out@ == ascii_upper(s@.take(i as int)),
        decreases s@.len() - i,
    {
        let c = s[i];
        let l = if 'a' <= c && c <= 'z' {
            char_from_u32((c as u32) - 32)
        } else {
            c
        };
        out.push(l);
        i = i + 1;
        assert(out@ =~= ascii_upper(s@.take(i as int)));
    }
    assert(s@.take(i as int) =~= s@);
    out
}

/// The ASCII character with the given code point.
pub fn char_from_u32(v: u32) -> (res: char)
    requires
        v < 128,
    ensures
        res == v as char,
{
    let b: u8 = v as u8;
    let c = b as char;
    c
}

/// `str::eq_ignore_ascii_case`.
pub fn eq_ignore_ascii_case_exec(a: &[char], b: &[char]) -> (res: bool)
    ensures
        res == eq_ignore_ascii_case(a@, b@),
{
    let la = ascii_lower_exec(a);
    let lb = ascii_lower_exec(b);
    chars_eq(la.as_slice(), lb.as_slice())
}

// ---------------------------------------------------------------------------
// Numbers
// ---------------------------------------------------------------------------

proof fn lemma_digits_prefix_le(s: Seq<char>, i: int)
    requires
        all_digits(s),
        0 <= i <= s.len(),
    ensures
        digits_value(s.take(i)) <= digits_value(s),
    decreases s.len() - i,
{
    if i < s.len() {
        lemma_digits_prefix_le(s, i + 1);
        lemma_digits_value_step(s, i);
        lemma_digits_value_nonneg(s.take(i));
        assert forall|k: int| 0 <= k < s.take(i).len() implies is_ascii_digit(
            #[trigger] s.take(i)[k],
        ) by {
            assert(s.take(i)[k] == s[k]);
        }
    } else {
        assert(s.take(i) =~= s);
    }
}

/// Value of the digit run `s[start..]`, or `None` when a non-digit occurs, the
/// run is empty, or its value exceeds `limit`.
fn digits_exec(s: &[char], start: usize, limit: u64) -> (res: Option<u64>)
    requires
        start <= s@.len(),
    ensures
        ({
            let t = s@.skip(start as int);
            match res {
                Some(v) => t.len() > 0 && all_digits(t) && digits_value(t) == v && v <= limit,
                None => !(t.len() > 0 && all_digits(t) && digits_value(t) <= limit),
            }
        }),
{
    let ghost t = s@.skip(start as int);
    let n = s.len();
    if start == n {
        return None;
    }
    let mut v: u64 = 0;
    let mut i = start;
    while i < n
        invariant
            n == s@.len(),
            start <= i <= n,
            t == s@.skip(start as int),
            forall|k: int| 0 <= k < i - start ==> is_ascii_digit(#[trigger] t[k]),
            v as int == digits_value(t.take(i - start)),
            v <= limit,
        decreases n - i,
    {
        let c = s[i];
        if !('0' <= c && c <= '9') {
            assert(!is_ascii_digit(t[i - start]));
            return None;
        }
        let d = (c as u32 - '0' as u32) as u64;
        proof {
            lemma_digits_value_step(t, i - start);
        }
        if d > limit || v > (limit - d) / 10 {
            proof {
                assert(v * 10 + d > limit) by (nonlinear_arith)
                    requires
                        d > limit || v > (limit - d) / 10,
                        d <= 9,
                        v >= 0,
                ;
                if all_digits(t) {
                    lemma_digits_prefix_le(t, i - start + 1);
                }
            }
            return None;
        }
        assert(v * 10 + d <= limit) by (nonlinear_arith)
            requires
                v <= (limit - d) / 10,
                d <= limit,
        ;
        v = v * 10 + d;
        i = i + 1;
    }
    assert(t.take(i - start) =~= t);
    Some(v)
}

/// `str::parse` for an integer type whose range is `lo..=hi`.
pub fn parse_int_exec(s: &[char], lo: i64, hi: i64) -> (res: Option<i64>)
    requires
        lo <= 0 <= hi,
    ensures
        match res {
            Some(v) => parse_int(s@, lo as int, hi as int) == Some(v as int),
            None => parse_int(s@, lo as int, hi as int) is None,
        },
{
    let n = s.len();
    if n == 0 {
        return None;
    }
    let signed = lo < 0;
    if s[0] == '+' || (signed && s[0] == '-') {
        if n == 1 {
            return None;
        }
        let neg = s[0] == '-';
        let limit: u64 = if neg { ((-(lo + 1)) as u64) + 1 } else { hi as u64 };
        proof {
            assert(s@.skip(1) =~= s@.drop_first());
        }
        match digits_exec(s, 1, limit) {
            Some(v) => {
                if neg {
                    if v == 9223372036854775808u64 {
                        Some(i64::MIN)
                    } else {
                        Some(-(v as i64))
                    }
                } else {
                    Some(v as i64)
                }
            },
            None => None,
        }
    } else {
        proof {
            assert(s@.skip(0) =~= s@);
        }
        match digits_exec(s, 0, hi as u64) {
            Some(v) => Some(v as i64),
            None => {
                proof {
                    if all_digits(s@) {
                        assert(!('-' <= s@[0] && s@[0] <= '9' && s@[0] == '-'));
                    }
                }
                None
            },
        }
    }
}

/// The decimal digit character for `d`.
fn digit_char_exec(d: u64) -> (res: char)
    requires
        d < 10,
    ensures
        res == digit_char(d as int),
{
    let b: u8 = 48u8 + d as u8;
    b as char
}

/// Decimal text of a natural number (`u64::to_string`).
pub fn decimal_exec(n: u64) -> (res: Vec<char>)
    ensures
        res@ == decimal(n as nat),
    decreases n,
{
    if n < 10 {
        let mut v = Vec::new();
        v.push(digit_char_exec(n));
        v
    } else {
        let mut v = decimal_exec(n / 10);
        v.push(digit_char_exec(n % 10));
        v
    }
}

/// Decimal text of a signed integer (`i64::to_string`).
pub fn int_text_exec(v: i64) -> (res: Vec<char>)
    ensures
        res@ == int_text(v as int),
{
    if v < 0 {
        let mag: u64 = if v == i64::MIN {
            9223372036854775808u64
        } else {
            (-v) as u64
        };
        let d = decimal_exec(mag);
        let mut out = Vec::new();
        out.push('-');
        let r = concat(out.as_slice(), d.as_slice());
        assert(out@ =~= seq!['-']);
        r
    } else {
        decimal_exec(v as u64)
    }
}

// ---------------------------------------------------------------------------
// Owned strings
// ---------------------------------------------------------------------------

/// The character views of a sequence of strings.
pub open spec fn views(v: Seq<String>) -> Seq<Seq<char>> {
    v.map_values(|s: String| s@)
}

/// An owned copy of a string slice.
pub fn owned(s: &str) -> (res: String)
    ensures
        res@ == s@,
{
    s.to_owned()
}

/// Copies of a sequence of strings.
pub fn clone_strings(v: &[String]) -> (res: Vec<String>)
    ensures
        res@ == v@,
{
    let mut out: Vec<String> = Vec::new();
    let mut i: usize = 0;
    while i < v.len()
        invariant
            i <= v@.len(),
            out@ == v@.take(i as int),
        decreases v@.len() - i,
    {
        out.push(v[i].clone());
        i = i + 1;
        assert(out@ =~= v@.take(i as int));
    }
    assert(v@.take(i as int) =~= v@);
    out
}

/// `a` followed by copies of `b`.
pub fn append_strings(a: Vec<String>, b: &[String]) -> (res: Vec<String>)
    ensures
        res@ == a@ + b@,
{
    let mut out = a;
    let ghost a0 = out@;
    let mut i: usize = 0;
    while i < b.len()
        invariant
            i <= b@.len(),
            out@ == a0 + b@.take(i as int),
        decreases b@.len() - i,
    {
        out.push(b[i].clone());
        i = i + 1;
        assert(out@ =~= a0 + b@.take(i as int));
    }
    assert(b@.take(i as int) =~= b@);
    out
}

/// Whether some string of `v` equals `t`.
pub fn strings_contain(v: &[String], t: &str) -> (res: bool)
    ensures
        res == (exists|i: int| 0 <= i < v@.len() && (#[trigger] v@[i])@ == t@),
{
    let tc = chars_of(t);
    let mut i: usize = 0;
    while i < v.len()
        invariant
            i <= v@.len(),
            tc@ == t@,
            forall|k: int| 0 <= k < i ==> (#[trigger] v@[k])@ != t@,
        decreases v@.len() - i,
    {
        let c = chars_of(v[i].as_str());
        if chars_eq(c.as_slice(), tc.as_slice()) {
            return true;
        }
        i = i + 1;
    }
    false
}

// ---------------------------------------------------------------------------
// Splitting
// ---------------------------------------------------------------------------

/// `str::split` by a non-empty pattern: the pieces between occurrences.
pub open spec fn split_all(s: Seq<char>, p: Seq<char>) -> Seq<Seq<char>>
    recommends
        p.len() > 0,
    decreases s.len(),
{
    if p.len() == 0 {
        seq![s]
    } else {
        match find(s, p) {
            Some(i) => {
                proof {
                    lemma_find_from_bounds(s, p, 0);
                }
                seq![s.take(i)] + split_all(s.skip(i + p.len()), p)
            },
            None => seq![s],
        }
    }
}

/// `s` without one trailing carriage return.
pub open spec fn strip_cr(s: Seq<char>) -> Seq<char> {
    if s.len() > 0 && s.last() == '\r' {
        s.drop_last()
    } else {
        s
    }
}

/// `str::lines`: pieces split at `\n`, each without a `\r` that ended it; a
/// final empty piece is no line.
pub open spec fn lines(s: Seq<char>) -> Seq<Seq<char>> {
    let parts = split_all(s, seq!['\n']);
    let body = parts.drop_last().map_values(|l: Seq<char>| strip_cr(l));
    if parts.last().len() == 0 {
        body
    } else {
        body.push(parts.last())
    }
}

/// `str::trim_matches` with one character: `s` without leading and trailing `c`.
pub open spec fn trim_char_start(s: Seq<char>, c: char) -> Seq<char>
    decreases s.len(),
{
    if s.len() > 0 && s[0] == c {
        trim_char_start(s.drop_first(), c)
    } else {
        s
    }
}

pub open spec fn trim_char_end(s: Seq<char>, c: char) -> Seq<char>
    decreases s.len(),
{
    if s.len() > 0 && s.last() == c {
        trim_char_end(s.drop_last(), c)
    } else {
        s
    }
}

pub open spec fn trim_char(s: Seq<char>, c: char) -> Seq<char> {
    trim_char_end(trim_char_start(s, c), c)
}

proof fn lemma_split_all_nonempty(s: Seq<char>, p: Seq<char>)
    ensures
        split_all(s, p).len() >= 1,
    decreases s.len(),
{
    if p.len() > 0 {
        if let Some(i) = find(s, p) {
            lemma_find_from_bounds(s, p, 0);
            lemma_split_all_nonempty(s.skip(i + p.len()), p);
        }
    }
}

/// `str::split` by a non-empty pattern.
pub fn split_exec(s: &[char], p: &[char]) -> (res: Vec<Vec<char>>)
    requires
        p@.len() > 0,
    ensures
        res@.map_values(|v: Vec<char>| v@) == split_all(s@, p@),
{
    let n = s.len();
    let mut out: Vec<Vec<char>> = Vec::new();
    let mut pos: usize = 0;
    assert(s@.skip(0) =~= s@);
    loop
        invariant
            p@.len() > 0,
            n == s@.len(),
            pos <= n,
            out@.map_values(|v: Vec<char>| v@) + split_all(s@.skip(pos as int), p@) == split_all(
                s@,
                p@,
            ),
        decreases n - pos,
    {
        let ghost rest = s@.skip(pos as int);
        let ghost before = out@.map_values(|v: Vec<char>| v@);
        match find_from_exec(s, p, pos) {
            Some(i) => {
                proof {
                    lemma_find_from_bounds(s@, p@, pos as int);
                    lemma_find_shift(s@, p@, pos as int);
                    assert(rest.take(i - pos) =~= s@.subrange(pos as int, i as int));
                    assert(rest.skip(i - pos + p@.len()) =~= s@.skip(i + p@.len()));
                    assert(occurs_at(s@, p@, i as int));
                }
                let piece = slice_of(s, pos, i);
                out.push(piece);
                proof {
                    assert(out@.map_values(|v: Vec<char>| v@) =~= before.push(piece@));
                    assert(split_all(rest, p@) == seq![rest.take(i - pos)] + split_all(
                        rest.skip(i - pos + p@.len()),
                        p@,
                    ));
                    assert(before.push(piece@) + split_all(s@.skip(i + p@.len()), p@) =~= before
                        + split_all(rest, p@));
                }
                pos = i + p.len();
            },
            None => {
                proof {
                    lemma_find_shift(s@, p@, pos as int);
                }
                let piece = slice_of(s, pos, n);
                assert(piece@ =~= rest);
                out.push(piece);
                proof {
                    assert(out@.map_values(|v: Vec<char>| v@) =~= before.push(piece@));
                    assert(before.push(piece@) =~= before + split_all(rest, p@));
                }
                return out;
            },
        }
    }
}

/// `str::lines`.
pub fn lines_exec(s: &[char]) -> (res: Vec<Vec<char>>)
    ensures
        res@.map_values(|v: Vec<char>| v@) == lines(s@),
{
    let mut nl: Vec<char> = Vec::new();
    nl.push('\n');
    assert(nl@ =~= seq!['\n']);
    let parts = split_exec(s, nl.as_slice());
    let ghost pv = parts@.map_values(|v: Vec<char>| v@);
    proof {
        lemma_split_all_nonempty(s@, seq!['\n']);
    }
    let np = parts.len();
    let mut out: Vec<Vec<char>> = Vec::new();
    let mut i: usize = 0;
    while i + 1 < np
        invariant
            np == parts@.len(),
            np >= 1,
            pv == parts@.map_values(|v: Vec<char>| v@),
            i + 1 <= np,
            out@.map_values(|v: Vec<char>| v@) == pv.drop_last().take(i as int).map_values(
                |l: Seq<char>| strip_cr(l),
            ),
        decreases np - i,
    {
        let line = &parts[i];
        let stripped = if line.len() > 0 && line[line.len() - 1] == '\r' {
            slice_of(line.as_slice(), 0, line.len() - 1)
        } else {
            copy(line.as_slice())
        };
        let ghost prev = out@.map_values(|v: Vec<char>| v@);
        proof {
            assert(pv[i as int] == parts@[i as int]@);
            assert(stripped@ == strip_cr(pv[i as int]));
        }
        out.push(stripped);
        proof {
            assert(out@.map_values(|v: Vec<char>| v@) =~= prev.push(stripped@));
            assert(pv.drop_last().take(i + 1).map_values(|l: Seq<char>| strip_cr(l)) =~= pv.drop_last().take(
                i as int,
            ).map_values(|l: Seq<char>| strip_cr(l)).push(strip_cr(pv[i as int])));
        }
        i = i + 1;
    }
    proof {
        assert(pv.drop_last().take(i as int) =~= pv.drop_last());
        assert(pv.last() == parts@[np - 1]@);
    }
    if parts[np - 1].len() > 0 {
        out.push(copy(parts[np - 1].as_slice()));
        proof {
            let body = pv.drop_last().map_values(|l: Seq<char>| strip_cr(l));
            assert(out@.map_values(|v: Vec<char>| v@) =~= body.push(pv.last()));
        }
    }
    out
}

/// `str::trim_matches` with one character.
pub fn trim_char_exec(s: &[char], c: char) -> (res: Vec<char>)
    ensures
        res@ == trim_char(s@, c),
{
    let n = s.len();
    let mut a: usize = 0;
    assert(s@.skip(0) =~= s@);
    while a < n && s[a] == c
        invariant
            n == s@.len(),
            a <= n,
            trim_char_start(s@, c) == trim_char_start(s@.skip(a as int), c),
        decreases n - a,
    {
        proof {
            assert(s@.skip(a as int).drop_first() =~= s@.skip(a + 1));
        }
        a = a + 1;
    }
    let mid = slice_of(s, a, n);
    proof {
        assert(mid@ =~= s@.skip(a as int));
        assert(trim_char_start(s@.skip(0), c) == trim_char_start(s@, c)) by {
            assert(s@.skip(0) =~= s@);
        }
    }
    let m = mid.len();
    let mut b: usize = m;
    assert(mid@.take(m as int) =~= mid@);
    while b > 0 && mid[b - 1] == c
        invariant
            m == mid@.len(),
            b <= m,
            trim_char_end(mid@, c) == trim_char_end(mid@.take(b as int), c),
        decreases b,
    {
        proof {
            assert(mid@.take(b as int).drop_last() =~= mid@.take(b - 1));
        }
        b = b - 1;
    }
    proof {
        assert(mid@.take(m as int) =~= mid@);
    }
    let r = slice_of(mid.as_slice(), 0, b);
    assert(r@ =~= mid@.take(b as int));
    r
}

// ---------------------------------------------------------------------------
// Unicode case mapping
// ---------------------------------------------------------------------------

/// The full Unicode lower-case mapping of a string, as `str::to_lowercase`
/// computes it.
pub uninterp spec fn unicode_lower(s: Seq<char>) -> Seq<char>;

/// `str::to_lowercase`: the result is the Unicode lower-case mapping of `s`,
/// which depends on `s` alone; on ASCII text it is the ASCII lower case (the
/// Unicode mapping of an ASCII character is its ASCII mapping).
#[verifier::external_body]
pub(crate) fn to_lowercase(s: &str) -> (res: String)
    ensures
        res@ == unicode_lower(s@),
        all_ascii(s@) ==> res@ == ascii_lower(s@),
{
    s.to_lowercase()
}

/// Parses an unsigned decimal (`str::parse::<usize>`).
pub fn parse_usize_exec(s: &[char]) -> (res: Option<usize>)
    ensures
        match res {
            Some(v) => parse_int(s@, 0, usize::MAX as int) == Some(v as int),
            None => parse_int(s@, 0, usize::MAX as int) is None,
        },
{
    let n = s.len();
    if n == 0 {
        return None;
    }
    let limit: u64 = usize::MAX as u64;
    if s[0] == '+' {
        if n == 1 {
            return None;
        }
        proof {
            assert(s@.skip(1) =~= s@.drop_first());
        }
        match digits_exec(s, 1, limit) {
            Some(v) => Some(v as usize),
            None => None,
        }
    } else {
        proof {
            assert(s@.skip(0) =~= s@);
        }
        match digits_exec(s, 0, limit) {
            Some(v) => Some(v as usize),
            None => None,
        }
    }
}

/// Parses an unsigned decimal (`str::parse::<u64>`).
pub fn parse_u64_exec(s: &[char]) -> (res: Option<u64>)
    ensures
        match res {
            Some(v) => parse_int(s@, 0, u64::MAX as int) == Some(v as int),
            None => parse_int(s@, 0, u64::MAX as int) is None,
        },
{
    let n = s.len();
    if n == 0 {
        return None;
    }
    let limit: u64 = u64::MAX;
    if s[0] == '+' {
        if n == 1 {
            return None;
        }
        proof {
            assert(s@.skip(1) =~= s@.drop_first());
        }
        match digits_exec(s, 1, limit) {
            Some(v) => Some(v),
            None => None,
        }
    } else {
        proof {
            assert(s@.skip(0) =~= s@);
        }
        match digits_exec(s, 0, limit) {
            Some(v) => Some(v),
            None => None,
        }
    }
}

/// `a` followed by `b`.
pub fn join_str(a: &str, b: &str) -> (res: String)
    ensures
        res@ == a@ + b@,
{
    let x = chars_of(a);
    let y = chars_of(b);
    let z = concat(x.as_slice(), y.as_slice());
    string_of(z.as_slice())
}

/// Words seen so far and the word being read, scanning `s` left to right
/// with whitespace as separator.
pub open spec fn ws_scan(s: Seq<char>) -> (Seq<Seq<char>>, Seq<char>)
    decreases s.len(),
{
    if s.len() == 0 {
        (Seq::empty(), Seq::empty())
    } else {
        let (w, cur) = ws_scan(s.drop_last());
        let c = s.last();
        if is_ws(c) {
            if cur.len() > 0 {
                (w.push(cur), Seq::empty())
            } else {
                (w, Seq::empty())
            }
        } else {
            (w, cur.push(c))
        }
    }
}

/// `str::split_whitespace`: the maximal runs of non-whitespace characters.
pub open spec fn split_ws(s: Seq<char>) -> Seq<Seq<char>> {
    let (w, cur) = ws_scan(s);
    if cur.len() > 0 {
        w.push(cur)
    } else {
        w
    }
}

/// `str::split_whitespace`, collected.
pub fn split_whitespace_exec(s: &str) -> (res: Vec<String>)
    ensures
        views(res@) == split_ws(s@),
{
    let cs = chars_of(s);
    let mut words: Vec<String> = Vec::new();
    let mut cur: Vec<char> = Vec::new();
    let mut i: usize = 0;
    while i < cs.len()
        invariant
            i <= cs@.len(),
            cs@ == s@,
            (views(words@), cur@) == ws_scan(cs@.take(i as int)),
        decreases cs@.len() - i,
    {
        let c = cs[i];
        proof {
            assert(cs@.take(i + 1).drop_last() =~= cs@.take(i as int));
            assert(cs@.take(i + 1).last() == c);
        }
        if is_whitespace(c) {
            if cur.len() > 0 {
                let w = string_of(cur.as_slice());
                let ghost before = views(words@);
                words.push(w);
                assert(views(words@) =~= before.push(cur@));
                cur = Vec::new();
            }
        } else {
            cur.push(c);
        }
        i = i + 1;
    }
    assert(cs@.take(i as int) =~= cs@);
    if cur.len() > 0 {
        let w = string_of(cur.as_slice());
        let ghost before = views(words@);
        words.push(w);
        assert(views(words@) =~= before.push(cur@));
    }
    words
}

/// The full Unicode upper-case mapping of a string, as `str::to_uppercase`
/// computes it.
pub uninterp spec fn unicode_upper(s: Seq<char>) -> Seq<char>;

/// `str::to_uppercase`: the result is the Unicode upper-case mapping of `s`,
/// which depends on `s` alone.
#[verifier::external_body]
pub(crate) fn to_uppercase(s: &str) -> (res: String)
    ensures
        res@ == unicode_upper(s@),
        all_ascii(s@) ==> res@ == ascii_upper(s@),
{
    s.to_uppercase()
}

/// `String::from_utf8`: the text whose UTF-8 encoding is `bytes`; none when
/// the bytes are not valid UTF-8.
#[verifier::external_body]
pub(crate) fn text_from_utf8(bytes: &[u8]) -> (res: Option<String>)
    ensures
        res is Some <==> vstd::utf8::valid_utf8(bytes@),
        res matches Some(s) ==> vstd::utf8::encode_utf8(s@) == bytes@,
{
    String::from_utf8(bytes.to_vec()).ok()
}

/// A relative component joined under a directory, as `PathBuf::join` does
/// with `/` as the separator: no separator is added after an empty
/// directory or one that ends with `/`.
pub open spec fn path_join(dir: Seq<char>, name: Seq<char>) -> Seq<char> {
    if dir.len() == 0 || dir.last() == '/' {
        dir + name
    } else {
        dir + "/"@ + name
    }
}

/// Joins a relative component under a directory.
pub fn path_join_exec(dir: &str, name: &str) -> (res: String)
    ensures
        res@ == path_join(dir@, name@),
{
    let d = chars_of(dir);
    if d.len() == 0 || d[d.len() - 1] == '/' {
        join_str(dir, name)
    } else {
        let a = join_str(dir, "/");
        join_str(a.as_str(), name)
    }
}

/// The decimal digits of a number are non-empty digits, without a leading
/// zero unless the number is zero, and read back as the number.
pub proof fn law_decimal_reads_back(n: nat)
    ensures
        decimal(n).len() > 0,
        all_digits(decimal(n)),
        digits_value(decimal(n)) == n,
        n > 0 ==> decimal(n)[0] != '0',
    decreases n,
{
    if n < 10 {
        assert(digit_char(n as int) as int == '0' as int + n);
        assert(decimal(n).drop_last() =~= Seq::<char>::empty());
        assert(digits_value(Seq::<char>::empty()) == 0);
    } else {
        law_decimal_reads_back(n / 10);
        let d = (n % 10) as int;
        let s = decimal(n / 10);
        assert(digit_char(d) as int == '0' as int + d);
        assert(decimal(n) == s.push(digit_char(d)));
        assert(decimal(n).drop_last() =~= s);
        assert(decimal(n)[0] == s[0]);
        assert(digits_value(decimal(n)) == digits_value(s) * 10 + digit_value(digit_char(d)));
        assert((n / 10) * 10 + n % 10 == n);
    }
}

/// Reading the text of an integer gives the integer back, whenever it lies
/// in the bounds and the bounds allow a sign where it is negative; outside
/// the bounds the text reads as nothing.
pub proof fn law_int_text_reads_back(v: int, lo: int, hi: int)
    requires
        v < 0 ==> lo < 0,
    ensures
        lo <= v <= hi ==> parse_int(int_text(v), lo, hi) == Some(v),
        !(lo <= v <= hi) ==> parse_int(int_text(v), lo, hi) is None,
{
    if v < 0 {
        law_decimal_reads_back((-v) as nat);
        let t = int_text(v);
        assert(t.drop_first() =~= decimal((-v) as nat));
        assert(t[0] == '-');
    } else {
        law_decimal_reads_back(v as nat);
        let t = int_text(v);
        assert(is_ascii_digit(t[0]));
    }
}

/// Splitting at `c` a text that starts with a piece free of `c` and then
/// `c` gives that piece, then the pieces of the rest.
pub proof fn lemma_split_char_prefix(a: Seq<char>, rest: Seq<char>, c: char)
    requires
        forall|k: int| 0 <= k < a.len() ==> a[k] != c,
    ensures
        split_all(a + seq![c] + rest, seq![c]) == seq![a] + split_all(rest, seq![c]),
        split_all(rest, seq![c]).len() >= 1,
{
    let s = a + seq![c] + rest;
    let p = seq![c];
    lemma_find_from_bounds(s, p, 0);
    assert(occurs_at(s, p, a.len() as int)) by {
        assert(s.subrange(a.len() as int, a.len() as int + 1) =~= p);
    }
    assert forall|k: int| 0 <= k < a.len() implies !occurs_at(s, p, k) by {
        if occurs_at(s, p, k) {
            assert(s.subrange(k, k + 1)[0] == s[k]);
            assert(s[k] == a[k]);
        }
    }
    assert(find(s, p) == Some(a.len() as int));
    assert(s.take(a.len() as int) =~= a);
    assert(s.skip(a.len() as int + 1) =~= rest);
    lemma_split_all_nonempty(rest, p);
}

/// ASCII case mapping turns `A`..`Z` into `a`..`z` and back, leaves every
/// other character alone, and lower-casing twice is lower-casing once; a
/// letter and its other case lower-case alike.
pub proof fn law_ascii_case(c: char, s: Seq<char>)
    ensures
        ascii_lower_char('A') == 'a' && ascii_lower_char('Z') == 'z' && ascii_lower_char('a') == 'a',
        ascii_upper_char('a') == 'A' && ascii_upper_char('z') == 'Z' && ascii_upper_char('A') == 'A',
        !('A' <= c && c <= 'Z') ==> ascii_lower_char(c) == c,
        !('a' <= c && c <= 'z') ==> ascii_upper_char(c) == c,
        ascii_lower_char(ascii_upper_char(c)) == ascii_lower_char(c),
        ascii_lower(ascii_lower(s)) == ascii_lower(s),
        ascii_lower(s).len() == s.len(),
{
    assert(('A' as u32) + 32 == 'a' as u32);
    assert(('Z' as u32) + 32 == 'z' as u32);
    assert(('a' as u32) - 32 == 'A' as u32);
    assert(('z' as u32) - 32 == 'Z' as u32);
    assert(ascii_lower(ascii_lower(s)) =~= ascii_lower(s));
}

proof fn lemma_trim_start_shape(s: Seq<char>) -> (i: int)
    ensures
        0 <= i <= s.len(),
        trim_start(s) == s.skip(i),
        forall|k: int| 0 <= k < i ==> is_ws(#[trigger] s[k]),
        i < s.len() ==> !is_ws(s[i]),
    decreases s.len(),
{
    if s.len() > 0 && is_ws(s[0]) {
        let j = lemma_trim_start_shape(s.drop_first());
        assert(s.drop_first().skip(j) =~= s.skip(j + 1));
        assert forall|k: int| 0 <= k < j + 1 implies is_ws(#[trigger] s[k]) by {
            if k > 0 {
                assert(s[k] == s.drop_first()[k - 1]);
            }
        }
        if j + 1 < s.len() {
            assert(s[j + 1] == s.drop_first()[j]);
        }
        j + 1
    } else {
        assert(s.skip(0) =~= s);
        0
    }
}

proof fn lemma_trim_end_shape(s: Seq<char>) -> (j: int)
    ensures
        0 <= j <= s.len(),
        trim_end(s) == s.take(j),
        forall|k: int| j <= k < s.len() ==> is_ws(#[trigger] s[k]),
        j > 0 ==> !is_ws(s[j - 1]),
    decreases s.len(),
{
    if s.len() > 0 && is_ws(s.last()) {
        let j = lemma_trim_end_shape(s.drop_last());
        assert(s.drop_last().take(j) =~= s.take(j));
        assert forall|k: int| j <= k < s.len() implies is_ws(#[trigger] s[k]) by {
            if k < s.len() - 1 {
                assert(s[k] == s.drop_last()[k]);
            }
        }
        if j > 0 {
            assert(s[j - 1] == s.drop_last()[j - 1]);
        }
        j
    } else {
        assert(s.take(s.len() as int) =~= s);
        s.len() as int
    }
}

/// Trimming removes whitespace from both ends and nothing else: the result
/// is a stretch of the text with only whitespace before and after it, and
/// it neither starts nor ends with whitespace.
pub proof fn law_trim_shape(s: Seq<char>)
    ensures
        exists|i: int, j: int|
            0 <= i <= j <= s.len() && trim(s) == s.subrange(i, j) && (forall|k: int|
                0 <= k < i ==> is_ws(#[trigger] s[k])) && (forall|k: int| j <= k < s.len() ==> is_ws(#[trigger] s[k])),
        trim(s).len() > 0 ==> !is_ws(trim(s)[0]) && !is_ws(trim(s).last()),
{
    let i = lemma_trim_start_shape(s);
    let t = s.skip(i);
    let j = lemma_trim_end_shape(t);
    assert(trim(s) == t.take(j));
    assert(t.take(j) =~= s.subrange(i, i + j));
    assert forall|k: int| i + j <= k < s.len() implies is_ws(#[trigger] s[k]) by {
        assert(s[k] == t[k - i]);
    }
    if j > 0 {
        assert(trim(s)[0] == s[i]);
        assert(t.take(j).last() == t[j - 1]);
    }
}

} // verus!
