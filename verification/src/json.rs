//! JSON documents as the library reads them, parsed and written by
//! `serde_json`.
use vstd::prelude::*;
use crate::text::{chars_eq, chars_of, owned};

verus! {

/// A JSON value: numbers keep the text `serde_json` writes for them, and an
/// object keeps its members in `serde_json`'s order, each key once.
#[derive(Debug)]
pub enum JsonValue {
    Null,
    Bool(bool),
    Number(String),
    Str(String),
    Array(Vec<JsonValue>),
    Object(Vec<(String, JsonValue)>),
}

/// `serde_json::Value`, carried opaquely.
#[verifier::external_type_specification]
#[verifier::external_body]
pub struct ExJsonDocument(serde_json::Value);

/// The same value as a `JsonValue`: each variant to its own, numbers to the
/// text `Number`'s `Display` writes, object members in map order. Nothing is
/// stated of the result: the converted value is opaque to the library.
#[verifier::external_body]
fn json_tree_of(v: &serde_json::Value) -> (res: JsonValue) {
    match v {
        serde_json::Value::Null => JsonValue::Null,
        serde_json::Value::Bool(b) => JsonValue::Bool(*b),
        serde_json::Value::Number(n) => JsonValue::Number(n.to_string()),
        serde_json::Value::String(s) => JsonValue::Str(s.clone()),
        serde_json::Value::Array(a) => JsonValue::Array(a.iter().map(json_tree_of).collect()),
        serde_json::Value::Object(m) => JsonValue::Object(
            m.iter().map(|(k, x)| (k.clone(), json_tree_of(x))).collect(),
        ),
    }
}

/// What `serde_json` makes of a text: the value, with the text written back
/// compactly (`Value`'s `Display`), or the parse error's message.
pub uninterp spec fn json_document(text: Seq<char>) -> Result<(JsonValue, Seq<char>), Seq<char>>;

/// `serde_json::from_str::<serde_json::Value>`, then `to_string` of the
/// value; on failure, the error's message. The outcome depends on the text
/// alone.
#[verifier::external_body]
pub(crate) fn parse_json(text: &str) -> (res: Result<(JsonValue, String), String>)
    ensures
        match res {
            Ok((v, compact)) => json_document(text@) == Ok::<(JsonValue, Seq<char>), Seq<char>>(
                (v, compact@),
            ),
            Err(e) => json_document(text@) == Err::<(JsonValue, Seq<char>), Seq<char>>(e@),
        },
{
    match serde_json::from_str::<serde_json::Value>(text) {
        Ok(v) => Ok((json_tree_of(&v), v.to_string())),
        Err(e) => Err(e.to_string()),
    }
}

/// A hexadecimal digit, lower case.
pub open spec fn hex_digit(d: int) -> char {
    if d < 10 {
        (48 + d) as char
    } else {
        (97 + d - 10) as char
    }
}

/// How a JSON string writes one character: `"` and `\` behind a
/// backslash; backspace, tab, line feed, form feed and carriage return as
/// `\b`, `\t`, `\n`, `\f`, `\r`; the other control characters below
/// 0x20 as `\u00` and two lower-case hexadecimal digits; any other
/// character as itself.
pub open spec fn json_escaped_char(c: char) -> Seq<char> {
    let v = c as u32;
    if c == '"' {
        seq!['\\', '"']
    } else if c == '\\' {
        seq!['\\', '\\']
    } else if v == 8 {
        seq!['\\', 'b']
    } else if v == 9 {
        seq!['\\', 't']
    } else if v == 10 {
        seq!['\\', 'n']
    } else if v == 12 {
        seq!['\\', 'f']
    } else if v == 13 {
        seq!['\\', 'r']
    } else if v < 32 {
        seq!['\\', 'u', '0', '0', hex_digit(v as int / 16), hex_digit(v as int % 16)]
    } else {
        seq![c]
    }
}

/// The characters of a text, each written as a JSON string writes it.
pub open spec fn json_escaped(s: Seq<char>) -> Seq<char>
    decreases s.len(),
{
    if s.len() == 0 {
        Seq::empty()
    } else {
        json_escaped(s.drop_last()) + json_escaped_char(s.last())
    }
}

/// The JSON string literal of a text, as `serde_json` writes it: the
/// escaped characters between double quotes.
pub open spec fn json_quoted(s: Seq<char>) -> Seq<char> {
    seq!['"'] + json_escaped(s) + seq!['"']
}

fn push_escaped(out: &mut Vec<char>, c: char)
    ensures
        final(out)@ == old(out)@ + json_escaped_char(c),
{
    let v = c as u32;
    if c == '"' {
        out.push('\\');
        out.push('"');
    } else if c == '\\' {
        out.push('\\');
        out.push('\\');
    } else if v == 8 {
        out.push('\\');
        out.push('b');
    } else if v == 9 {
        out.push('\\');
        out.push('t');
    } else if v == 10 {
        out.push('\\');
        out.push('n');
    } else if v == 12 {
        out.push('\\');
        out.push('f');
    } else if v == 13 {
        out.push('\\');
        out.push('r');
    } else if v < 32 {
        let hi: u32 = v / 16;
        let lo: u32 = v % 16;
        let h = if hi < 10 {
            crate::text::char_from_u32(48 + hi)
        } else {
            crate::text::char_from_u32(97 + hi - 10)
        };
        let l = if lo < 10 {
            crate::text::char_from_u32(48 + lo)
        } else {
            crate::text::char_from_u32(97 + lo - 10)
        };
        out.push('\\');
        out.push('u');
        out.push('0');
        out.push('0');
        out.push(h);
        out.push(l);
    } else {
        out.push(c);
    }
    proof {
        assert(final(out)@ =~= old(out)@ + json_escaped_char(c));
    }
}

/// The JSON string literal of a text (what `serde_json::to_string` writes
/// for a string).
pub fn quote_json(s: &str) -> (res: String)
    ensures
        res@ == json_quoted(s@),
{
    let cs = crate::text::chars_of(s);
    let mut out: Vec<char> = Vec::new();
    out.push('"');
    let mut i: usize = 0;
    while i < cs.len()
        invariant
            i <= cs@.len(),
            out@ == seq!['"'] + json_escaped(cs@.take(i as int)),
        decreases cs@.len() - i,
    {
        let ghost before = out@;
        push_escaped(&mut out, cs[i]);
        proof {
            assert(cs@.take(i + 1).drop_last() =~= cs@.take(i as int));
            assert(cs@.take(i + 1).last() == cs@[i as int]);
            assert(out@ =~= seq!['"'] + json_escaped(cs@.take(i + 1)));
        }
        i = i + 1;
    }
    out.push('"');
    assert(cs@.take(i as int) =~= cs@);
    assert(out@ =~= json_quoted(s@));
    crate::text::string_of(out.as_slice())
}

/// The value of the first member named `key`.
pub open spec fn member(obj: Seq<(String, JsonValue)>, key: Seq<char>) -> Option<JsonValue>
    decreases obj.len(),
{
    if obj.len() == 0 {
        None
    } else if obj[0].0@ == key {
        Some(obj[0].1)
    } else {
        member(obj.drop_first(), key)
    }
}

/// The value reached from an object by following `path`, a key per level.
pub open spec fn value_at(obj: Seq<(String, JsonValue)>, path: Seq<Seq<char>>) -> Option<JsonValue>
    decreases path.len(),
{
    if path.len() == 0 {
        None
    } else {
        match member(obj, path[0]) {
            None => None,
            Some(v) => if path.len() == 1 {
                Some(v)
            } else {
                match v {
                    JsonValue::Object(inner) => value_at(inner@, path.drop_first()),
                    _ => None,
                }
            },
        }
    }
}

/// The text of a scalar: a string as it is, a number as written, a boolean
/// as `true` or `false`; nothing for the others.
pub open spec fn scalar_text(v: JsonValue) -> Option<Seq<char>> {
    match v {
        JsonValue::Str(s) => Some(s@),
        JsonValue::Number(n) => Some(n@),
        JsonValue::Bool(b) => Some(
            if b {
                "true"@
            } else {
                "false"@
            },
        ),
        _ => None,
    }
}

/// The value of the first member named `key`.
pub fn member_exec<'a>(obj: &'a Vec<(String, JsonValue)>, key: &[char]) -> (res: Option<&'a JsonValue>)
    ensures
        match res {
            Some(v) => member(obj@, key@) == Some(*v),
            None => member(obj@, key@) is None,
        },
{
    let mut i: usize = 0;
    assert(obj@.skip(0) =~= obj@);
    while i < obj.len()
        invariant
            i <= obj@.len(),
            member(obj@, key@) == member(obj@.skip(i as int), key@),
        decreases obj@.len() - i,
    {
        let k = chars_of(obj[i].0.as_str());
        assert(obj@.skip(i as int)[0] == obj@[i as int]);
        if chars_eq(k.as_slice(), key) {
            return Some(&obj[i].1);
        }
        assert(obj@.skip(i as int).drop_first() =~= obj@.skip(i + 1));
        i = i + 1;
    }
    None
}

/// The value reached from an object by following a dotted path.
pub fn value_at_exec<'a>(obj: &'a Vec<(String, JsonValue)>, path: &Vec<Vec<char>>) -> (res: Option<&'a JsonValue>)
    ensures
        match res {
            Some(v) => value_at(obj@, path@.map_values(|p: Vec<char>| p@)) == Some(*v),
            None => value_at(obj@, path@.map_values(|p: Vec<char>| p@)) is None,
        },
{
    let ghost pv = path@.map_values(|p: Vec<char>| p@);
    if path.len() == 0 {
        return None;
    }
    let mut current: &'a Vec<(String, JsonValue)> = obj;
    let mut i: usize = 0;
    assert(pv.skip(0) =~= pv);
    loop
        invariant
            i < path@.len(),
            pv == path@.map_values(|p: Vec<char>| p@),
            value_at(obj@, pv) == value_at(current@, pv.skip(i as int)),
        decreases path@.len() - i,
    {
        let ghost rest = pv.skip(i as int);
        assert(rest[0] == path@[i as int]@);
        match member_exec(current, path[i].as_slice()) {
            None => {
                return None;
            },
            Some(v) => {
                if i == path.len() - 1 {
                    return Some(v);
                }
                match v {
                    JsonValue::Object(inner) => {
                        assert(rest.drop_first() =~= pv.skip(i + 1));
                        current = inner;
                        i = i + 1;
                    },
                    _ => {
                        return None;
                    },
                }
            },
        }
    }
}

/// The text of a scalar.
pub fn scalar_text_exec(v: &JsonValue) -> (res: Option<String>)
    ensures
        match res {
            Some(s) => scalar_text(*v) == Some(s@),
            None => scalar_text(*v) is None,
        },
{
    match v {
        JsonValue::Str(s) => Some(owned(s.as_str())),
        JsonValue::Number(n) => Some(owned(n.as_str())),
        JsonValue::Bool(b) => Some(
            if *b {
                owned("true")
            } else {
                owned("false")
            },
        ),
        _ => None,
    }
}

/// What `serde_json` makes of a text read as a list of strings: the
/// strings, or the error's message.
pub uninterp spec fn json_string_list(text: Seq<char>) -> Result<Seq<Seq<char>>, Seq<char>>;

/// `serde_json::from_str::<Vec<String>>`; on failure, the error's message.
/// The outcome depends on the text alone.
#[verifier::external_body]
pub(crate) fn parse_string_list(text: &str) -> (res: Result<Vec<String>, String>)
    ensures
        match res {
            Ok(v) => json_string_list(text@) == Ok::<Seq<Seq<char>>, Seq<char>>(crate::text::views(v@)),
            Err(e) => json_string_list(text@) == Err::<Seq<Seq<char>>, Seq<char>>(e@),
        },
{
    serde_json::from_str::<Vec<String>>(text).map_err(|e| e.to_string())
}

/// Text without `"`, `\` or control characters is written as itself
/// between double quotes; escaping works character by character, so the
/// writing of two texts one after the other is the two writings one after
/// the other; `"` and `\` go behind a backslash, a line feed becomes `\n`,
/// and the control character 1 becomes `\u0001`.
pub proof fn law_json_string_writing(a: Seq<char>, b: Seq<char>)
    ensures
        (forall|k: int| 0 <= k < a.len() ==> #[trigger] a[k] != '"' && a[k] != '\\' && a[k] as u32 >= 32)
            ==> json_quoted(a) == seq!['"'] + a + seq!['"'],
        json_escaped(a + b) == json_escaped(a) + json_escaped(b),
        json_escaped_char('"') == seq!['\\', '"'],
        json_escaped_char('\\') == seq!['\\', '\\'],
        json_escaped_char('\n') == seq!['\\', 'n'],
        json_escaped_char('\u{1}') == seq!['\\', 'u', '0', '0', '0', '1'],
    decreases b.len(),
{
    lemma_plain_escaped(a);
    if b.len() > 0 {
        law_json_string_writing(a, b.drop_last());
        assert((a + b).drop_last() =~= a + b.drop_last());
        assert((a + b).last() == b.last());
    } else {
        assert(a + b =~= a);
        assert(json_escaped(b) =~= Seq::<char>::empty());
    }
    assert(hex_digit(0) == '0');
    assert(hex_digit(1) == '1');
}

proof fn lemma_plain_escaped(a: Seq<char>)
    ensures
        (forall|k: int| 0 <= k < a.len() ==> #[trigger] a[k] != '"' && a[k] != '\\' && a[k] as u32 >= 32)
            ==> json_escaped(a) == a,
    decreases a.len(),
{
    if a.len() > 0 {
        lemma_plain_escaped(a.drop_last());
        if forall|k: int| 0 <= k < a.len() ==> #[trigger] a[k] != '"' && a[k] != '\\' && a[k] as u32 >= 32 {
            assert forall|k: int| 0 <= k < a.drop_last().len() implies #[trigger] a.drop_last()[k] != '"'
                && a.drop_last()[k] != '\\' && a.drop_last()[k] as u32 >= 32 by {
                assert(a.drop_last()[k] == a[k]);
            }
            assert(a[a.len() - 1] as u32 >= 32);
            assert(json_escaped_char(a.last()) == seq![a.last()]);
            assert(a.drop_last().push(a.last()) =~= a);
        }
    } else {
        assert(json_escaped(a) =~= a);
    }
}

} // verus!
