//! Output rules of the external tools: how a JSON line's members become
//! named fields, and how field values are normalised.
use vstd::prelude::*;
use crate::json::{scalar_text, scalar_text_exec, value_at, value_at_exec, JsonValue};
use crate::text::{ascii_lower, ascii_lower_exec, chars_eq, chars_of, owned, split_all, split_exec};

verus! {

/// How a tool's output is laid out.
#[derive(Debug, Clone)]
pub enum ParseFormat {
    /// One JSON object per line.
    Jsonl,
    /// Another layout, by its name.
    Other(String),
}

/// The rule of a tool: default arguments (with `{{target}}` placeholders),
/// the output layout, which JSON members become which fields, how field
/// values are normalised, and the fields worth keeping.
#[derive(Debug, Clone)]
pub struct ToolRule {
    pub args_template: Vec<String>,
    pub format: ParseFormat,
    /// (dotted JSON path, field name).
    pub field_mappings: Vec<(String, String)>,
    /// (field name, (value, replacement) pairs).
    pub normalize_maps: Vec<(String, Vec<(String, String)>)>,
    pub persist_targets: Vec<String>,
}

/// The views of (text, text) pairs.
pub open spec fn pairs_view(v: Seq<(String, String)>) -> Seq<(Seq<char>, Seq<char>)> {
    v.map_values(|p: (String, String)| (p.0@, p.1@))
}

/// The value paired with the first occurrence of `k`.
pub open spec fn pair_lookup(v: Seq<(Seq<char>, Seq<char>)>, k: Seq<char>) -> Option<Seq<char>>
    decreases v.len(),
{
    if v.len() == 0 {
        None
    } else if v[0].0 == k {
        Some(v[0].1)
    } else {
        pair_lookup(v.drop_first(), k)
    }
}

/// A list of pairs as a map: each key to the value of its first pair.
pub open spec fn pairs_map(v: Seq<(Seq<char>, Seq<char>)>) -> Map<Seq<char>, Seq<char>> {
    Map::new(|k: Seq<char>| pair_lookup(v, k) is Some, |k: Seq<char>| pair_lookup(v, k)->0)
}

/// The value paired with the first occurrence of `key`.
pub fn pair_get<'a>(v: &'a Vec<(String, String)>, key: &[char]) -> (res: Option<&'a String>)
    ensures
        match res {
            Some(s) => pair_lookup(pairs_view(v@), key@) == Some(s@),
            None => pair_lookup(pairs_view(v@), key@) is None,
        },
{
    let ghost pv = pairs_view(v@);
    let mut i: usize = 0;
    assert(pv.skip(0) =~= pv);
    while i < v.len()
        invariant
            i <= v@.len(),
            pv == pairs_view(v@),
            pair_lookup(pv, key@) == pair_lookup(pv.skip(i as int), key@),
        decreases v@.len() - i,
    {
        let k = chars_of(v[i].0.as_str());
        assert(pv.skip(i as int)[0] == pv[i as int]);
        if chars_eq(k.as_slice(), key) {
            return Some(&v[i].1);
        }
        assert(pv.skip(i as int).drop_first() =~= pv.skip(i + 1));
        i = i + 1;
    }
    None
}

proof fn lemma_lookup_after_update(v: Seq<(Seq<char>, Seq<char>)>, j: int, k: Seq<char>, val: Seq<char>, q: Seq<char>)
    requires
        0 <= j < v.len(),
        v[j].0 == k,
        forall|m: int| 0 <= m < j ==> v[m].0 != k,
    ensures
        pair_lookup(v.update(j, (k, val)), q) == if q == k {
            Some(val)
        } else {
            pair_lookup(v, q)
        },
    decreases j,
{
    let u = v.update(j, (k, val));
    if j > 0 {
        assert(u.drop_first() =~= v.drop_first().update(j - 1, (k, val)));
        assert(u[0] == v[0]);
        assert(v[0].0 != k);
        lemma_lookup_after_update(v.drop_first(), j - 1, k, val, q);
    } else {
        assert(u.drop_first() =~= v.drop_first());
        assert(u[0] == (k, val));
    }
}

proof fn lemma_lookup_after_push(v: Seq<(Seq<char>, Seq<char>)>, k: Seq<char>, val: Seq<char>, q: Seq<char>)
    requires
        pair_lookup(v, k) is None,
    ensures
        pair_lookup(v.push((k, val)), q) == if q == k {
            Some(val)
        } else {
            pair_lookup(v, q)
        },
    decreases v.len(),
{
    let u = v.push((k, val));
    if v.len() > 0 {
        assert(u.drop_first() =~= v.drop_first().push((k, val)));
        assert(u[0] == v[0]);
        assert(v[0].0 != k);
        lemma_lookup_after_push(v.drop_first(), k, val, q);
    } else {
        assert(u[0] == (k, val));
        assert(u.drop_first() =~= Seq::<(Seq<char>, Seq<char>)>::empty());
        assert(pair_lookup(Seq::<(Seq<char>, Seq<char>)>::empty(), q) is None);
        assert(pair_lookup(u.drop_first(), q) is None);
        assert(pair_lookup(v, q) is None);
    }
}

/// Sets `key` to `val`: the first pair with that key gets the value, or a
/// pair is added.
pub fn pair_set(v: &mut Vec<(String, String)>, key: String, val: String)
    ensures
        pairs_map(pairs_view(final(v)@)) == pairs_map(pairs_view(old(v)@)).insert(key@, val@),
{
    let kc = chars_of(key.as_str());
    let ghost ov = pairs_view(v@);
    let mut i: usize = 0;
    while i < v.len()
        invariant
            i <= v@.len(),
            ov == pairs_view(v@),
            v@ == old(v)@,
            kc@ == key@,
            forall|m: int| 0 <= m < i ==> ov[m].0 != key@,
        decreases v@.len() - i,
    {
        let c = chars_of(v[i].0.as_str());
        if chars_eq(c.as_slice(), kc.as_slice()) {
            let ghost kv = key@;
            let ghost vv = val@;
            v.set(i, (key, val));
            proof {
                assert(pairs_view(v@) =~= ov.update(i as int, (kv, vv)));
                assert forall|q: Seq<char>| #![trigger pair_lookup(pairs_view(v@), q)]
                    pair_lookup(pairs_view(v@), q) == if q == kv {
                        Some(vv)
                    } else {
                        pair_lookup(ov, q)
                    } by {
                    lemma_lookup_after_update(ov, i as int, kv, vv, q);
                }
                assert(pairs_map(pairs_view(v@)) =~= pairs_map(ov).insert(kv, vv));
            }
            return;
        }
        i = i + 1;
    }
    let ghost kv = key@;
    let ghost vv = val@;
    proof {
        let mut m: int = 0;
        assert(pair_lookup(ov, kv) is None) by {
            lemma_lookup_absent(ov, kv);
        }
    }
    v.push((key, val));
    proof {
        assert(pairs_view(v@) =~= ov.push((kv, vv)));
        assert forall|q: Seq<char>| #![trigger pair_lookup(pairs_view(v@), q)]
            pair_lookup(pairs_view(v@), q) == if q == kv {
                Some(vv)
            } else {
                pair_lookup(ov, q)
            } by {
            lemma_lookup_after_push(ov, kv, vv, q);
        }
        assert(pairs_map(pairs_view(v@)) =~= pairs_map(ov).insert(kv, vv));
    }
}

proof fn lemma_lookup_absent(v: Seq<(Seq<char>, Seq<char>)>, k: Seq<char>)
    requires
        forall|m: int| 0 <= m < v.len() ==> v[m].0 != k,
    ensures
        pair_lookup(v, k) is None,
    decreases v.len(),
{
    if v.len() > 0 {
        lemma_lookup_absent(v.drop_first(), k);
    }
}

/// The fields a JSON object yields: each mapping, in order, sets its field
/// to the text of the scalar at its dotted path, when there is one.
pub open spec fn mapped_fields(obj: Seq<(String, JsonValue)>, mappings: Seq<(Seq<char>, Seq<char>)>) -> Map<Seq<char>, Seq<char>>
    decreases mappings.len(),
{
    if mappings.len() == 0 {
        Map::empty()
    } else {
        let m = mapped_fields(obj, mappings.drop_last());
        let (path, field) = mappings.last();
        match value_at(obj, split_all(path, "."@)) {
            Some(v) => match scalar_text(v) {
                Some(t) => m.insert(field, t),
                None => m,
            },
            None => m,
        }
    }
}

/// The fields a JSON object yields under a rule's mappings.
pub fn extract_mapped_fields(obj: &Vec<(String, JsonValue)>, mappings: &Vec<(String, String)>) -> (res: Vec<(String, String)>)
    ensures
        pairs_map(pairs_view(res@)) == mapped_fields(obj@, pairs_view(mappings@)),
{
    proof {
        reveal_strlit(".");
    }
    let ghost mv = pairs_view(mappings@);
    let dot = chars_of(".");
    let mut out: Vec<(String, String)> = Vec::new();
    assert(pairs_map(pairs_view(out@)) =~= Map::<Seq<char>, Seq<char>>::empty());
    let mut i: usize = 0;
    while i < mappings.len()
        invariant
            i <= mappings@.len(),
            mv == pairs_view(mappings@),
            dot@ == "."@,
            dot@.len() == 1,
            pairs_map(pairs_view(out@)) == mapped_fields(obj@, mv.take(i as int)),
        decreases mappings@.len() - i,
    {
        let (path, field) = &mappings[i];
        proof {
            assert(mv.take(i + 1).drop_last() =~= mv.take(i as int));
            assert(mv.take(i + 1).last() == (path@, field@));
        }
        let pc = chars_of(path.as_str());
        let pieces = split_exec(pc.as_slice(), dot.as_slice());
        match value_at_exec(obj, &pieces) {
            Some(v) => match scalar_text_exec(v) {
                Some(t) => {
                    pair_set(&mut out, owned(field.as_str()), t);
                },
                None => {},
            },
            None => {},
        }
        i = i + 1;
    }
    assert(mv.take(i as int) =~= mv);
    out
}

/// The views of the normalisation maps.
pub open spec fn maps_view(v: Seq<(String, Vec<(String, String)>)>) -> Seq<(Seq<char>, Seq<(Seq<char>, Seq<char>)>)> {
    v.map_values(|p: (String, Vec<(String, String)>)| (p.0@, pairs_view(p.1@)))
}

/// The replacement of a value: its own entry, else (when `fallback`) the
/// entry of its ASCII lower-case form.
pub open spec fn replacement(nm: Seq<(Seq<char>, Seq<char>)>, cur: Seq<char>, fallback: bool) -> Option<Seq<char>> {
    match pair_lookup(nm, cur) {
        Some(x) => Some(x),
        None => if fallback {
            pair_lookup(nm, ascii_lower(cur))
        } else {
            None
        },
    }
}

/// Fields after normalisation: each map, in order, replaces its field's
/// value when it lists one for it.
pub open spec fn normalized_fields(
    m: Map<Seq<char>, Seq<char>>,
    maps: Seq<(Seq<char>, Seq<(Seq<char>, Seq<char>)>)>,
    fallback: bool,
) -> Map<Seq<char>, Seq<char>>
    decreases maps.len(),
{
    if maps.len() == 0 {
        m
    } else {
        let m1 = normalized_fields(m, maps.drop_last(), fallback);
        let (field, nm) = maps.last();
        if m1.contains_key(field) {
            match replacement(nm, m1[field], fallback) {
                Some(x) => m1.insert(field, x),
                None => m1,
            }
        } else {
            m1
        }
    }
}

/// The value of a field, looked up in a pair list.
fn field_value(fields: &Vec<(String, String)>, key: &str) -> (res: Option<String>)
    ensures
        match res {
            Some(s) => pairs_map(pairs_view(fields@)).contains_key(key@) && pairs_map(pairs_view(fields@))[key@] == s@,
            None => !pairs_map(pairs_view(fields@)).contains_key(key@),
        },
{
    let kc = chars_of(key);
    match pair_get(fields, kc.as_slice()) {
        Some(s) => Some(owned(s.as_str())),
        None => None,
    }
}

/// Normalises field values with a rule's maps; with `fallback`, a value
/// without its own entry is also looked up in ASCII lower case.
pub fn apply_normalize_maps(
    fields: Vec<(String, String)>,
    maps: &Vec<(String, Vec<(String, String)>)>,
    fallback: bool,
) -> (res: Vec<(String, String)>)
    ensures
        pairs_map(pairs_view(res@)) == normalized_fields(pairs_map(pairs_view(fields@)), maps_view(maps@), fallback),
{
    let ghost m0 = pairs_map(pairs_view(fields@));
    let ghost mv = maps_view(maps@);
    let mut out = fields;
    let mut i: usize = 0;
    assert(mv.take(0) =~= Seq::<(Seq<char>, Seq<(Seq<char>, Seq<char>)>)>::empty());
    while i < maps.len()
        invariant
            i <= maps@.len(),
            mv == maps_view(maps@),
            pairs_map(pairs_view(out@)) == normalized_fields(m0, mv.take(i as int), fallback),
        decreases maps@.len() - i,
    {
        let (field, nm) = &maps[i];
        proof {
            assert(mv.take(i + 1).drop_last() =~= mv.take(i as int));
            assert(mv.take(i + 1).last() == (field@, pairs_view(nm@)));
        }
        match field_value(&out, field.as_str()) {
            Some(cur) => {
                let cc = chars_of(cur.as_str());
                let mapped: Option<&String> = match pair_get(nm, cc.as_slice()) {
                    Some(x) => Some(x),
                    None => if fallback {
                        let low = ascii_lower_exec(cc.as_slice());
                        pair_get(nm, low.as_slice())
                    } else {
                        None
                    },
                };
                match mapped {
                    Some(x) => {
                        pair_set(&mut out, owned(field.as_str()), owned(x.as_str()));
                    },
                    None => {},
                }
            },
            None => {},
        }
        i = i + 1;
    }
    assert(mv.take(i as int) =~= mv);
    out
}

/// Whether some field worth keeping is present.
pub fn has_persistable_field(fields: &Vec<(String, String)>, targets: &Vec<String>) -> (res: bool)
    ensures
        res == exists|k: int|
            0 <= k < targets@.len() && pairs_map(pairs_view(fields@)).contains_key(
                (#[trigger] targets@[k])@,
            ),
{
    let mut k: usize = 0;
    while k < targets.len()
        invariant
            k <= targets@.len(),
            forall|j: int|
                0 <= j < k ==> !pairs_map(pairs_view(fields@)).contains_key((#[trigger] targets@[j])@),
        decreases targets@.len() - k,
    {
        if field_value(fields, targets[k].as_str()).is_some() {
            return true;
        }
        k = k + 1;
    }
    false
}

/// A rule's argument template with `{{target}}` filled in.
pub fn build_target_args(rule: &ToolRule, target: &str) -> (res: Vec<String>)
    ensures
        crate::text::views(res@) == crate::text::views(rule.args_template@).map_values(
            |a: Seq<char>| crate::text::replace_all(a, "{{target}}"@, target@),
        ),
{
    proof {
        reveal_strlit("{{target}}");
    }
    let pat = chars_of("{{target}}");
    let tc = chars_of(target);
    let ghost av = crate::text::views(rule.args_template@);
    let mut out: Vec<String> = Vec::new();
    let mut i: usize = 0;
    while i < rule.args_template.len()
        invariant
            i <= rule.args_template@.len(),
            av == crate::text::views(rule.args_template@),
            pat@ == "{{target}}"@,
            pat@.len() > 0,
            tc@ == target@,
            crate::text::views(out@) == av.take(i as int).map_values(
                |a: Seq<char>| crate::text::replace_all(a, "{{target}}"@, target@),
            ),
        decreases rule.args_template@.len() - i,
    {
        let a = chars_of(rule.args_template[i].as_str());
        let r = crate::text::replace_exec(a.as_slice(), pat.as_slice(), tc.as_slice());
        let ghost before = crate::text::views(out@);
        out.push(crate::text::string_of(r.as_slice()));
        proof {
            assert(a@ == av[i as int]);
            assert(crate::text::views(out@) =~= before.push(r@));
            assert(av.take(i + 1).map_values(
                |a: Seq<char>| crate::text::replace_all(a, "{{target}}"@, target@),
            ) =~= av.take(i as int).map_values(
                |a: Seq<char>| crate::text::replace_all(a, "{{target}}"@, target@),
            ).push(crate::text::replace_all(av[i as int], "{{target}}"@, target@)));
        }
        i = i + 1;
    }
    assert(av.take(i as int) =~= av);
    out
}

/// The replacement pairs of the first map for `field`.
pub open spec fn map_for(
    maps: Seq<(Seq<char>, Seq<(Seq<char>, Seq<char>)>)>,
    field: Seq<char>,
) -> Option<Seq<(Seq<char>, Seq<char>)>>
    decreases maps.len(),
{
    if maps.len() == 0 {
        None
    } else if maps[0].0 == field {
        Some(maps[0].1)
    } else {
        map_for(maps.drop_first(), field)
    }
}

/// The replacement pairs of the first map for `field`.
pub fn map_for_exec<'a>(maps: &'a Vec<(String, Vec<(String, String)>)>, field: &str) -> (res: Option<&'a Vec<(String, String)>>)
    ensures
        match res {
            Some(nm) => map_for(maps_view(maps@), field@) == Some(pairs_view(nm@)),
            None => map_for(maps_view(maps@), field@) is None,
        },
{
    let ghost mv = maps_view(maps@);
    let fc = chars_of(field);
    let mut i: usize = 0;
    assert(mv.skip(0) =~= mv);
    while i < maps.len()
        invariant
            i <= maps@.len(),
            mv == maps_view(maps@),
            fc@ == field@,
            map_for(mv, field@) == map_for(mv.skip(i as int), field@),
        decreases maps@.len() - i,
    {
        let k = chars_of(maps[i].0.as_str());
        assert(mv.skip(i as int)[0] == mv[i as int]);
        if chars_eq(k.as_slice(), fc.as_slice()) {
            return Some(&maps[i].1);
        }
        assert(mv.skip(i as int).drop_first() =~= mv.skip(i + 1));
        i = i + 1;
    }
    None
}

/// `file:line`, for messages.
pub open spec fn location(file: Seq<char>, line_no: nat) -> Seq<char> {
    file + ":"@ + crate::text::decimal(line_no)
}

pub fn location_exec(file: &str, line_no: usize) -> (res: String)
    ensures
        res@ == location(file@, line_no as nat),
{
    let a = crate::text::join_str(file, ":");
    let d = crate::text::decimal_exec(line_no as u64);
    let ds = crate::text::string_of(d.as_slice());
    crate::text::join_str(a.as_str(), ds.as_str())
}

/// What a line of tool output yields.
pub enum LineFields {
    /// The normalised fields of a JSON object, and the object written back
    /// compactly.
    Fields(Vec<(String, String)>, String),
    /// The line is not JSON; the parser's message.
    ParseError(String),
    /// The line is JSON but not an object.
    NotObject,
}

/// The normalised fields of a JSON object line under a rule, or why there
/// are none.
pub open spec fn line_fields_ok(lf: LineFields, line: Seq<char>, rule: ToolRule, fallback: bool) -> bool {
    match crate::json::json_document(line) {
        Err(e) => lf matches LineFields::ParseError(m) && m@ == e,
        Ok((v, compact)) => match v {
            JsonValue::Object(obj) => lf matches LineFields::Fields(f, c) && c@ == compact
                && pairs_map(pairs_view(f@)) == normalized_fields(
                mapped_fields(obj@, pairs_view(rule.field_mappings@)),
                maps_view(rule.normalize_maps@),
                fallback,
            ),
            _ => lf is NotObject,
        },
    }
}

/// Reads the fields of one line of output.
pub fn read_line_fields(line: &str, rule: &ToolRule, fallback: bool) -> (res: LineFields)
    ensures
        line_fields_ok(res, line@, *rule, fallback),
{
    match crate::json::parse_json(line) {
        Err(e) => LineFields::ParseError(e),
        Ok((v, compact)) => match v {
            JsonValue::Object(obj) => {
                let mapped = extract_mapped_fields(&obj, &rule.field_mappings);
                let fields = apply_normalize_maps(mapped, &rule.normalize_maps, fallback);
                LineFields::Fields(fields, compact)
            },
            _ => LineFields::NotObject,
        },
    }
}

/// The value of a field, or nothing.
pub open spec fn field_or_empty(m: Map<Seq<char>, Seq<char>>, k: Seq<char>) -> Seq<char> {
    if m.contains_key(k) {
        m[k]
    } else {
        Seq::empty()
    }
}

/// The value of a field, or nothing.
pub fn field_or_empty_exec(fields: &Vec<(String, String)>, key: &str) -> (res: String)
    ensures
        res@ == field_or_empty(pairs_map(pairs_view(fields@)), key@),
{
    let kc = chars_of(key);
    match pair_get(fields, kc.as_slice()) {
        Some(s) => owned(s.as_str()),
        None => String::new(),
    }
}

/// The value of a field, if set.
pub fn field_get(fields: &Vec<(String, String)>, key: &str) -> (res: Option<String>)
    ensures
        match res {
            Some(s) => pairs_map(pairs_view(fields@)).contains_key(key@) && pairs_map(pairs_view(fields@))[key@] == s@,
            None => !pairs_map(pairs_view(fields@)).contains_key(key@),
        },
{
    let kc = chars_of(key);
    match pair_get(fields, kc.as_slice()) {
        Some(s) => Some(owned(s.as_str())),
        None => None,
    }
}

/// A character that cannot stand in a file name on common systems.
pub open spec fn unsafe_file_char(c: char) -> bool {
    c == '\\' || c == '/' || c == ':' || c == '*' || c == '?' || c == '"' || c == '<' || c == '>' || c == '|'
}

/// `t` with each character that cannot stand in a file name replaced by `_`.
pub open spec fn sanitized_name(t: Seq<char>) -> Seq<char> {
    t.map_values(|c: char| if unsafe_file_char(c) { '_' } else { c })
}

/// A target with the characters that cannot stand in a file name replaced
/// by `_`.
pub fn sanitize_target_file_name(target: &str) -> (res: String)
    ensures
        res@ == sanitized_name(target@),
{
    let cs = chars_of(target);
    let mut out: Vec<char> = Vec::new();
    let mut i: usize = 0;
    while i < cs.len()
        invariant
            i <= cs@.len(),
            cs@ == target@,
            out@ == cs@.take(i as int).map_values(|c: char| if unsafe_file_char(c) { '_' } else { c }),
        decreases cs@.len() - i,
    {
        let c = cs[i];
        let d = if c == '\\' || c == '/' || c == ':' || c == '*' || c == '?' || c == '"' || c == '<' || c == '>' || c == '|' {
            '_'
        } else {
            c
        };
        out.push(d);
        i = i + 1;
        assert(out@ =~= cs@.take(i as int).map_values(|c: char| if unsafe_file_char(c) { '_' } else { c }));
    }
    assert(cs@.take(i as int) =~= cs@);
    crate::text::string_of(out.as_slice())
}

/// The file a target's raw output is kept in: its sanitised name with the
/// `.jsonl` extension.
pub fn raw_output_file_name(target: &str) -> (res: String)
    ensures
        res@ == sanitized_name(target@) + ".jsonl"@,
{
    let base = sanitize_target_file_name(target);
    crate::text::join_str(base.as_str(), ".jsonl")
}

/// The error of a tool that could not be started for a target.
pub fn tool_launch_error(tool: &str, target: &str, cause: &str) -> (res: crate::tasks::AppError)
    ensures
        res matches crate::tasks::AppError::Task(m) && m@ == "启动 "@ + tool@ + " 失败 ["@ + target@ + "]: "@ + cause@,
{
    let a = crate::text::join_str("启动 ", tool);
    let b = crate::text::join_str(a.as_str(), " 失败 [");
    let c = crate::text::join_str(b.as_str(), target);
    let d = crate::text::join_str(c.as_str(), "]: ");
    crate::tasks::AppError::Task(crate::text::join_str(d.as_str(), cause))
}

/// The error of a tool run that exited unsuccessfully: its exit code (-1
/// when it has none) and both outputs, trimmed.
pub fn tool_failure_error(tool: &str, target: &str, code: Option<i32>, stderr: &str, stdout: &str) -> (res: crate::tasks::AppError)
    ensures
        res matches crate::tasks::AppError::Task(m) && m@ == tool@ + " 执行失败 ["@ + target@ + "] (exit="@
            + crate::text::int_text(match code {
            Some(c) => c as int,
            None => -1,
        }) + "): stderr='"@ + crate::text::trim(stderr@) + "' stdout='"@ + crate::text::trim(stdout@)
            + "'"@,
{
    let c: i32 = match code {
        Some(c) => c,
        None => -1,
    };
    let code_text = crate::text::string_of(crate::text::int_text_exec(c as i64).as_slice());
    let err = crate::text::string_of(crate::text::trim_str(stderr).as_slice());
    let out = crate::text::string_of(crate::text::trim_str(stdout).as_slice());
    let a = crate::text::join_str(tool, " 执行失败 [");
    let b = crate::text::join_str(a.as_str(), target);
    let d = crate::text::join_str(b.as_str(), "] (exit=");
    let e = crate::text::join_str(d.as_str(), code_text.as_str());
    let f = crate::text::join_str(e.as_str(), "): stderr='");
    let g = crate::text::join_str(f.as_str(), err.as_str());
    let h = crate::text::join_str(g.as_str(), "' stdout='");
    let i = crate::text::join_str(h.as_str(), out.as_str());
    crate::tasks::AppError::Task(crate::text::join_str(i.as_str(), "'"))
}

/// A sanitised file name has the target's length, holds none of `\`, `/`,
/// `:`, `*`, `?`, `"`, `<`, `>` and `|`, puts `_` where the target had one of
/// them and keeps every other character where it was.
pub proof fn law_sanitized_name(t: Seq<char>)
    ensures
        sanitized_name(t).len() == t.len(),
        forall|k: int|
            0 <= k < t.len() ==> {
                let c = #[trigger] sanitized_name(t)[k];
                c != '\\' && c != '/' && c != ':' && c != '*' && c != '?' && c != '"' && c != '<' && c != '>'
                    && c != '|'
            },
        forall|k: int|
            0 <= k < t.len() ==> {
                let d = t[k];
                if d == '\\' || d == '/' || d == ':' || d == '*' || d == '?' || d == '"' || d == '<' || d == '>'
                    || d == '|' {
                    #[trigger] sanitized_name(t)[k] == '_'
                } else {
                    sanitized_name(t)[k] == d
                }
            },
{
}

/// Normalisation only rewrites values: it keeps exactly the fields there
/// were, and a field that no map names keeps its value. A value's own entry
/// is preferred to that of its lower-case form, which counts only with the
/// fallback.
pub proof fn law_normalization_rewrites_values(
    m: Map<Seq<char>, Seq<char>>,
    maps: Seq<(Seq<char>, Seq<(Seq<char>, Seq<char>)>)>,
    fallback: bool,
    nm: Seq<(Seq<char>, Seq<char>)>,
    cur: Seq<char>,
)
    ensures
        normalized_fields(m, maps, fallback).dom() == m.dom(),
        forall|k: Seq<char>|
            m.contains_key(k) && (forall|j: int| 0 <= j < maps.len() ==> (#[trigger] maps[j]).0 != k)
                ==> #[trigger] normalized_fields(m, maps, fallback)[k] == m[k],
        pair_lookup(nm, cur) is Some ==> replacement(nm, cur, fallback) == pair_lookup(nm, cur),
        pair_lookup(nm, cur) is None && !fallback ==> replacement(nm, cur, fallback) is None,
    decreases maps.len(),
{
    if maps.len() > 0 {
        let prev = maps.drop_last();
        law_normalization_rewrites_values(m, prev, fallback, nm, cur);
        let m1 = normalized_fields(m, prev, fallback);
        let (field, nmap) = maps.last();
        if m1.contains_key(field) {
            if let Some(x) = replacement(nmap, m1[field], fallback) {
                assert(m1.insert(field, x).dom() =~= m1.dom());
            }
        }
        assert forall|k: Seq<char>|
            m.contains_key(k) && (forall|j: int| 0 <= j < maps.len() ==> (#[trigger] maps[j]).0 != k)
                implies #[trigger] normalized_fields(m, maps, fallback)[k] == m[k] by {
            assert(maps[maps.len() - 1].0 != k);
            assert forall|j: int| 0 <= j < prev.len() implies (#[trigger] prev[j]).0 != k by {
                assert(prev[j] == maps[j]);
            }
        }
    }
}

} // verus!
