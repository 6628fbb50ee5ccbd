//! Recording the template settings in the server's configuration file: the
//! file is read as a TOML document, its `[tools]` table gets the repository
//! and (or loses) the local directory, and the document is written back.
use vstd::prelude::*;
use toml::Value;
use crate::config::{non_empty, non_empty_string, opt_view};
use crate::text::{join_str, owned};

verus! {

/// A TOML value: floats and date-times are kept as their text,
/// tables as their entries.
#[derive(Debug)]
pub enum TomlValue {
    Text(String),
    Integer(i64),
    Float(String),
    Boolean(bool),
    Datetime(String),
    Array(Vec<TomlValue>),
    Table(Vec<(String, TomlValue)>),
}

#[verifier::external_type_specification]
#[verifier::external_body]
pub struct ExTomlValue(toml::Value);

/// The library's tree of a parsed TOML value, one node for each: floats
/// and date-times as the text their `Display` writes, tables in map order.
/// Nothing is stated of the result: the converted value is opaque here.
#[verifier::external_body]
fn toml_tree_of(v: &Value) -> (res: TomlValue) {
    match v {
        Value::String(s) => TomlValue::Text(s.clone()),
        Value::Integer(i) => TomlValue::Integer(*i),
        Value::Float(f) => TomlValue::Float(f.to_string()),
        Value::Boolean(b) => TomlValue::Boolean(*b),
        Value::Datetime(d) => TomlValue::Datetime(d.to_string()),
        Value::Array(a) => TomlValue::Array(a.iter().map(toml_tree_of).collect()),
        Value::Table(t) => TomlValue::Table(t.iter().map(|(k, x)| (k.clone(), toml_tree_of(x))).collect()),
    }
}

/// The TOML value of a leaf of the library's tree: float and date-time
/// texts are parsed back by their `FromStr`; none when one does not parse,
/// and for an array or a table. Nothing is stated of it: `toml::Value` is
/// opaque here.
#[verifier::external_body]
fn toml_leaf_of(v: &TomlValue) -> (res: Option<Value>) {
    match v {
        TomlValue::Text(s) => Some(Value::String(s.clone())),
        TomlValue::Integer(i) => Some(Value::Integer(*i)),
        TomlValue::Float(s) => s.parse().ok().map(Value::Float),
        TomlValue::Boolean(b) => Some(Value::Boolean(*b)),
        TomlValue::Datetime(s) => s.parse().ok().map(Value::Datetime),
        TomlValue::Array(_) | TomlValue::Table(_) => None,
    }
}

/// The TOML value of the library's tree, one node for each (leaves as
/// `toml_leaf_of` gives them); none when a leaf has none. Nothing is stated
/// of it: `toml::Value` is opaque here.
#[verifier::external_body]
fn toml_value_of(v: &TomlValue) -> (res: Option<Value>) {
    match v {
        TomlValue::Array(a) => a.iter().map(toml_value_of).collect::<Option<_>>().map(Value::Array),
        TomlValue::Table(t) => t.iter().map(|(k, x)| Some((k.clone(), toml_value_of(x)?))).collect::<Option<_>>().map(
            Value::Table,
        ),
        _ => toml_leaf_of(v),
    }
}

/// What the `toml` crate makes of a text: the document, or the error's
/// message.
pub uninterp spec fn toml_document(text: Seq<char>) -> Result<TomlValue, Seq<char>>;

/// `toml::from_str::<toml::Value>`; on failure, the error's message. The
/// outcome depends on the text alone.
#[verifier::external_body]
fn parse_toml(text: &str) -> (res: Result<TomlValue, String>)
    ensures
        match res {
            Ok(v) => toml_document(text@) == Ok::<TomlValue, Seq<char>>(v),
            Err(e) => toml_document(text@) == Err::<TomlValue, Seq<char>>(e@),
        },
{
    match toml::from_str::<toml::Value>(text) {
        Ok(v) => Ok(toml_tree_of(&v)),
        Err(e) => Err(e.to_string()),
    }
}

/// What `toml::to_string_pretty` writes for the TOML value of a document
/// (the text, or the error's message); none when a float or date-time text
/// of the document does not parse back.
pub uninterp spec fn toml_pretty(doc: TomlValue) -> Option<Result<Seq<char>, Seq<char>>>;

/// `toml::to_string_pretty` of the TOML value of a document; on failure,
/// the error's message; none when the document has no TOML value. The
/// outcome depends on the document alone.
#[verifier::external_body]
fn pretty_toml(doc: &TomlValue) -> (res: Option<Result<String, String>>)
    ensures
        match res {
            Some(Ok(t)) => toml_pretty(*doc) == Some(Ok::<Seq<char>, Seq<char>>(t@)),
            Some(Err(e)) => toml_pretty(*doc) == Some(Err::<Seq<char>, Seq<char>>(e@)),
            None => toml_pretty(*doc) is None,
        },
{
    toml_value_of(doc).map(|v| toml::to_string_pretty(&v).map_err(|e| e.to_string()))
}

// ---------------------------------------------------------------------------
// Editing tables
// ---------------------------------------------------------------------------

/// Position of the first entry with key `k`.
pub open spec fn key_index(t: Seq<(String, TomlValue)>, k: Seq<char>) -> Option<int>
    decreases t.len(),
{
    if t.len() == 0 {
        None
    } else {
        match key_index(t.drop_last(), k) {
            Some(i) => Some(i),
            None => if t.last().0@ == k {
                Some(t.len() - 1)
            } else {
                None
            },
        }
    }
}

proof fn lemma_key_index(t: Seq<(String, TomlValue)>, k: Seq<char>)
    ensures
        key_index(t, k) matches Some(i) ==> 0 <= i < t.len() && t[i].0@ == k,
    decreases t.len(),
{
    if t.len() > 0 {
        lemma_key_index(t.drop_last(), k);
    }
}

/// The table with `v` under `key`: the entry of that key keeps its place,
/// or a new entry goes last.
pub open spec fn put(t: Seq<(String, TomlValue)>, key: String, v: TomlValue) -> Seq<(String, TomlValue)> {
    match key_index(t, key@) {
        Some(i) => t.update(i, (t[i].0, v)),
        None => t.push((key, v)),
    }
}

/// The table without the entries of key `k`.
pub open spec fn without(t: Seq<(String, TomlValue)>, k: Seq<char>) -> Seq<(String, TomlValue)>
    decreases t.len(),
{
    if t.len() == 0 {
        Seq::empty()
    } else if t.last().0@ == k {
        without(t.drop_last(), k)
    } else {
        without(t.drop_last(), k).push(t.last())
    }
}

fn find_key(t: &Vec<(String, TomlValue)>, k: &str) -> (res: Option<usize>)
    ensures
        match res {
            Some(i) => key_index(t@, k@) == Some(i as int),
            None => key_index(t@, k@) is None,
        },
{
    let ks = owned(k);
    let mut i: usize = 0;
    assert(t@.take(0) =~= Seq::<(String, TomlValue)>::empty());
    while i < t.len()
        invariant
            i <= t@.len(),
            ks@ == k@,
            key_index(t@.take(i as int), k@) is None,
        decreases t@.len() - i,
    {
        proof {
            assert(t@.take(i + 1).drop_last() =~= t@.take(i as int));
        }
        if t[i].0 == ks {
            proof {
                assert(t@.take(i + 1).last() == t@[i as int]);
                lemma_key_index_prefix(t@, k@, i as int);
            }
            return Some(i);
        }
        i = i + 1;
    }
    assert(t@.take(i as int) =~= t@);
    None
}

proof fn lemma_key_index_prefix(t: Seq<(String, TomlValue)>, k: Seq<char>, i: int)
    requires
        0 <= i < t.len(),
        key_index(t.take(i), k) is None,
        t[i].0@ == k,
    ensures
        key_index(t, k) == Some(i),
    decreases t.len(),
{
    if i == t.len() - 1 {
        assert(t.drop_last() =~= t.take(i));
    } else {
        assert(t.drop_last().take(i) =~= t.take(i));
        lemma_key_index_prefix(t.drop_last(), k, i);
    }
}

fn put_exec(t: Vec<(String, TomlValue)>, key: String, v: TomlValue) -> (res: Vec<(String, TomlValue)>)
    ensures
        res@ == put(t@, key, v),
{
    let mut t = t;
    match find_key(&t, key.as_str()) {
        Some(i) => {
            proof {
                lemma_key_index(t@, key@);
            }
            let k = t[i].0.clone();
            t.set(i, (k, v));
        },
        None => {
            t.push((key, v));
        },
    }
    t
}

fn without_exec(t: Vec<(String, TomlValue)>, k: &str) -> (res: Vec<(String, TomlValue)>)
    ensures
        res@ == without(t@, k@),
{
    let ghost tv = t@;
    let total = t.len();
    let ks = owned(k);
    let mut t = t;
    let mut rest: Vec<(String, TomlValue)> = Vec::new();
    while t.len() > 0
        invariant
            t@ + rest@.reverse() == tv,
        decreases t@.len(),
    {
        let e = t.pop().unwrap();
        rest.push(e);
        proof {
            assert(t@ + rest@.reverse() =~= tv);
        }
    }
    assert(rest@.reverse() =~= tv);
    let mut out: Vec<(String, TomlValue)> = Vec::new();
    let mut n: usize = 0;
    assert(tv.take(0) =~= Seq::<(String, TomlValue)>::empty());
    while rest.len() > 0
        invariant
            ks@ == k@,
            n <= tv.len(),
            tv.len() == total,
            n + rest@.len() == tv.len(),
            rest@.reverse() == tv.skip(n as int),
            out@ == without(tv.take(n as int), k@),
        decreases rest@.len(),
    {
        let ghost before = rest@;
        let e = rest.pop().unwrap();
        proof {
            assert(before.reverse()[0] == e);
            assert(tv.skip(n as int)[0] == e);
            assert(rest@.reverse() =~= before.reverse().drop_first());
            assert(tv.skip(n as int + 1) =~= tv.skip(n as int).drop_first());
            assert(tv.take(n + 1).drop_last() =~= tv.take(n as int));
            assert(tv.take(n + 1).last() == e);
        }
        if !(e.0 == ks) {
            out.push(e);
        }
        n = n + 1;
    }
    assert(tv.skip(n as int).len() == 0);
    assert(tv.take(n as int) =~= tv);
    out
}

// ---------------------------------------------------------------------------
// The template settings
// ---------------------------------------------------------------------------

/// The entries of the `[tools]` value: its table's, or none when it is no
/// table.
pub open spec fn tools_entries(v: Option<TomlValue>) -> Seq<(String, TomlValue)> {
    match v {
        Some(TomlValue::Table(t)) => t@,
        _ => Seq::empty(),
    }
}

/// The `[tools]` entries after recording the settings: the repository set,
/// and the local directory set, or removed when there is none.
pub open spec fn tools_edited(
    base: Seq<(String, TomlValue)>,
    repo_key: String,
    repo: String,
    dir_key: String,
    local: Option<String>,
) -> Seq<(String, TomlValue)> {
    let t1 = put(base, repo_key, TomlValue::Text(repo));
    match local {
        Some(l) => put(t1, dir_key, TomlValue::Text(l)),
        None => without(t1, dir_key@),
    }
}

/// The value under `tools` in a table, if any.
pub open spec fn tools_value(root: Seq<(String, TomlValue)>) -> Option<TomlValue> {
    match key_index(root, "tools"@) {
        Some(i) => Some(root[i].1),
        None => None,
    }
}

/// `root2` is the top table `root` with the settings recorded in its
/// `[tools]` table, which is created (or replaces a value that is no
/// table) when needed.
pub open spec fn settings_recorded(
    root: Seq<(String, TomlValue)>,
    repo: String,
    local: Option<String>,
    root2: Seq<(String, TomlValue)>,
) -> bool {
    exists|tools_key: String, repo_key: String, dir_key: String, tools: Vec<(String, TomlValue)>|
        #![trigger put(root, tools_key, TomlValue::Table(tools)), tools_edited(tools_entries(tools_value(root)), repo_key, repo, dir_key, local)]
        {
            &&& tools_key@ == "tools"@
            &&& repo_key@ == "nuclei_templates_repo"@
            &&& dir_key@ == "nuclei_templates_dir"@
            &&& tools@ == tools_edited(
                tools_entries(tools_value(root)),
                repo_key,
                repo,
                dir_key,
                local,
            )
            &&& root2 == put(root, tools_key, TomlValue::Table(tools))
        }
}

/// The outcome of recording the settings in the top table `root`: the
/// table with the settings recorded, written out by `toml`, or the error of
/// writing it.
pub open spec fn recorded_outcome(
    root: Seq<(String, TomlValue)>,
    repo: Seq<char>,
    local: Option<Seq<char>>,
    res: Result<String, String>,
) -> bool {
    exists|repo_s: String, local_s: Option<String>, out: Vec<(String, TomlValue)>|
        #![trigger settings_recorded(root, repo_s, local_s, out@), toml_pretty(TomlValue::Table(out))]
        {
            &&& repo_s@ == repo
            &&& opt_view(local_s) == local
            &&& settings_recorded(root, repo_s, local_s, out@)
            &&& match toml_pretty(TomlValue::Table(out)) {
                Some(Ok(t)) => res matches Ok(x) && x@ == t,
                Some(Err(e)) => res matches Err(x) && x@ == "序列化配置失败: "@ + e,
                None => res matches Err(x) && x@ == "序列化配置失败: 数值或日期时间文本无效"@,
            }
        }
}

/// The configuration text after recording the template settings, given the
/// file's path (for messages) and its text when it exists: a blank
/// repository is refused; a text that is no TOML, or whose top level is no
/// table, is refused; otherwise the document with the settings recorded,
/// written out by `toml`.
pub open spec fn persisted_text(
    path: Seq<char>,
    existing: Option<Seq<char>>,
    local: Option<Seq<char>>,
    repo: Seq<char>,
    res: Result<String, String>,
) -> bool {
    match non_empty(repo) {
        None => res matches Err(m) && m@ == "nuclei templates repo 不能为空"@,
        Some(r) => {
            let root: Result<Seq<(String, TomlValue)>, Seq<char>> = match existing {
                Some(text) => match toml_document(text) {
                    Ok(TomlValue::Table(t)) => Ok(t@),
                    Ok(_) => Err("配置文件格式错误：顶层必须是 table"@),
                    Err(e) => Err("解析配置文件失败 "@ + path + ": "@ + e),
                },
                None => Ok(Seq::empty()),
            };
            match root {
                Err(m) => res matches Err(x) && x@ == m,
                Ok(root) => recorded_outcome(root, r, match local {
                    Some(l) => non_empty(l),
                    None => None,
                }, res),
            }
        },
    }
}

/// Records the template settings in a parsed top table: the repository in
/// its `[tools]` table, and the local directory there too, or removed when
/// there is none; `[tools]` is created, or replaces a value that is no
/// table, when needed.
pub fn record_template_settings(root: Vec<(String, TomlValue)>, repo: String, local: Option<String>) -> (res: Vec<
    (String, TomlValue),
>)
    ensures
        settings_recorded(root@, repo, local, res@),
{
    let ghost root0 = root@;
    let mut root = root;
    let idx = find_key(&root, "tools");
    let mut removed_key: Option<String> = None;
    let base: Vec<(String, TomlValue)> = match idx {
        Some(i) => {
            proof {
                lemma_key_index(root0, "tools"@);
            }
            let (k, old) = root.remove(i);
            removed_key = Some(k);
            match old {
                TomlValue::Table(t) => t,
                _ => Vec::new(),
            }
        },
        None => Vec::new(),
    };
    let ghost old_tools: Option<TomlValue> = tools_value(root0);
    assert(base@ == tools_entries(old_tools));
    let repo_key = owned("nuclei_templates_repo");
    let dir_key = owned("nuclei_templates_dir");
    let ghost rk = repo_key;
    let ghost dk = dir_key;
    let ghost repo0 = repo;
    let ghost local0 = local;
    let t1 = put_exec(base, repo_key, TomlValue::Text(repo));
    let tools = match local {
        Some(l) => put_exec(t1, dir_key, TomlValue::Text(l)),
        None => without_exec(t1, "nuclei_templates_dir"),
    };
    assert(tools@ == tools_edited(tools_entries(old_tools), rk, repo0, dk, local0));
    let tools_key = owned("tools");
    let ghost tv = TomlValue::Table(tools);
    match idx {
        Some(i) => {
            let k = match removed_key {
                Some(k) => k,
                None => tools_key,
            };
            let ghost kk = k;
            root.insert(i, (k, TomlValue::Table(tools)));
            proof {
                lemma_key_index(root0, "tools"@);
                assert(root@ =~= root0.update(i as int, (root0[i as int].0, tv)));
                assert(root@ == put(root0, kk, tv));
                assert(settings_recorded(root0, repo0, local0, root@)) by {
                    assert(put(root0, kk, TomlValue::Table(tools)) == root@);
                    assert(tools_edited(tools_entries(old_tools), rk, repo0, dk, local0) == tools@);
                }
            }
        },
        None => {
            let ghost kk = tools_key;
            root.push((tools_key, TomlValue::Table(tools)));
            proof {
                assert(root@ == put(root0, kk, tv));
                assert(settings_recorded(root0, repo0, local0, root@)) by {
                    assert(put(root0, kk, TomlValue::Table(tools)) == root@);
                    assert(tools_edited(tools_entries(old_tools), rk, repo0, dk, local0) == tools@);
                }
            }
        },
    }
    root
}

/// The configuration text with the template settings recorded: the
/// repository in `[tools]`, and the local directory there too, or removed
/// when there is none. `existing` is the file's text when the file exists;
/// `config_path` names it in messages.
pub fn persist_nuclei_templates_config(
    config_path: &str,
    existing: Option<&str>,
    local_path: Option<&str>,
    repo_url: &str,
) -> (res: Result<String, String>)
    ensures
        persisted_text(config_path@, match existing {
            Some(t) => Some(t@),
            None => None,
        }, match local_path {
            Some(l) => Some(l@),
            None => None,
        }, repo_url@, res),
{
    let repo = match non_empty_string(repo_url) {
        Some(r) => r,
        None => {
            return Err(owned("nuclei templates repo 不能为空"));
        },
    };
    let doc = match existing {
        Some(text) => match parse_toml(text) {
            Ok(d) => d,
            Err(e) => {
                let a = join_str("解析配置文件失败 ", config_path);
                let b = join_str(a.as_str(), ": ");
                return Err(join_str(b.as_str(), e.as_str()));
            },
        },
        None => TomlValue::Table(Vec::new()),
    };
    let root = match doc {
        TomlValue::Table(t) => t,
        _ => {
            return Err(owned("配置文件格式错误：顶层必须是 table"));
        },
    };
    let ghost root0 = root@;
    let local = match local_path {
        Some(l) => non_empty_string(l),
        None => None,
    };
    let ghost repo0 = repo;
    let ghost local0 = local;
    let root = record_template_settings(root, repo, local);
    let ghost rv = root;
    let new_doc = TomlValue::Table(root);
    let r = pretty_toml(&new_doc);
    let result = match r {
        Some(Ok(t)) => Ok(t),
        Some(Err(e)) => Err(join_str("序列化配置失败: ", e.as_str())),
        None => Err(owned("序列化配置失败: 数值或日期时间文本无效")),
    };
    proof {
        assert(new_doc == TomlValue::Table(rv));
        assert(recorded_outcome(root0, repo0@, opt_view(local0), result));
    }
    result
}

// ---------------------------------------------------------------------------
// What a recorded file reads back
// ---------------------------------------------------------------------------

/// The value under key `k`, if any.
pub open spec fn lookup(t: Seq<(String, TomlValue)>, k: Seq<char>) -> Option<TomlValue> {
    match key_index(t, k) {
        Some(i) => Some(t[i].1),
        None => None,
    }
}

proof fn lemma_key_index_same_keys(a: Seq<(String, TomlValue)>, b: Seq<(String, TomlValue)>, k: Seq<char>)
    requires
        a.len() == b.len(),
        forall|i: int| 0 <= i < a.len() ==> (#[trigger] a[i]).0@ == b[i].0@,
    ensures
        key_index(a, k) == key_index(b, k),
    decreases a.len(),
{
    if a.len() > 0 {
        lemma_key_index_same_keys(a.drop_last(), b.drop_last(), k);
    }
}

proof fn lemma_lookup_put(t: Seq<(String, TomlValue)>, key: String, v: TomlValue, k: Seq<char>)
    ensures
        lookup(put(t, key, v), k) == if k == key@ {
            Some(v)
        } else {
            lookup(t, k)
        },
{
    lemma_key_index(t, key@);
    lemma_key_index(t, k);
    match key_index(t, key@) {
        Some(i) => {
            let u = t.update(i, (t[i].0, v));
            lemma_key_index_same_keys(u, t, k);
            if k == key@ {
                assert(key_index(u, k) == Some(i));
            } else {
                lemma_key_index(t, k);
            }
        },
        None => {
            let u = t.push((key, v));
            assert(u.drop_last() =~= t);
            if k != key@ {
                if key_index(t, k) is None {
                    assert(key_index(u, k) is None);
                }
            }
        },
    }
}

proof fn lemma_lookup_without(t: Seq<(String, TomlValue)>, k0: Seq<char>, k: Seq<char>)
    ensures
        lookup(without(t, k0), k) == if k == k0 {
            None
        } else {
            lookup(t, k)
        },
    decreases t.len(),
{
    if t.len() > 0 {
        lemma_lookup_without(t.drop_last(), k0, k);
        let w = without(t.drop_last(), k0);
        lemma_key_index(w, k);
        lemma_key_index(t.drop_last(), k);
        if t.last().0@ != k0 {
            let w2 = w.push(t.last());
            assert(w2.drop_last() =~= w);
        }
    }
}

/// Recording the template settings leaves every other top-level entry as
/// it was, and the `[tools]` table then holds the repository, holds the
/// local directory exactly when one is given, and keeps its other entries.
pub proof fn law_recorded_settings_read_back(
    root: Seq<(String, TomlValue)>,
    repo: String,
    local: Option<String>,
    root2: Seq<(String, TomlValue)>,
)
    requires
        settings_recorded(root, repo, local, root2),
    ensures
        forall|k: Seq<char>| k != "tools"@ ==> #[trigger] lookup(root2, k) == lookup(root, k),
        lookup(root2, "tools"@) matches Some(TomlValue::Table(tools)) && {
            &&& lookup(tools@, "nuclei_templates_repo"@) == Some(TomlValue::Text(repo))
            &&& lookup(tools@, "nuclei_templates_dir"@) == match local {
                Some(l) => Some(TomlValue::Text(l)),
                None => None,
            }
            &&& forall|k: Seq<char>|
                k != "nuclei_templates_repo"@ && k != "nuclei_templates_dir"@ ==> #[trigger] lookup(tools@, k)
                    == lookup(tools_entries(tools_value(root)), k)
        },
{
    let (tools_key, repo_key, dir_key, tools) = choose|tools_key: String, repo_key: String, dir_key: String, tools: Vec<(String, TomlValue)>|
        {
            &&& tools_key@ == "tools"@
            &&& repo_key@ == "nuclei_templates_repo"@
            &&& dir_key@ == "nuclei_templates_dir"@
            &&& tools@ == tools_edited(tools_entries(tools_value(root)), repo_key, repo, dir_key, local)
            &&& root2 == put(root, tools_key, TomlValue::Table(tools))
        };
    assert forall|k: Seq<char>| k != "tools"@ implies #[trigger] lookup(root2, k) == lookup(root, k) by {
        lemma_lookup_put(root, tools_key, TomlValue::Table(tools), k);
    }
    lemma_lookup_put(root, tools_key, TomlValue::Table(tools), "tools"@);
    let base = tools_entries(tools_value(root));
    let t1 = put(base, repo_key, TomlValue::Text(repo));
    reveal_strlit("nuclei_templates_repo");
    reveal_strlit("nuclei_templates_dir");
    assert("nuclei_templates_repo"@ != "nuclei_templates_dir"@) by {
        assert("nuclei_templates_repo"@.len() != "nuclei_templates_dir"@.len());
    }
    lemma_lookup_put(base, repo_key, TomlValue::Text(repo), "nuclei_templates_repo"@);
    lemma_lookup_put(base, repo_key, TomlValue::Text(repo), "nuclei_templates_dir"@);
    match local {
        Some(l) => {
            lemma_lookup_put(t1, dir_key, TomlValue::Text(l), "nuclei_templates_repo"@);
            lemma_lookup_put(t1, dir_key, TomlValue::Text(l), "nuclei_templates_dir"@);
            assert forall|k: Seq<char>|
                k != "nuclei_templates_repo"@ && k != "nuclei_templates_dir"@ implies #[trigger] lookup(tools@, k)
                    == lookup(base, k) by {
                lemma_lookup_put(t1, dir_key, TomlValue::Text(l), k);
                lemma_lookup_put(base, repo_key, TomlValue::Text(repo), k);
            }
        },
        None => {
            lemma_lookup_without(t1, "nuclei_templates_dir"@, "nuclei_templates_repo"@);
            lemma_lookup_without(t1, "nuclei_templates_dir"@, "nuclei_templates_dir"@);
            assert forall|k: Seq<char>|
                k != "nuclei_templates_repo"@ && k != "nuclei_templates_dir"@ implies #[trigger] lookup(tools@, k)
                    == lookup(base, k) by {
                lemma_lookup_without(t1, "nuclei_templates_dir"@, k);
                lemma_lookup_put(base, repo_key, TomlValue::Text(repo), k);
            }
        },
    }
}

} // verus!
