//! Nuclei-style templates: their structure, and the small rules that read
//! conditions and severities out of them.
use vstd::prelude::*;
use crate::text::{
    chars_of, eq_ignore_ascii_case, eq_ignore_ascii_case_exec, eq_str, to_lowercase,
    unicode_lower,
};

verus! {

/// A template: an identifier, descriptive information and HTTP requests.
#[derive(Debug, Clone)]
pub struct NucleiTemplate {
    pub id: String,
    pub info: TemplateInfo,
    pub http: Vec<HttpRequest>,
}

/// Descriptive information of a template.
#[derive(Debug, Clone)]
pub struct TemplateInfo {
    pub name: String,
    /// Severity (info, low, medium, high or critical).
    pub severity: String,
    pub description: Option<String>,
    /// Comma-separated tags.
    pub tags: Option<String>,
    pub author: Option<String>,
    pub reference: Vec<String>,
    pub metadata: Option<TemplateMetadata>,
}

/// Further metadata of a template.
#[derive(Debug, Clone)]
pub struct TemplateMetadata {
    pub verified: Option<bool>,
    pub max_request: Option<u32>,
    pub vendor: Option<String>,
    pub product: Option<String>,
}

/// One HTTP request of a template, with the matchers and extractors that
/// read its response.
#[derive(Debug, Clone)]
pub struct HttpRequest {
    pub method: Option<String>,
    pub path: Vec<String>,
    pub raw: Vec<String>,
    pub headers: Vec<(String, String)>,
    pub body: Option<String>,
    pub matchers_condition: Option<String>,
    pub matchers: Option<Vec<Matcher>>,
    pub extractors: Option<Vec<Extractor>>,
    pub stop_at_first_match: Option<bool>,
    pub redirects: Option<bool>,
    pub host_redirects: Option<bool>,
    pub max_redirects: Option<usize>,
}

/// A condition (`and` / `or`) compares equal to `word`, ignoring ASCII case;
/// a missing condition counts as `default`.
pub open spec fn condition_is(c: Option<String>, word: Seq<char>, default: bool) -> bool {
    match c {
        Some(s) => eq_ignore_ascii_case(s@, word),
        None => default,
    }
}

fn condition_is_exec(c: &Option<String>, word: &str, default: bool) -> (res: bool)
    ensures
        res == condition_is(*c, word@, default),
{
    match c {
        Some(s) => {
            let a = chars_of(s.as_str());
            let b = chars_of(word);
            eq_ignore_ascii_case_exec(a.as_slice(), b.as_slice())
        },
        None => default,
    }
}

impl HttpRequest {
    /// The matchers must all hold (`and`); `false` when no condition is given.
    pub fn matchers_condition_and(&self) -> (res: bool)
        ensures
            res == condition_is(self.matchers_condition, "and"@, false),
    {
        condition_is_exec(&self.matchers_condition, "and", false)
    }

    /// One matcher suffices (`or`); `true` when no condition is given.
    pub fn matchers_condition_or(&self) -> (res: bool)
        ensures
            res == condition_is(self.matchers_condition, "or"@, true),
    {
        condition_is_exec(&self.matchers_condition, "or", true)
    }

    /// Whether the request is given as raw HTTP text.
    pub fn has_raw(&self) -> (res: bool)
        ensures
            res == (self.raw@.len() > 0),
    {
        self.raw.len() > 0
    }

    /// Whether the request names an HTTP method.
    pub fn has_named_method(&self) -> (res: bool)
        ensures
            res == (self.method is Some),
    {
        self.method.is_some()
    }

    /// The raw requests when there are any, else the paths.
    pub fn effective_paths(&self) -> (res: &[String])
        ensures
            res@ == (if self.raw@.len() > 0 {
                self.raw@
            } else {
                self.path@
            }),
    {
        if self.has_raw() {
            self.raw.as_slice()
        } else {
            self.path.as_slice()
        }
    }
}

/// A check on a response: words, regular expressions, status codes, size or
/// DSL expressions.
#[derive(Debug, Clone)]
pub struct Matcher {
    /// `word`, `regex`, `status`, `size` or `dsl`.
    pub matcher_type: String,
    /// The part of the response to look at (`body`, `header`, `all`, ...).
    pub part: Option<String>,
    pub words: Option<Vec<String>>,
    pub regex: Option<Vec<String>>,
    pub status: Option<Vec<u16>>,
    pub dsl: Option<Vec<String>>,
    /// How the individual checks combine (`and` / `or`).
    pub condition: Option<String>,
    pub negative: Option<bool>,
    pub case_insensitive: Option<bool>,
}

impl Matcher {
    /// The checks must all hold (`and`); `false` when no condition is given.
    pub fn condition_and(&self) -> (res: bool)
        ensures
            res == condition_is(self.condition, "and"@, false),
    {
        condition_is_exec(&self.condition, "and", false)
    }

    /// One check suffices (`or`); `true` when no condition is given.
    pub fn condition_or(&self) -> (res: bool)
        ensures
            res == condition_is(self.condition, "or"@, true),
    {
        condition_is_exec(&self.condition, "or", true)
    }

    /// Whether the outcome is inverted.
    pub fn is_negative(&self) -> (res: bool)
        ensures
            res == (self.negative == Some(true)),
    {
        match self.negative {
            Some(b) => b,
            None => false,
        }
    }

    /// Whether words compare without regard to case.
    pub fn is_case_insensitive(&self) -> (res: bool)
        ensures
            res == (self.case_insensitive == Some(true)),
    {
        match self.case_insensitive {
            Some(b) => b,
            None => false,
        }
    }
}

/// Extracts values from a response: by regular expression, JSON or
/// `key: value` lines.
#[derive(Debug, Clone)]
pub struct Extractor {
    /// `regex`, `json` or `kval`.
    pub extractor_type: String,
    pub name: Option<String>,
    pub regex: Option<Vec<String>>,
    pub json: Option<Vec<String>>,
    pub part: Option<String>,
    pub group: Option<u32>,
}

/// A template that matched a target.
#[derive(Debug, Clone)]
pub struct MatchResult {
    pub template_id: String,
    pub name: String,
    pub severity: String,
    /// The request target that matched.
    pub matched_at: String,
    pub matcher_name: Option<String>,
    /// Extracted values by extractor name.
    pub extractors: Vec<(String, Vec<String>)>,
    pub detail: String,
}

/// Which templates to run: by identifier, tags and minimum severity.
#[derive(Debug, Clone)]
pub struct TemplateFilter {
    pub severity_min: Option<String>,
    /// Tags every selected template must carry.
    pub tags_include: Vec<String>,
    /// Tags no selected template may carry.
    pub tags_exclude: Vec<String>,
    /// Template identifiers; when given, they alone decide.
    pub template_ids: Option<Vec<String>>,
}

impl Default for TemplateFilter {
    fn default() -> (res: TemplateFilter)
        ensures
            res.severity_min is None,
            res.tags_include@.len() == 0,
            res.tags_exclude@.len() == 0,
            res.template_ids is None,
    {
        TemplateFilter {
            severity_min: None,
            tags_include: Vec::new(),
            tags_exclude: Vec::new(),
            template_ids: None,
        }
    }
}

/// The canonical severity name of a lower-cased severity string.
pub open spec fn normalized_of_lower(l: Seq<char>) -> Seq<char> {
    if l == "critical"@ {
        "critical"@
    } else if l == "high"@ {
        "high"@
    } else if l == "medium"@ {
        "medium"@
    } else if l == "low"@ {
        "low"@
    } else {
        "info"@
    }
}

/// The canonical severity name of a severity string.
pub open spec fn normalized_severity(severity: Seq<char>) -> Seq<char> {
    normalized_of_lower(unicode_lower(severity))
}

/// Weight of a lower-cased severity: critical 5, high 4, medium 3, low 2,
/// info 1, other 0.
pub open spec fn rank_of_lower(l: Seq<char>) -> int {
    if l == "critical"@ {
        5
    } else if l == "high"@ {
        4
    } else if l == "medium"@ {
        3
    } else if l == "low"@ {
        2
    } else if l == "info"@ || l == "informational"@ || l == "unknown"@ {
        1
    } else {
        0
    }
}

/// Weight of a severity: critical 5, high 4, medium 3, low 2, info 1, other 0.
pub open spec fn severity_rank(severity: Seq<char>) -> int {
    rank_of_lower(unicode_lower(severity))
}

/// The canonical name of a severity; anything unrecognised counts as `info`.
pub fn normalize_severity(severity: &str) -> (res: &'static str)
    ensures
        res@ == normalized_severity(severity@),
        crate::text::all_ascii(severity@) ==> res@ == normalized_of_lower(crate::text::ascii_lower(severity@)),
{
    let lower = to_lowercase(severity);
    let l = chars_of(lower.as_str());
    if eq_str(l.as_slice(), "critical") {
        "critical"
    } else if eq_str(l.as_slice(), "high") {
        "high"
    } else if eq_str(l.as_slice(), "medium") {
        "medium"
    } else if eq_str(l.as_slice(), "low") {
        "low"
    } else {
        "info"
    }
}

/// Weight of a severity (critical 5, high 4, medium 3, low 2, info 1, other 0).
pub fn severity_weight(severity: &str) -> (res: u8)
    ensures
        res as int == severity_rank(severity@),
        crate::text::all_ascii(severity@) ==> res as int == rank_of_lower(crate::text::ascii_lower(severity@)),
{
    let lower = to_lowercase(severity);
    let l = chars_of(lower.as_str());
    if eq_str(l.as_slice(), "critical") {
        5
    } else if eq_str(l.as_slice(), "high") {
        4
    } else if eq_str(l.as_slice(), "medium") {
        3
    } else if eq_str(l.as_slice(), "low") {
        2
    } else if eq_str(l.as_slice(), "info") || eq_str(l.as_slice(), "informational") || eq_str(
        l.as_slice(),
        "unknown",
    ) {
        1
    } else {
        0
    }
}

/// Normalising a severity keeps its weight when it is a known level and
/// lifts anything unrecognised to `info`: the canonical name is ASCII, and
/// its weight is the larger of the original weight and one.
pub proof fn law_normalizing_keeps_rank(severity: Seq<char>)
    ensures
        crate::text::all_ascii(normalized_severity(severity)),
        rank_of_lower(crate::text::ascii_lower(normalized_severity(severity))) == if severity_rank(severity) >= 1 {
            severity_rank(severity)
        } else {
            1
        },
{
    reveal_strlit("critical");
    reveal_strlit("high");
    reveal_strlit("medium");
    reveal_strlit("low");
    reveal_strlit("info");
    reveal_strlit("informational");
    reveal_strlit("unknown");
    let n = normalized_severity(severity);
    assert(crate::text::ascii_lower(n) =~= n);
    assert("info"@[0] != "high"@[0]);
    assert("info"@.len() != "critical"@.len() && "info"@.len() != "medium"@.len() && "info"@.len()
        != "low"@.len());
    assert("high"@.len() != "critical"@.len());
    assert("medium"@.len() != "critical"@.len() && "medium"@.len() != "high"@.len());
    assert("low"@.len() != "critical"@.len() && "low"@.len() != "high"@.len() && "low"@.len()
        != "medium"@.len());
}

/// Severity weights form the fixed ladder critical 5 > high 4 > medium 3 >
/// low 2 > info 1 (informational and unknown count as info), and any other
/// name weighs 0.
pub proof fn law_severity_ladder(l: Seq<char>)
    ensures
        rank_of_lower("critical"@) == 5,
        rank_of_lower("high"@) == 4,
        rank_of_lower("medium"@) == 3,
        rank_of_lower("low"@) == 2,
        rank_of_lower("info"@) == 1,
        rank_of_lower("informational"@) == 1,
        rank_of_lower("unknown"@) == 1,
        rank_of_lower("critical"@) > rank_of_lower("high"@) > rank_of_lower("medium"@) > rank_of_lower("low"@)
            > rank_of_lower("info"@) > 0,
        0 <= rank_of_lower(l) <= 5,
        rank_of_lower(l) == 5 <==> l == "critical"@,
        rank_of_lower(l) == 4 <==> l == "high"@,
        rank_of_lower(l) == 0 <==> !(l == "critical"@ || l == "high"@ || l == "medium"@ || l == "low"@ || l
            == "info"@ || l == "informational"@ || l == "unknown"@),
{
    reveal_strlit("critical");
    reveal_strlit("high");
    reveal_strlit("medium");
    reveal_strlit("low");
    reveal_strlit("info");
    reveal_strlit("informational");
    reveal_strlit("unknown");
    assert("info"@[0] != "high"@[0]);
    assert("critical"@.len() != "high"@.len() && "critical"@.len() != "medium"@.len() && "critical"@.len()
        != "low"@.len() && "critical"@.len() != "info"@.len() && "critical"@.len() != "informational"@.len()
        && "critical"@.len() != "unknown"@.len());
    assert("high"@.len() != "medium"@.len() && "high"@.len() != "low"@.len() && "high"@.len()
        != "informational"@.len() && "high"@.len() != "unknown"@.len());
    assert("medium"@.len() != "low"@.len() && "medium"@.len() != "info"@.len() && "medium"@.len()
        != "informational"@.len());
    assert("medium"@[0] != "unknown"@[0]);
    assert("low"@.len() != "info"@.len() && "low"@.len() != "informational"@.len() && "low"@.len()
        != "unknown"@.len());
    assert("info"@.len() != "informational"@.len() && "info"@.len() != "unknown"@.len());
    assert("informational"@.len() != "unknown"@.len());
}

/// A condition is read without regard to ASCII case (`AND` is `and`); a
/// missing condition means `or`; a condition never means both `and` and
/// `or`.
pub proof fn law_conditions(c: Option<String>)
    ensures
        c is None ==> !condition_is(c, "and"@, false) && condition_is(c, "or"@, true),
        c matches Some(s) ==> (condition_is(c, "and"@, false) <==> crate::text::ascii_lower(s@) == "and"@),
        c matches Some(s) ==> (condition_is(c, "or"@, true) <==> crate::text::ascii_lower(s@) == "or"@),
        condition_is(c, "and"@, false) ==> !condition_is(c, "or"@, true),
{
    reveal_strlit("and");
    reveal_strlit("or");
    assert(crate::text::ascii_lower("and"@) =~= "and"@);
    assert(crate::text::ascii_lower("or"@) =~= "or"@);
}

} // verus!
