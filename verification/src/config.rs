//! Server configuration: how command-line arguments, environment variables
//! and the configuration file combine, and where the scanning tools are.
use vstd::prelude::*;
use crate::text::{chars_of, owned, split_whitespace_exec, split_ws, trim, trim_str, views};

verus! {

/// `raw` trimmed, unless nothing is left.
pub open spec fn non_empty(raw: Seq<char>) -> Option<Seq<char>> {
    if trim(raw).len() == 0 {
        None
    } else {
        Some(trim(raw))
    }
}

pub open spec fn opt_view(o: Option<String>) -> Option<Seq<char>> {
    match o {
        Some(s) => Some(s@),
        None => None,
    }
}

/// `raw` trimmed, unless nothing is left.
pub fn non_empty_string(raw: &str) -> (res: Option<String>)
    ensures
        opt_view(res) == non_empty(raw@),
{
    let t = trim_str(raw);
    if t.len() == 0 {
        None
    } else {
        Some(crate::text::string_of(t.as_slice()))
    }
}

/// The first of two optional settings that is set and not blank, trimmed.
pub open spec fn first_setting(a: Option<Seq<char>>, b: Option<Seq<char>>) -> Option<Seq<char>> {
    match a {
        Some(x) if non_empty(x) is Some => non_empty(x),
        _ => match b {
            Some(y) => non_empty(y),
            None => None,
        },
    }
}

fn first_setting_exec(a: &Option<String>, b: &Option<String>) -> (res: Option<String>)
    ensures
        opt_view(res) == first_setting(opt_view(*a), opt_view(*b)),
{
    match a {
        Some(x) => match non_empty_string(x.as_str()) {
            Some(v) => {
                return Some(v);
            },
            None => {},
        },
        None => {},
    }
    match b {
        Some(y) => non_empty_string(y.as_str()),
        None => None,
    }
}

// ---------------------------------------------------------------------------
// Tools
// ---------------------------------------------------------------------------

/// Whether a scanning tool can be used, where it came from and its path.
#[derive(Debug, Clone)]
pub struct ToolCapability {
    pub tool_id: String,
    pub available: bool,
    pub source: String,
    pub path: Option<String>,
}

/// Where a tool's executable was found (`env`, `config`, `system`), or
/// `missing`.
#[derive(Debug, Clone)]
pub struct BinaryResolution {
    pub path: Option<String>,
    pub source: String,
}

/// A configured executable: its trimmed path and whether it exists.
#[derive(Debug, Clone)]
pub struct BinaryCandidate {
    pub path: String,
    pub exists: bool,
}

/// The resolution of a tool: the environment's path when it exists, else
/// the configuration file's, else the one found on the search path, else
/// none.
pub open spec fn resolution(
    env: Option<BinaryCandidate>,
    config: Option<BinaryCandidate>,
    found: Option<String>,
) -> (Option<Seq<char>>, Seq<char>) {
    if env matches Some(c) && c.exists && c.path@.len() > 0 {
        (Some(env->0.path@), "env"@)
    } else if config matches Some(c) && c.exists && c.path@.len() > 0 {
        (Some(config->0.path@), "config"@)
    } else if found is Some {
        (Some(found->0@), "system"@)
    } else {
        (None, "missing"@)
    }
}

/// Chooses where a tool's executable is, from the candidates of the
/// environment and the configuration file and the search-path lookup.
pub fn resolve_binary(
    env: Option<BinaryCandidate>,
    config: Option<BinaryCandidate>,
    found: Option<String>,
) -> (res: BinaryResolution)
    ensures
        (opt_view(res.path), res.source@) == resolution(env, config, found),
{
    if let Some(c) = &env {
        if c.exists && chars_of(c.path.as_str()).len() > 0 {
            return BinaryResolution { path: Some(owned(c.path.as_str())), source: owned("env") };
        }
    }
    if let Some(c) = &config {
        if c.exists && chars_of(c.path.as_str()).len() > 0 {
            return BinaryResolution { path: Some(owned(c.path.as_str())), source: owned("config") };
        }
    }
    match found {
        Some(f) => BinaryResolution { path: Some(f), source: owned("system") },
        None => BinaryResolution { path: None, source: owned("missing") },
    }
}

/// `std::path::Path::is_absolute`: whether the text is an absolute path on
/// this platform. Which paths are absolute depends on the platform, so only
/// what holds on every one is stated: an absolute path has a root (on Unix
/// it starts with `/`; on Windows it has a prefix and a root, and every
/// prefix or root is written with `\` or `/`), so it holds a `/` or a `\`.
/// Which such texts count as absolute is left unsaid.
#[verifier::external_body]
fn is_absolute_path(p: &str) -> (res: bool)
    ensures
        res ==> crate::text::contains(p@, seq!['/']) || crate::text::contains(p@, seq!['\\']),
{
    std::path::Path::new(p).is_absolute()
}

/// Whether a candidate names a file by its path (absolute, or holding a
/// separator) rather than a program to look up on the search path.
pub fn names_path(candidate: &str) -> (res: bool)
    ensures
        res == (crate::text::contains(candidate@, seq!['/']) || crate::text::contains(
            candidate@,
            seq!['\\'],
        )),
{
    let c = chars_of(candidate);
    let slash = chars_of("/");
    let back = chars_of("\\");
    proof {
        reveal_strlit("/");
        reveal_strlit("\\");
        assert(slash@ =~= seq!['/']);
        assert(back@ =~= seq!['\\']);
    }
    is_absolute_path(candidate) || crate::text::contains_exec(c.as_slice(), back.as_slice())
        || crate::text::contains_exec(c.as_slice(), slash.as_slice())
}

/// Whether a candidate executable exists: one that names a path exists when
/// that path does; one that names a program exists when the search path
/// has it. The two lookups are the caller's.
pub fn executable_exists(candidate: &str, path_exists: bool, found_on_search_path: bool) -> (res: bool)
    ensures
        res == if crate::text::contains(candidate@, seq!['/']) || crate::text::contains(
            candidate@,
            seq!['\\'],
        ) {
            path_exists
        } else {
            found_on_search_path
        },
{
    if names_path(candidate) {
        path_exists
    } else {
        found_on_search_path
    }
}

// ---------------------------------------------------------------------------
// Nuclei templates configuration
// ---------------------------------------------------------------------------

/// Where templates come from: a local directory, a cache directory and the
/// repository to sync the cache from.
#[derive(Debug, Clone)]
pub struct NucleiTemplatesConfig {
    pub local_path: Option<String>,
    pub cache_path: String,
    pub repo_url: String,
}

/// The template settings to write: the repository, and the local directory
/// (removed when `None`).
#[derive(Debug, Clone)]
pub struct TemplatesSettingsEdit {
    pub repo_url: String,
    pub local_dir: Option<String>,
}

/// The edit that records new template settings; a blank repository is
/// refused.
pub fn templates_settings_edit(local_path: Option<&str>, repo_url: &str) -> (res: Result<TemplatesSettingsEdit, String>)
    ensures
        match res {
            Ok(e) => non_empty(repo_url@) == Some(e.repo_url@) && opt_view(e.local_dir) == match local_path {
                Some(l) => non_empty(l@),
                None => None,
            },
            Err(m) => non_empty(repo_url@) is None && m@ == "nuclei templates repo 不能为空"@,
        },
{
    let repo = match non_empty_string(repo_url) {
        Some(r) => r,
        None => {
            return Err(owned("nuclei templates repo 不能为空"));
        },
    };
    let local = match local_path {
        Some(l) => non_empty_string(l),
        None => None,
    };
    Ok(TemplatesSettingsEdit { repo_url: repo, local_dir: local })
}

// ---------------------------------------------------------------------------
// The configuration
// ---------------------------------------------------------------------------

/// The command-line arguments.
#[derive(Debug, Clone)]
pub struct CliArgs {
    pub ip: String,
    pub port: u16,
    pub tls: bool,
}

/// The `[tools]` section of the configuration file.
#[derive(Debug, Clone)]
pub struct ToolsSection {
    pub nmap_binary: Option<String>,
    pub nmap_args: Option<Vec<String>>,
    pub nmap_timeout_secs: Option<u64>,
    pub httpx_binary: Option<String>,
    pub nuclei_binary: Option<String>,
    pub fscan_binary: Option<String>,
    pub nuclei_templates_dir: Option<String>,
    pub nuclei_templates_cache_dir: Option<String>,
    pub nuclei_templates_repo: Option<String>,
}

/// The environment variables the server reads.
#[derive(Debug, Clone)]
pub struct ConfigEnv {
    pub nuclei_templates_dir: Option<String>,
    pub nuclei_templates_cache_dir: Option<String>,
    pub nuclei_templates_repo: Option<String>,
    pub nmap_args: Option<String>,
    pub nmap_timeout_secs: Option<String>,
}

/// Everything the configuration is made from: arguments, environment, file,
/// the base directory the projects directory lies in (the home directory
/// the environment names, else the platform's), the tools found, and
/// whether the configured local template directory exists.
#[derive(Debug, Clone)]
pub struct ConfigSources {
    pub cli: CliArgs,
    pub env: ConfigEnv,
    pub file: ToolsSection,
    pub base_dir: String,
    pub nmap: BinaryResolution,
    pub httpx: BinaryResolution,
    pub fscan: BinaryResolution,
    pub local_templates_is_dir: bool,
}

/// The server configuration.
#[derive(Debug, Clone)]
pub struct AppConfig {
    pub ip: String,
    pub port: u16,
    pub tls: bool,
    pub root_dir: String,
    pub certs_dir: String,
    pub tasks_dir: String,
    pub nmap_binary: Option<String>,
    pub nmap_default_args: Vec<String>,
    pub nmap_timeout_secs: u64,
    pub tool_capabilities: Vec<ToolCapability>,
    pub nuclei_templates: NucleiTemplatesConfig,
    pub nuclei_templates_dir: String,
}

/// The root of the server's files: `scanner-projects` under the base
/// directory.
pub open spec fn root_of(base: Seq<char>) -> Seq<char> {
    crate::text::path_join(base, "scanner-projects"@)
}

/// The root of the server's files under a base directory.
pub fn project_root(base: &str) -> (res: String)
    ensures
        res@ == root_of(base@),
{
    crate::text::path_join_exec(base, "scanner-projects")
}

/// The local template directory: the environment's, else the file's.
pub open spec fn templates_local(s: ConfigSources) -> Option<Seq<char>> {
    first_setting(opt_view(s.env.nuclei_templates_dir), opt_view(s.file.nuclei_templates_dir))
}

/// The template cache directory: the environment's, else the file's, else
/// the default under the root.
pub open spec fn templates_cache(s: ConfigSources) -> Seq<char> {
    match first_setting(opt_view(s.env.nuclei_templates_cache_dir), opt_view(s.file.nuclei_templates_cache_dir)) {
        Some(c) => c,
        None => crate::text::path_join(root_of(s.base_dir@), "nuclei-templates"@),
    }
}

/// The template repository: the environment's, else the file's, else the
/// public nuclei-templates repository.
pub open spec fn templates_repo(s: ConfigSources) -> Seq<char> {
    match first_setting(opt_view(s.env.nuclei_templates_repo), opt_view(s.file.nuclei_templates_repo)) {
        Some(c) => c,
        None => "https://github.com/projectdiscovery/nuclei-templates.git"@,
    }
}

/// The default nmap arguments.
pub open spec fn default_nmap_args() -> Seq<Seq<char>> {
    seq!["-n"@, "-Pn"@, "--open"@, "-sV"@]
}

/// The nmap arguments: the environment's words when it is set (even to
/// nothing), else the file's, else the defaults.
pub open spec fn nmap_args_of(s: ConfigSources) -> Seq<Seq<char>> {
    match s.env.nmap_args {
        Some(v) => split_ws(v@),
        None => match s.file.nmap_args {
            Some(a) => views(a@),
            None => default_nmap_args(),
        },
    }
}

/// The nmap timeout: the environment's when it parses, else the file's, else
/// 120 seconds.
pub open spec fn nmap_timeout_of(s: ConfigSources) -> u64 {
    let from_env = match s.env.nmap_timeout_secs {
        Some(v) => crate::text::parse_int(v@, 0, u64::MAX as int),
        None => None,
    };
    match from_env {
        Some(t) => t as u64,
        None => match s.file.nmap_timeout_secs {
            Some(t) => t,
            None => 120,
        },
    }
}

/// The capability of a tool found (or not) by a resolution.
pub open spec fn capability_from(c: ToolCapability, id: Seq<char>, r: BinaryResolution) -> bool {
    &&& c.tool_id@ == id
    &&& c.available == (r.path is Some)
    &&& c.source@ == r.source@
    &&& opt_view(c.path) == opt_view(r.path)
}

/// The capability of a built-in tool.
pub open spec fn builtin_capability(c: ToolCapability, id: Seq<char>) -> bool {
    &&& c.tool_id@ == id
    &&& c.available
    &&& c.source@ == "builtin"@
    &&& c.path is None
}

/// The configuration made from its sources.
pub open spec fn config_from(c: AppConfig, s: ConfigSources) -> bool {
    &&& c.ip == s.cli.ip
    &&& c.port == s.cli.port
    &&& c.tls == s.cli.tls
    &&& c.root_dir@ == root_of(s.base_dir@)
    &&& c.certs_dir@ == crate::text::path_join(root_of(s.base_dir@), "crts"@)
    &&& c.tasks_dir@ == crate::text::path_join(root_of(s.base_dir@), "tasks"@)
    &&& opt_view(c.nmap_binary) == opt_view(s.nmap.path)
    &&& views(c.nmap_default_args@) == nmap_args_of(s)
    &&& c.nmap_timeout_secs == nmap_timeout_of(s)
    &&& c.tool_capabilities@.len() == 5
    &&& builtin_capability(c.tool_capabilities@[0], "builtin_port_scan"@)
    &&& capability_from(c.tool_capabilities@[1], "nmap"@, s.nmap)
    &&& capability_from(c.tool_capabilities@[2], "httpx"@, s.httpx)
    &&& builtin_capability(c.tool_capabilities@[3], "nuclei"@)
    &&& capability_from(c.tool_capabilities@[4], "fscan"@, s.fscan)
    &&& opt_view(c.nuclei_templates.local_path) == templates_local(s)
    &&& c.nuclei_templates.cache_path@ == templates_cache(s)
    &&& c.nuclei_templates.repo_url@ == templates_repo(s)
    &&& c.nuclei_templates_dir@ == if templates_local(s) is Some && s.local_templates_is_dir {
        templates_local(s)->0
    } else {
        templates_cache(s)
    }
}

fn capability_of(id: &str, r: &BinaryResolution) -> (res: ToolCapability)
    ensures
        capability_from(res, id@, *r),
{
    ToolCapability {
        tool_id: owned(id),
        available: r.path.is_some(),
        source: owned(r.source.as_str()),
        path: match &r.path {
            Some(p) => Some(owned(p.as_str())),
            None => None,
        },
    }
}

fn builtin_capability_exec(id: &str) -> (res: ToolCapability)
    ensures
        builtin_capability(res, id@),
{
    ToolCapability { tool_id: owned(id), available: true, source: owned("builtin"), path: None }
}

fn nmap_args_exec(s: &ConfigSources) -> (res: Vec<String>)
    ensures
        views(res@) == nmap_args_of(*s),
{
    match &s.env.nmap_args {
        Some(v) => split_whitespace_exec(v.as_str()),
        None => match &s.file.nmap_args {
            Some(a) => crate::text::clone_strings(a.as_slice()),
            None => {
                let mut v: Vec<String> = Vec::new();
                v.push(owned("-n"));
                v.push(owned("-Pn"));
                v.push(owned("--open"));
                v.push(owned("-sV"));
                assert(views(v@) =~= default_nmap_args());
                v
            },
        },
    }
}

impl AppConfig {
    /// The configuration made from its sources: every setting from the
    /// environment when set, else from the configuration file, else its
    /// default.
    pub fn from_sources(s: &ConfigSources) -> (res: AppConfig)
        ensures
            config_from(res, *s),
    {
        let root = project_root(s.base_dir.as_str());
        let local = first_setting_exec(&s.env.nuclei_templates_dir, &s.file.nuclei_templates_dir);
        let cache = match first_setting_exec(&s.env.nuclei_templates_cache_dir, &s.file.nuclei_templates_cache_dir) {
            Some(c) => c,
            None => crate::text::path_join_exec(root.as_str(), "nuclei-templates"),
        };
        let repo = match first_setting_exec(&s.env.nuclei_templates_repo, &s.file.nuclei_templates_repo) {
            Some(c) => c,
            None => owned("https://github.com/projectdiscovery/nuclei-templates.git"),
        };
        let from_env: Option<u64> = match &s.env.nmap_timeout_secs {
            Some(v) => crate::text::parse_u64_exec(chars_of(v.as_str()).as_slice()),
            None => None,
        };
        let timeout: u64 = match from_env {
            Some(t) => t,
            None => match s.file.nmap_timeout_secs {
                Some(t) => t,
                None => 120,
            },
        };
        let mut caps: Vec<ToolCapability> = Vec::new();
        caps.push(builtin_capability_exec("builtin_port_scan"));
        caps.push(capability_of("nmap", &s.nmap));
        caps.push(capability_of("httpx", &s.httpx));
        caps.push(builtin_capability_exec("nuclei"));
        caps.push(capability_of("fscan", &s.fscan));
        let dir = match &local {
            Some(l) => if s.local_templates_is_dir {
                owned(l.as_str())
            } else {
                owned(cache.as_str())
            },
            None => owned(cache.as_str()),
        };
        AppConfig {
            ip: s.cli.ip.clone(),
            port: s.cli.port,
            tls: s.cli.tls,
            certs_dir: crate::text::path_join_exec(root.as_str(), "crts"),
            tasks_dir: crate::text::path_join_exec(root.as_str(), "tasks"),
            root_dir: root,
            nmap_binary: match &s.nmap.path {
                Some(p) => Some(owned(p.as_str())),
                None => None,
            },
            nmap_default_args: nmap_args_exec(s),
            nmap_timeout_secs: timeout,
            tool_capabilities: caps,
            nuclei_templates: NucleiTemplatesConfig { local_path: local, cache_path: cache, repo_url: repo },
            nuclei_templates_dir: dir,
        }
    }
}

/// Settings take the first source that gives a value: a set, non-blank
/// first setting wins, trimmed; a missing or blank one falls through to the
/// second. A tool's executable is the environment's when it exists, else the
/// configuration file's when it exists, else the one found on the search
/// path; a path is found exactly when the source is not `missing`.
pub proof fn law_settings_precedence(
    a: Option<Seq<char>>,
    b: Option<Seq<char>>,
    env: Option<BinaryCandidate>,
    config: Option<BinaryCandidate>,
    found: Option<String>,
)
    ensures
        (a matches Some(x) && trim(x).len() > 0) ==> first_setting(a, b) == Some(trim(a->0)),
        !(a matches Some(x) && trim(x).len() > 0) ==> first_setting(a, b) == match b {
            Some(y) => if trim(y).len() > 0 {
                Some(trim(y))
            } else {
                None
            },
            None => None,
        },
        (env matches Some(c) && c.exists && c.path@.len() > 0) ==> resolution(env, config, found) == (
            Some(env->0.path@),
            "env"@,
        ),
        !(env matches Some(c) && c.exists && c.path@.len() > 0) && (config matches Some(c) && c.exists
            && c.path@.len() > 0) ==> resolution(env, config, found) == (Some(config->0.path@), "config"@),
        !(env matches Some(c) && c.exists && c.path@.len() > 0) && !(config matches Some(c) && c.exists
            && c.path@.len() > 0) ==> resolution(env, config, found) == match found {
            Some(f) => (Some(f@), "system"@),
            None => (None::<Seq<char>>, "missing"@),
        },
        resolution(env, config, found).0 is Some <==> resolution(env, config, found).1 != "missing"@,
{
    reveal_strlit("env");
    reveal_strlit("config");
    reveal_strlit("system");
    reveal_strlit("missing");
    assert("missing"@.len() != "env"@.len() && "missing"@.len() != "config"@.len() && "missing"@.len()
        != "system"@.len());
}

/// nmap runs with `-n -Pn --open -sV` unless told otherwise, and waits 120
/// seconds unless the environment gives a number of seconds (which wins) or
/// the configuration file gives one.
pub proof fn law_nmap_defaults(s: ConfigSources, n: nat)
    requires
        n <= u64::MAX,
    ensures
        s.env.nmap_args is None && s.file.nmap_args is None ==> nmap_args_of(s) == seq![
            "-n"@,
            "-Pn"@,
            "--open"@,
            "-sV"@,
        ],
        s.env.nmap_timeout_secs is None && s.file.nmap_timeout_secs is None ==> nmap_timeout_of(s) == 120,
        s.env.nmap_timeout_secs is None && s.file.nmap_timeout_secs is Some ==> nmap_timeout_of(s)
            == s.file.nmap_timeout_secs->0,
        (s.env.nmap_timeout_secs matches Some(v) && v@ == crate::text::decimal(n)) ==> nmap_timeout_of(s) == n,
{
    if s.env.nmap_timeout_secs matches Some(v) && v@ == crate::text::decimal(n) {
        crate::text::law_decimal_reads_back(n);
        assert(crate::text::decimal(n)[0] != '+' && crate::text::decimal(n)[0] != '-') by {
            assert(crate::text::is_ascii_digit(crate::text::decimal(n)[0]));
        }
    }
}

} // verus!
