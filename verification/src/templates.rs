//! The template store: which template directory is in effect, and how a
//! sync request changes the settings and records its outcome.
use vstd::prelude::*;
use crate::config::{non_empty, non_empty_string, opt_view, NucleiTemplatesConfig};
use crate::tasks::AppError;
use crate::text::{join_str, owned, trim, trim_str};

verus! {

/// A snapshot of the template settings and of the last sync.
#[derive(Debug, Clone)]
pub struct NucleiTemplatesStatus {
    /// `local`, `cache` or `none`.
    pub source: String,
    pub configured_local_path: String,
    pub effective_path: String,
    pub repo_url: String,
    pub cache_path: String,
    /// Time of the last successful sync, in Unix seconds (0 when none).
    pub last_sync_unix: i64,
    pub last_error: String,
    pub sync_supported: bool,
}

/// The template settings and the outcome of the last sync.
#[derive(Debug, Clone)]
pub struct TemplatesState {
    pub local_path: Option<String>,
    pub cache_path: String,
    pub repo_url: String,
    pub last_sync_unix: i64,
    pub last_error: Option<String>,
}

/// `raw` trimmed, unless nothing is left.
pub fn trimmed_non_empty(raw: String) -> (res: Option<String>)
    ensures
        opt_view(res) == non_empty(raw@),
{
    non_empty_string(raw.as_str())
}

/// The directory in effect: the local one when it exists, else the cache
/// when it exists, else none (empty path).
pub open spec fn status_of(s: TemplatesState, local_is_dir: bool, cache_is_dir: bool, st: NucleiTemplatesStatus) -> bool {
    &&& if s.local_path is Some && local_is_dir {
        st.source@ == "local"@ && st.effective_path@ == s.local_path->0@
    } else if cache_is_dir {
        st.source@ == "cache"@ && st.effective_path@ == s.cache_path@
    } else {
        st.source@ == "none"@ && st.effective_path@.len() == 0
    }
    &&& st.configured_local_path@ == match s.local_path {
        Some(l) => l@,
        None => Seq::<char>::empty(),
    }
    &&& st.repo_url == s.repo_url
    &&& st.cache_path == s.cache_path
    &&& st.last_sync_unix == s.last_sync_unix
    &&& st.last_error@ == match s.last_error {
        Some(e) => e@,
        None => Seq::<char>::empty(),
    }
    &&& st.sync_supported
}

/// The settings after a sync request: the local directory cleared when
/// asked, else replaced by a non-blank one; a non-blank repository replaces
/// the current one; the rest unchanged.
pub open spec fn applied_rel(
    a: TemplatesState,
    local: Option<Seq<char>>,
    repo: Option<Seq<char>>,
    clear: bool,
    b: TemplatesState,
) -> bool {
    &&& opt_view(b.local_path) == if clear {
        None
    } else {
        match local {
            Some(l) if non_empty(l) is Some => non_empty(l),
            _ => opt_view(a.local_path),
        }
    }
    &&& b.repo_url@ == match repo {
        Some(r) if non_empty(r) is Some => non_empty(r)->0,
        _ => a.repo_url@,
    }
    &&& b.cache_path == a.cache_path
    &&& b.last_sync_unix == a.last_sync_unix
    &&& b.last_error == a.last_error
}

/// Checking for a local directory in use: settled exactly when one is set
/// and exists, which clears the last error; nothing else changes.
pub open spec fn settled_rel(a: TemplatesState, local_is_dir: bool, settled: bool, b: TemplatesState) -> bool {
    &&& settled == (a.local_path is Some && local_is_dir)
    &&& b.last_error == if settled {
        None
    } else {
        a.last_error
    }
    &&& b.local_path == a.local_path
    &&& b.cache_path == a.cache_path
    &&& b.repo_url == a.repo_url
    &&& b.last_sync_unix == a.last_sync_unix
}

/// A git sync that succeeded at `now`.
pub open spec fn success_rel(a: TemplatesState, now: i64, b: TemplatesState) -> bool {
    &&& b.last_sync_unix == now
    &&& b.last_error is None
    &&& b.local_path == a.local_path
    &&& b.cache_path == a.cache_path
    &&& b.repo_url == a.repo_url
}

/// A git sync that failed with `error`.
pub open spec fn failure_rel(a: TemplatesState, error: Seq<char>, b: TemplatesState) -> bool {
    &&& opt_view(b.last_error) == Some(error)
    &&& b.last_sync_unix == a.last_sync_unix
    &&& b.local_path == a.local_path
    &&& b.cache_path == a.cache_path
    &&& b.repo_url == a.repo_url
}

/// A whole sync: the request's settings are applied; when the (new) local
/// directory is set and exists, no git runs and the last error is cleared;
/// otherwise git syncs the cache from the (new) repository, and the outcome
/// is recorded: the sync time and no error on success, the error (and the
/// old sync time) on failure. The cache directory never changes.
pub proof fn law_whole_sync(
    s0: TemplatesState,
    local: Option<Seq<char>>,
    repo: Option<Seq<char>>,
    clear: bool,
    s1: TemplatesState,
    local_is_dir: bool,
    settled: bool,
    s2: TemplatesState,
    git: Option<Result<i64, Seq<char>>>,
    s3: TemplatesState,
)
    requires
        applied_rel(s0, local, repo, clear, s1),
        settled_rel(s1, local_is_dir, settled, s2),
        settled ==> git is None && s3 == s2,
        !settled ==> git is Some,
        git matches Some(Ok(now)) ==> success_rel(s2, now, s3),
        git matches Some(Err(e)) ==> failure_rel(s2, e, s3),
    ensures
        settled <==> (opt_view(s1.local_path) is Some && local_is_dir),
        opt_view(s3.local_path) == opt_view(s1.local_path),
        s3.repo_url == s1.repo_url,
        s3.cache_path == s0.cache_path,
        settled ==> s3.last_error is None && s3.last_sync_unix == s0.last_sync_unix,
        git matches Some(Ok(now)) ==> s3.last_error is None && s3.last_sync_unix == now,
        git matches Some(Err(e)) ==> opt_view(s3.last_error) == Some(e) && s3.last_sync_unix == s0.last_sync_unix,
        clear ==> s3.local_path is None,
{
}

impl TemplatesState {
    /// The settings of a configuration, never synced.
    pub fn new(config: NucleiTemplatesConfig) -> (res: Self)
        ensures
            res.local_path == config.local_path,
            res.cache_path == config.cache_path,
            res.repo_url == config.repo_url,
            res.last_sync_unix == 0,
            res.last_error is None,
    {
        TemplatesState {
            local_path: config.local_path,
            cache_path: config.cache_path,
            repo_url: config.repo_url,
            last_sync_unix: 0,
            last_error: None,
        }
    }

    /// The status, given whether the local directory (when set) and the
    /// cache directory exist.
    pub fn status(&self, local_is_dir: bool, cache_is_dir: bool) -> (res: NucleiTemplatesStatus)
        ensures
            status_of(*self, local_is_dir, cache_is_dir, res),
    {
        let (source, effective) = match &self.local_path {
            Some(l) if local_is_dir => (owned("local"), owned(l.as_str())),
            _ => if cache_is_dir {
                (owned("cache"), owned(self.cache_path.as_str()))
            } else {
                (owned("none"), String::new())
            },
        };
        NucleiTemplatesStatus {
            source,
            configured_local_path: match &self.local_path {
                Some(l) => owned(l.as_str()),
                None => String::new(),
            },
            effective_path: effective,
            repo_url: self.repo_url.clone(),
            cache_path: self.cache_path.clone(),
            last_sync_unix: self.last_sync_unix,
            last_error: match &self.last_error {
                Some(e) => owned(e.as_str()),
                None => String::new(),
            },
            sync_supported: true,
        }
    }

    /// Applies the settings of a sync request: the local directory is
    /// cleared when asked, else replaced by a non-blank one; a non-blank
    /// repository replaces the current one.
    pub fn apply_sync_request(&mut self, local_path: Option<String>, repo_url: Option<String>, clear_local_path: bool)
        ensures
            applied_rel(*old(self), opt_view(local_path), opt_view(repo_url), clear_local_path, *final(self)),
            opt_view(final(self).local_path) == if clear_local_path {
                None
            } else {
                match local_path {
                    Some(l) if non_empty(l@) is Some => non_empty(l@),
                    _ => opt_view(old(self).local_path),
                }
            },
            final(self).repo_url@ == match repo_url {
                Some(r) if non_empty(r@) is Some => non_empty(r@)->0,
                _ => old(self).repo_url@,
            },
            final(self).cache_path == old(self).cache_path,
            final(self).last_sync_unix == old(self).last_sync_unix,
            final(self).last_error == old(self).last_error,
    {
        if clear_local_path {
            self.local_path = None;
        } else {
            match local_path {
                Some(l) => match trimmed_non_empty(l) {
                    Some(t) => {
                        self.local_path = Some(t);
                    },
                    None => {},
                },
                None => {},
            }
        }
        match repo_url {
            Some(r) => match trimmed_non_empty(r) {
                Some(t) => {
                    self.repo_url = t;
                },
                None => {},
            },
            None => {},
        }
    }

    /// When the local directory is set and exists there is nothing to sync:
    /// the last error is cleared. Whether that was so.
    pub fn settle_local(&mut self, local_is_dir: bool) -> (res: bool)
        ensures
            settled_rel(*old(self), local_is_dir, res, *final(self)),
            res == (old(self).local_path is Some && local_is_dir),
            res ==> final(self).last_error is None,
            !res ==> final(self).last_error == old(self).last_error,
            final(self).local_path == old(self).local_path,
            final(self).cache_path == old(self).cache_path,
            final(self).repo_url == old(self).repo_url,
            final(self).last_sync_unix == old(self).last_sync_unix,
    {
        if self.local_path.is_some() && local_is_dir {
            self.last_error = None;
            true
        } else {
            false
        }
    }

    /// Records a successful sync at `now` (Unix seconds).
    pub fn record_sync_success(&mut self, now: i64)
        ensures
            success_rel(*old(self), now, *final(self)),
            final(self).last_sync_unix == now,
            final(self).last_error is None,
            final(self).local_path == old(self).local_path,
            final(self).cache_path == old(self).cache_path,
            final(self).repo_url == old(self).repo_url,
    {
        self.last_sync_unix = now;
        self.last_error = None;
    }

    /// Records a failed sync; the error is also what the request answers.
    pub fn record_sync_failure(&mut self, error: String) -> (res: AppError)
        ensures
            failure_rel(*old(self), error@, *final(self)),
            opt_view(final(self).last_error) == Some(error@),
            final(self).last_sync_unix == old(self).last_sync_unix,
            final(self).local_path == old(self).local_path,
            final(self).cache_path == old(self).cache_path,
            final(self).repo_url == old(self).repo_url,
            res == AppError::Task(res->Task_0) && res->Task_0@ == error@,
    {
        let e = owned(error.as_str());
        self.last_error = Some(error);
        AppError::Task(e)
    }
}

/// The directory in effect, if any.
pub fn effective_template_dir(status: &NucleiTemplatesStatus) -> (res: Option<String>)
    ensures
        opt_view(res) == if status.effective_path@.len() == 0 {
            None
        } else {
            Some(status.effective_path@)
        },
{
    if crate::text::chars_of(status.effective_path.as_str()).len() == 0 {
        None
    } else {
        Some(owned(status.effective_path.as_str()))
    }
}

/// A sync after which the status shows the local directory: whatever the
/// last error was, a sync request that finds the local directory in place
/// leaves no error and the local directory in effect.
pub proof fn law_local_directory_wins(s: TemplatesState, cache_is_dir: bool, st: NucleiTemplatesStatus)
    requires
        s.local_path is Some,
        s.last_error is None,
        status_of(s, true, cache_is_dir, st),
    ensures
        st.source@ == "local"@,
        st.effective_path@ == s.local_path->0@,
        st.last_error@.len() == 0,
{
}

/// The git arguments of a sync: a fast-forward pull in the cache when it is
/// already a repository, else a shallow clone of the repository into it.
pub open spec fn git_sync_args_of(is_git_repo: bool, repo_url: Seq<char>, cache_path: Seq<char>) -> Seq<Seq<char>> {
    if is_git_repo {
        seq!["-C"@, cache_path, "pull"@, "--ff-only"@]
    } else {
        seq!["clone"@, "--depth"@, "1"@, repo_url, cache_path]
    }
}

/// The git arguments of a sync.
pub fn git_sync_args(is_git_repo: bool, repo_url: &str, cache_path: &str) -> (res: Vec<String>)
    ensures
        crate::text::views(res@) == git_sync_args_of(is_git_repo, repo_url@, cache_path@),
{
    let mut v: Vec<String> = Vec::new();
    if is_git_repo {
        v.push(owned("-C"));
        v.push(owned(cache_path));
        v.push(owned("pull"));
        v.push(owned("--ff-only"));
    } else {
        v.push(owned("clone"));
        v.push(owned("--depth"));
        v.push(owned("1"));
        v.push(owned(repo_url));
        v.push(owned(cache_path));
    }
    assert(crate::text::views(v@) =~= git_sync_args_of(is_git_repo, repo_url@, cache_path@));
    v
}

/// The error of a failed git run, with its trimmed output.
pub fn sync_failure_message(stderr: &str, stdout: &str) -> (res: String)
    ensures
        res@ == "同步 nuclei templates 失败: stderr='"@ + trim(stderr@) + "' stdout='"@ + trim(stdout@) + "'"@,
{
    let e = crate::text::string_of(trim_str(stderr).as_slice());
    let o = crate::text::string_of(trim_str(stdout).as_slice());
    let a = join_str("同步 nuclei templates 失败: stderr='", e.as_str());
    let b = join_str(a.as_str(), "' stdout='");
    let c = join_str(b.as_str(), o.as_str());
    join_str(c.as_str(), "'")
}

/// The error when git cannot be run: with the reason when it could not be
/// started, without when it ran and failed.
pub fn git_unavailable(reason: Option<&str>) -> (res: AppError)
    ensures
        res == AppError::Task(res->Task_0),
        res->Task_0@ == match reason {
            Some(r) => "git 不可用，无法同步 nuclei templates: "@ + r@,
            None => "git 不可用，无法同步 nuclei templates"@,
        },
{
    match reason {
        Some(r) => AppError::Task(join_str("git 不可用，无法同步 nuclei templates: ", r)),
        None => AppError::Task(owned("git 不可用，无法同步 nuclei templates")),
    }
}

/// A cache that is already a repository is brought up to date in place by
/// a fast-forward pull and never cloned again; any other cache gets a
/// shallow clone of the repository, and only a clone names the repository.
pub proof fn law_git_sync_args(is_git_repo: bool, repo_url: Seq<char>, cache_path: Seq<char>)
    ensures
        is_git_repo ==> git_sync_args_of(is_git_repo, repo_url, cache_path) == seq![
            "-C"@,
            cache_path,
            "pull"@,
            "--ff-only"@,
        ],
        !is_git_repo ==> git_sync_args_of(is_git_repo, repo_url, cache_path)[0] == "clone"@
            && git_sync_args_of(is_git_repo, repo_url, cache_path)[1] == "--depth"@ && git_sync_args_of(
            is_git_repo,
            repo_url,
            cache_path,
        )[2] == "1"@ && git_sync_args_of(is_git_repo, repo_url, cache_path)[3] == repo_url
            && git_sync_args_of(is_git_repo, repo_url, cache_path)[4] == cache_path,
{
}

/// The templates in effect come from the local directory when one is set
/// and exists, else from the cache when it exists, else from nowhere; the
/// three sources are told apart by name, and only the first two give a
/// path.
pub proof fn law_template_source_precedence(
    s: TemplatesState,
    local_is_dir: bool,
    cache_is_dir: bool,
    st: NucleiTemplatesStatus,
)
    requires
        status_of(s, local_is_dir, cache_is_dir, st),
    ensures
        (s.local_path is Some && local_is_dir) ==> st.source@ == "local"@ && st.effective_path@
            == s.local_path->0@,
        !(s.local_path is Some && local_is_dir) && cache_is_dir ==> st.source@ == "cache"@ && st.effective_path@
            == s.cache_path@,
        !(s.local_path is Some && local_is_dir) && !cache_is_dir ==> st.source@ == "none"@
            && st.effective_path@.len() == 0,
        st.source@ == "none"@ ==> !cache_is_dir && !(s.local_path is Some && local_is_dir),
{
    reveal_strlit("local");
    reveal_strlit("cache");
    reveal_strlit("none");
    assert("none"@.len() != "local"@.len() && "none"@.len() != "cache"@.len());
}

} // verus!
