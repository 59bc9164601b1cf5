//! The cache of saved themes: `<cache_root>/themes/<slug>/`.

use vstd::prelude::*;
use vstd::string::*;
use crate::identity::{same_id, ThemeId};
use crate::manifest::Config;
use crate::text::{dot_separators, ends_with, is_separator, join, join_path, replace_where, seq_ends_with, slice};

verus! {

/// The host and the path of a URL as the `url` crate parses it; none when the text is no URL
/// or the URL has no host.
pub uninterp spec fn url_host_path(s: Seq<char>) -> Option<(Seq<char>, Seq<char>)>;

/// Relies on `url::Url::parse`, `Url::host_str` and `Url::path`: the host and the path of the
/// parsed URL, nothing when parsing fails or there is no host.
#[verifier::external_body]
fn url_parts(s: &str) -> (r: Option<(String, String)>)
    ensures
        match r {
            Some(p) => url_host_path(s@) == Some((p.0@, p.1@)),
            None => url_host_path(s@) is None,
        },
{
    let u = url::Url::parse(s).ok()?;
    let host = u.host_str()?.to_owned();
    Some((host, u.path().to_owned()))
}

pub open spec fn git_suffix() -> Seq<char> {
    ".git"@
}

/// `p` without a trailing `.git`.
pub open spec fn strip_git(p: Seq<char>) -> Seq<char> {
    if seq_ends_with(p, git_suffix()) {
        p.subrange(0, p.len() - 4)
    } else {
        p
    }
}

/// The slug of a theme: host, path without `.git` and, when present, the branch, joined by
/// `/`, with every path separator turned into a dot.
pub open spec fn slug_text(host: Seq<char>, path: Seq<char>, branch: Option<Seq<char>>) -> Seq<char> {
    replace_where(
        host + strip_git(path) + match branch {
            Some(b) => seq!['/'] + b,
            None => Seq::empty(),
        },
        |c: char| is_separator(c),
        '.',
    )
}

/// The slug of the theme hosted in `repo` on `branch`; none when `repo` is no URL with a host.
pub open spec fn repo_slug(repo: Seq<char>, branch: Option<Seq<char>>) -> Option<Seq<char>> {
    match url_host_path(repo) {
        Some(p) => Some(slug_text(p.0, p.1, branch)),
        None => None,
    }
}

pub open spec fn opt_str(o: Option<&str>) -> Option<Seq<char>> {
    match o {
        Some(s) => Some(s@),
        None => None,
    }
}

/// Why a cache operation could not be done.
pub enum CacheError {
    /// The repository is no URL with a host; holds the repository.
    InvalidUrl(String),
    /// `git clone` ended with a failure; holds the repository.
    DownloadFailed(String),
}

/// The slug made of a URL's host and path and a branch.
pub fn slug_from_parts(host: &str, path: &str, branch: Option<&str>) -> (r: String)
    ensures
        r@ == slug_text(host@, path@, opt_str(branch)),
{
    let mut joined = host.to_owned();
    if ends_with(path, ".git") {
        proof {
            reveal_strlit(".git");
        }
        let cut = slice(path, 0, path.unicode_len() - 4);
        joined.append(cut.as_str());
    } else {
        proof {
            reveal_strlit(".git");
        }
        joined.append(path);
    }
    match branch {
        Some(b) => {
            joined.append("/");
            joined.append(b);
            proof {
                reveal_strlit("/");
                assert(joined@ =~= host@ + strip_git(path@) + (seq!['/'] + b@));
            }
        },
        None => {
            proof {
                assert(joined@ =~= host@ + strip_git(path@) + Seq::<char>::empty());
            }
        },
    }
    dot_separators(joined.as_str())
}

/// The slug of the theme hosted in `repo` on `branch`.
pub fn cache_slug(repo: &str, branch: Option<&str>) -> (r: Result<String, CacheError>)
    ensures
        match repo_slug(repo@, opt_str(branch)) {
            Some(s) => r matches Ok(t) && t@ == s,
            None => r matches Err(CacheError::InvalidUrl(u)) && u@ == repo@,
        },
{
    match url_parts(repo) {
        Some(p) => Ok(slug_from_parts(p.0.as_str(), p.1.as_str(), branch)),
        None => Err(CacheError::InvalidUrl(repo.to_owned())),
    }
}

/// The slug is a function of repository and branch alone: the same pair always names the
/// same cache directory.
pub proof fn lemma_slug_is_function(r1: Seq<char>, b1: Option<Seq<char>>, r2: Seq<char>, b2: Option<Seq<char>>)
    requires
        r1 == r2,
        b1 == b2,
    ensures
        repo_slug(r1, b1) == repo_slug(r2, b2),
{
}

/// Characters that a sanitized name does not keep.
pub open spec fn unsafe_name_char(c: char) -> bool {
    c == ' ' || c == '_' || c == '.' || c == '/' || c == '\\' || c == ':' || c == '*' || c == '?'
        || c == '"' || c == '<' || c == '>' || c == '|'
}

/// `name` with each character unfit for a file name replaced by `-`.
pub fn sanitize_name(name: &str) -> (r: String)
    ensures
        r@ == replace_where(name@, |c: char| unsafe_name_char(c), '-'),
{
    let n = name.unicode_len();
    let mut r = String::new();
    let mut i: usize = 0;
    while i < n
        invariant
            n == name@.len(),
            i <= n,
            r@ == replace_where(name@.subrange(0, i as int), |c: char| unsafe_name_char(c), '-'),
        decreases n - i,
    {
        let c = name.get_char(i);
        if c == ' ' || c == '_' || c == '.' || c == '/' || c == '\\' || c == ':' || c == '*' || c
            == '?' || c == '"' || c == '<' || c == '>' || c == '|' {
            r.append("-");
            proof {
                reveal_strlit("-");
            }
        } else {
            r.append(name.substring_char(i, i + 1));
        }
        proof {
            assert(replace_where(name@.subrange(0, i + 1), |c: char| unsafe_name_char(c), '-') =~= replace_where(name@.subrange(0, i as int), |c: char| unsafe_name_char(c), '-').push(if unsafe_name_char(c) { '-' } else { c }));
        }
        i += 1;
        proof {
            assert(r@ =~= replace_where(name@.subrange(0, i as int), |c: char| unsafe_name_char(c), '-'));
        }
    }
    proof {
        assert(name@.subrange(0, n as int) =~= name@);
    }
    r
}

/// A theme in the cache: a checked-out repository with its manifest.
pub struct SavedTheme {
    /// The directory of the checked-out repository.
    pub path: String,
    /// The manifest file.
    pub config_path: String,
    pub config: Config,
}

impl SavedTheme {
    pub fn get_id(&self) -> (r: ThemeId)
        ensures
            r@ == self.config.get_id_spec(),
    {
        self.config.get_id()
    }
}

/// The index of the first saved theme whose id equals `id`.
pub fn find_saved(saved: &Vec<SavedTheme>, id: &ThemeId) -> (r: Option<usize>)
    ensures
        match r {
            Some(i) => i < saved@.len() && same_id(saved@[i as int].config.get_id_spec(), id@)
                && forall|j: int| 0 <= j < i ==> !same_id(#[trigger] saved@[j].config.get_id_spec(), id@),
            None => forall|j: int| 0 <= j < saved@.len() ==> !same_id(#[trigger] saved@[j].config.get_id_spec(), id@),
        },
{
    let mut i: usize = 0;
    while i < saved.len()
        invariant
            i <= saved@.len(),
            forall|j: int| 0 <= j < i ==> !same_id(#[trigger] saved@[j].config.get_id_spec(), id@),
        decreases saved@.len() - i,
    {
        if saved[i].get_id().same_as(id) {
            return Some(i);
        }
        i += 1;
    }
    None
}

/// Where a download goes and how it is made.
pub struct DownloadPlan {
    /// `<cache_root>/themes`, created when absent.
    pub themes_dir: String,
    /// The directory the repository is cloned into.
    pub dir: String,
    /// Arguments of `git`, run in `themes_dir`.
    pub git_args: Vec<String>,
}

/// The arguments of a shallow clone of `repo`, on `branch` when given, into `slug`.
pub open spec fn clone_args(repo: Seq<char>, branch: Option<Seq<char>>, slug: Seq<char>) -> Seq<Seq<char>> {
    seq!["clone"@, "--depth"@, "1"@] + match branch {
        Some(b) => seq!["--branch"@, b],
        None => Seq::empty(),
    } + seq![repo, slug]
}

/// Plans the download of the theme hosted in `repo` on `branch` into the cache at `cache_root`.
pub fn download_plan(cache_root: &str, repo: &str, branch: Option<&str>) -> (r: Result<DownloadPlan, CacheError>)
    ensures
        match repo_slug(repo@, opt_str(branch)) {
            Some(s) => r matches Ok(p) && {
                &&& p.themes_dir@ == join_path(cache_root@, "themes"@)
                &&& p.dir@ == join_path(join_path(cache_root@, "themes"@), s)
                &&& p.git_args@.map_values(|a: String| a@) == clone_args(repo@, opt_str(branch), s)
            },
            None => r matches Err(CacheError::InvalidUrl(u)) && u@ == repo@,
        },
{
    let slug = match cache_slug(repo, branch) {
        Ok(s) => s,
        Err(e) => return Err(e),
    };
    let themes_dir = join(cache_root, "themes");
    let dir = join(themes_dir.as_str(), slug.as_str());
    let mut git_args: Vec<String> = Vec::new();
    git_args.push("clone".to_owned());
    git_args.push("--depth".to_owned());
    git_args.push("1".to_owned());
    match branch {
        Some(b) => {
            git_args.push("--branch".to_owned());
            git_args.push(b.to_owned());
        },
        None => {},
    }
    git_args.push(repo.to_owned());
    git_args.push(slug.clone());
    proof {
        assert(git_args@.map_values(|a: String| a@) =~= clone_args(repo@, opt_str(branch), slug@));
    }
    Ok(DownloadPlan { themes_dir, dir, git_args })
}

} // verus!
