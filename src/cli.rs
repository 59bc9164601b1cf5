//! The six commands and the decisions the dispatcher makes for them.

use vstd::prelude::*;
use crate::cache::SavedTheme;
use crate::identity::{copy_opt, opt_seq, same_id, ThemeId};
use crate::registry::Item;
use crate::text::{find_char, first_index_of, slice};

verus! {

/// Options of `list`.
pub struct List {
    /// Show installed and saved themes.
    pub installed: bool,
    /// Show featured themes.
    pub online: bool,
    /// Keep installed themes among the featured ones.
    pub show_installed: bool,
}

impl List {
    /// The options in effect: asking for neither installed nor featured themes shows both.
    pub fn effective(&self) -> (r: List)
        ensures
            !self.installed && !self.online ==> r.installed && r.online,
            self.installed || self.online ==> r.installed == self.installed && r.online == self.online,
            r.show_installed == self.show_installed,
    {
        if !self.installed && !self.online {
            List { installed: true, online: true, show_installed: self.show_installed }
        } else {
            List { installed: self.installed, online: self.online, show_installed: self.show_installed }
        }
    }

    /// Whether featured themes already installed or saved are left out of the index listing.
    pub fn hides_known_online(&self) -> (r: bool)
        ensures
            r == !self.show_installed,
    {
        !self.show_installed
    }

    /// Whether a merged listing entry is shown under the options in effect: installed and
    /// saved themes when installed ones are asked for, featured themes when online ones are.
    pub fn shows(&self, item: &Item) -> (r: bool)
        ensures
            ({
                let inst = self.installed || !self.online;
                let onl = self.online || !self.installed;
                r == ((inst && (item.installed || item.saved)) || (onl && item.featured))
            }),
    {
        let e = self.effective();
        (e.installed && (item.installed || item.saved)) || (e.online && item.featured)
    }
}

/// Options of `install`.
pub struct InstallArgs {
    /// A theme id, a theme name, a git URL or a GitHub `author/repo`.
    pub name: String,
    /// The branch to install.
    pub branch: Option<String>,
    /// Install again over an installed theme.
    pub update: bool,
}

/// Options of `uninstall`.
pub struct UninstallArgs {}

/// Options of `update`.
pub struct UpdateArgs {
    /// The theme to update; the installed one when absent.
    pub theme_id: Option<String>,
}

/// Options of `remove`.
pub struct RemoveArgs {
    /// The saved theme to remove.
    pub theme_name: String,
    /// Remove it even though it is installed.
    pub force: bool,
}

/// Options of `clean`.
pub struct CleanAllArgs {}

/// What the user asked for.
pub enum CliCommands {
    List(List),
    Install(InstallArgs),
    Uninstall(UninstallArgs),
    Update(UpdateArgs),
    Remove(RemoveArgs),
    Clean(CleanAllArgs),
}

/// Directories and index URLs, with the command.
pub struct CliParser {
    pub hypr_dir: String,
    pub theme_dirs: Vec<String>,
    pub theme_urls: Vec<String>,
    pub commands: CliCommands,
}

/// How an install argument names a theme.
pub enum ThemeName {
    /// The name or id of a known theme.
    Featured(String),
    /// A git repository URL.
    Git(String),
    /// A GitHub repository as author and repository name.
    Github((String, String)),
}

/// Whether `text` matches the regular expression `pattern` without regard to case, as the
/// `regex` crate judges it; false when the pattern does not compile.
pub uninterp spec fn regex_match_ci(pattern: Seq<char>, text: Seq<char>) -> bool;

/// Relies on `regex::RegexBuilder` with `case_insensitive(true)` and `Regex::is_match`.
#[verifier::external_body]
fn regex_matches(pattern: &str, text: &str) -> (r: bool)
    ensures
        r == regex_match_ci(pattern@, text@),
{
    match regex::RegexBuilder::new(pattern).case_insensitive(true).build() {
        Ok(re) => re.is_match(text),
        Err(_) => false,
    }
}

/// GitHub short form: `author/repo`, each part letters and digits with single inner hyphens.
pub const GITHUB_PATTERN: &'static str = r"^[a-z\d](?:-?[a-z\d])*/[a-z\d](?:-?[a-z\d])*$";

/// The author part of a GitHub short form is at most 39 characters long.
pub const GITHUB_AUTHOR_PATTERN: &'static str = r"^[a-z\d-]{1,39}/";

/// A git repository URL ending in `.git`.
pub const GIT_URL_PATTERN: &'static str = r"^((git|ssh|http(s)?)|(git@[\w\.-]+))(:(//)?)([\w\.@:/\-~]+)(\.git)(/)?$";

pub open spec fn is_github_form(s: Seq<char>) -> bool {
    regex_match_ci(GITHUB_PATTERN@, s) && regex_match_ci(GITHUB_AUTHOR_PATTERN@, s)
}

pub open spec fn is_git_form(s: Seq<char>) -> bool {
    regex_match_ci(GIT_URL_PATTERN@, s)
}

impl ThemeName {
    /// Classifies an install argument: GitHub short form first, then git URL, else a name.
    pub fn parse(string: &str) -> (r: ThemeName)
        ensures
            match r {
                ThemeName::Github(p) => is_github_form(string@) && exists|i: int| first_index_of(string@, '/', i)
                    && p.0@ == string@.subrange(0, i) && p.1@ == string@.subrange(i + 1, string@.len() as int),
                ThemeName::Git(g) => !(is_github_form(string@) && string@.contains('/')) && is_git_form(string@) && g@ == string@,
                ThemeName::Featured(f) => !(is_github_form(string@) && string@.contains('/')) && !is_git_form(string@) && f@ == string@,
            },
    {
        let github = regex_matches(GITHUB_PATTERN, string) && regex_matches(GITHUB_AUTHOR_PATTERN, string);
        let git = regex_matches(GIT_URL_PATTERN, string);
        Self::from_matches(string, github, git)
    }

    /// Classifies `string`, given whether it matched the GitHub short form (`github`) and the
    /// git URL form (`git`): a short form holding a `/` splits at its first `/`; else a git URL
    /// is kept whole; else it is taken as a name.
    pub fn from_matches(string: &str, github: bool, git: bool) -> (r: ThemeName)
        ensures
            match r {
                ThemeName::Github(p) => github && exists|i: int| first_index_of(string@, '/', i)
                    && p.0@ == string@.subrange(0, i) && p.1@ == string@.subrange(i + 1, string@.len() as int),
                ThemeName::Git(g) => !(github && string@.contains('/')) && git && g@ == string@,
                ThemeName::Featured(f) => !(github && string@.contains('/')) && !git && f@ == string@,
            },
    {
        if github {
            match find_char(string, '/') {
                Some(i) => {
                    let n = string.unicode_len();
                    let author = slice(string, 0, i);
                    let repo = slice(string, i + 1, n);
                    return ThemeName::Github((author, repo));
                },
                None => {
                    proof {
                        assert(!string@.contains('/'));
                    }
                },
            }
        }
        if git {
            return ThemeName::Git(string.to_owned());
        }
        ThemeName::Featured(string.to_owned())
    }
}

/// The repository of a GitHub short form: `https://github.com/<author>/<repo>.git`. The
/// cache names a theme after the host and path of its URL, so the HTTPS form is used.
pub open spec fn github_url(author: Seq<char>, repo: Seq<char>) -> Seq<char> {
    "https://github.com/"@ + author + "/"@ + repo + ".git"@
}

/// The repository and branch `install` fetches. A name needs the theme it resolved to (`None`
/// when it resolved to none), whose branch applies unless one was given; a git URL is taken as
/// is; a GitHub short form becomes its URL.
pub fn install_target(name: &ThemeName, branch: Option<String>, resolved: Option<&Item>) -> (r: Option<(String, Option<String>)>)
    ensures
        match name {
            ThemeName::Featured(_) => match resolved {
                Some(it) => r matches Some(t) && t.0@ == it.repo@ && opt_seq(t.1) == (if branch is Some {
                    opt_seq(branch)
                } else {
                    opt_seq(it.branch)
                }),
                None => r is None,
            },
            ThemeName::Git(g) => r matches Some(t) && t.0@ == g@ && t.1 == branch,
            ThemeName::Github(p) => r matches Some(t) && t.0@ == github_url(p.0@, p.1@) && t.1 == branch,
        },
{
    match name {
        ThemeName::Featured(_) => match resolved {
            Some(it) => {
                let b = match branch {
                    Some(b) => Some(b),
                    None => copy_opt(&it.branch),
                };
                Some((it.repo.clone(), b))
            },
            None => None,
        },
        ThemeName::Git(g) => Some((g.clone(), branch)),
        ThemeName::Github(p) => {
            let mut u = "https://github.com/".to_owned();
            u.append(p.0.as_str());
            u.append("/");
            u.append(p.1.as_str());
            u.append(".git");
            proof {
                reveal_strlit("https://github.com/");
                reveal_strlit("/");
                reveal_strlit(".git");
                assert(u@ =~= github_url(p.0@, p.1@));
            }
            Some((u, branch))
        },
    }
}

/// Why a command refuses to act.
pub enum ConflictError {
    /// The theme is installed but no saved copy is left to place again; holds its name.
    AlreadyInstalled(String),
    /// The theme is installed, so its saved copy stays; holds its name.
    StillInstalled(String),
    /// The theme is not saved; holds its name.
    NotSaved(String),
}

/// What `install` does with a resolved theme.
pub enum InstallAction {
    /// Download it into the cache, then materialize it.
    Download,
    /// It is saved: materialize it.
    Materialize,
}

/// Decides `install` for a resolved theme. A saved theme is materialized, whether installed
/// or not: installing again overwrites the placed files, which is also how an interrupted
/// install is recovered. A theme that is not saved is downloaded first, except when it is
/// installed and no update was asked for: then there is no saved copy to place again, and the
/// install is refused.
pub fn install_action(item: &Item, update: bool) -> (r: Result<InstallAction, ConflictError>)
    ensures
        item.saved ==> r matches Ok(InstallAction::Materialize),
        !item.saved && item.installed && !update ==> (r matches Err(ConflictError::AlreadyInstalled(n)) && n@ == item.name@),
        !item.saved && !(item.installed && !update) ==> r matches Ok(InstallAction::Download),
{
    if item.saved {
        Ok(InstallAction::Materialize)
    } else if item.installed && !update {
        Err(ConflictError::AlreadyInstalled(item.name.clone()))
    } else {
        Ok(InstallAction::Download)
    }
}

/// Decides `remove` for a resolved theme: it must be saved, and not installed unless forced.
pub fn remove_allowed(item: &Item, force: bool) -> (r: Result<(), ConflictError>)
    ensures
        !item.saved ==> (r matches Err(ConflictError::NotSaved(n)) && n@ == item.name@),
        item.saved && item.installed && !force ==> (r matches Err(ConflictError::StillInstalled(n)) && n@ == item.name@),
        item.saved && !(item.installed && !force) ==> r is Ok,
{
    if !item.saved {
        Err(ConflictError::NotSaved(item.name.clone()))
    } else if item.installed && !force {
        Err(ConflictError::StillInstalled(item.name.clone()))
    } else {
        Ok(())
    }
}

/// The saved themes that `clean` removes: those that are not the installed theme, by index.
pub fn clean_targets(saved: &Vec<SavedTheme>, installed: &Option<ThemeId>) -> (r: Vec<usize>)
    ensures
        forall|k: int| 0 <= k < r@.len() ==> (#[trigger] r@[k]) < saved@.len(),
        forall|a: int, b: int| 0 <= a < b < r@.len() ==> r@[a] < r@[b],
        forall|i: int| 0 <= i < saved@.len() ==> (r@.contains(i as usize) <==> match installed {
            Some(id) => !same_id((#[trigger] saved@[i]).config.get_id_spec(), id@),
            None => true,
        }),
{
    let mut r: Vec<usize> = Vec::new();
    let mut i: usize = 0;
    while i < saved.len()
        invariant
            i <= saved@.len(),
            forall|k: int| 0 <= k < r@.len() ==> (#[trigger] r@[k]) < i,
            forall|a: int, b: int| 0 <= a < b < r@.len() ==> r@[a] < r@[b],
            forall|j: int| 0 <= j < i ==> (r@.contains(j as usize) <==> match installed {
                Some(id) => !same_id((#[trigger] saved@[j]).config.get_id_spec(), id@),
                None => true,
            }),
        decreases saved@.len() - i,
    {
        let keep = match installed {
            Some(id) => saved[i].get_id().same_as(id),
            None => false,
        };
        let ghost before = r@;
        if !keep {
            r.push(i);
        }
        proof {
            assert forall|j: int| 0 <= j < i + 1 implies (r@.contains(j as usize) <==> match installed {
                Some(id) => !same_id((#[trigger] saved@[j]).config.get_id_spec(), id@),
                None => true,
            }) by {
                if j < i {
                    if r@.contains(j as usize) && !before.contains(j as usize) {
                        let k = choose|k: int| 0 <= k < r@.len() && r@[k] == j as usize;
                        assert(k == before.len());
                    }
                    if before.contains(j as usize) {
                        let k = choose|k: int| 0 <= k < before.len() && before[k] == j as usize;
                        assert(r@[k] == j as usize);
                    }
                } else {
                    if !keep {
                        assert(r@[before.len() as int] == i);
                    } else {
                        if r@.contains(j as usize) {
                            let k = choose|k: int| 0 <= k < r@.len() && r@[k] == j as usize;
                            assert(before[k] < i);
                        }
                    }
                }
            }
        }
        i += 1;
    }
    r
}

} // verus!
