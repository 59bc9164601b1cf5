//! Theme identity: a repository and an optional branch.

use vstd::prelude::*;

verus! {

/// The view of an optional string.
pub open spec fn opt_seq(o: Option<String>) -> Option<Seq<char>> {
    match o {
        Some(s) => Some(s@),
        None => None,
    }
}

/// The repository that marks an id as unknown.
pub open spec fn unknown_repo() -> Seq<char> {
    seq!['u', 'n', 'k', 'n', 'o', 'w', 'n']
}

/// Identity of a theme: the git repository it is hosted in and the branch, if any.
pub struct ThemeId {
    pub repo: String,
    pub branch: Option<String>,
}

/// The mathematical form of an id: repository and branch as text.
pub type IdView = (Seq<char>, Option<Seq<char>>);

impl View for ThemeId {
    type V = IdView;

    open spec fn view(&self) -> IdView {
        (self.repo@, opt_seq(self.branch))
    }
}

/// Two ids denote the same theme: both parts agree and neither repository is unknown.
pub open spec fn same_id(a: IdView, b: IdView) -> bool {
    &&& a.0 != unknown_repo()
    &&& b.0 != unknown_repo()
    &&& a == b
}

pub open spec fn same_theme(a: ThemeId, b: ThemeId) -> bool {
    same_id(a@, b@)
}

/// Printable form: the repository, followed by `@` and the branch when there is one.
pub open spec fn id_text(a: ThemeId) -> Seq<char> {
    match a.branch {
        Some(b) => a.repo@ + seq!['@'] + b@,
        None => a.repo@,
    }
}

/// A copy of an optional string.
pub fn copy_opt(o: &Option<String>) -> (r: Option<String>)
    ensures
        r == *o,
{
    match o {
        Some(s) => Some(s.clone()),
        None => None,
    }
}

/// An owned copy of an optional string slice.
pub fn own_opt(o: Option<&str>) -> (r: Option<String>)
    ensures
        opt_seq(r) == match o {
            Some(s) => Some(s@),
            None => None::<Seq<char>>,
        },
{
    match o {
        Some(s) => Some(s.to_owned()),
        None => None,
    }
}

/// Whether two optional strings hold the same text.
pub fn opt_eq(a: &Option<String>, b: &Option<String>) -> (r: bool)
    ensures
        r == (opt_seq(*a) == opt_seq(*b)),
{
    match a {
        Some(x) => match b {
            Some(y) => {
                let e = (*x == *y);
                e
            },
            None => false,
        },
        None => b.is_none(),
    }
}

impl ThemeId {
    pub fn new(repo: String, branch: Option<String>) -> (r: ThemeId)
        ensures
            r.repo == repo,
            r.branch == branch,
    {
        ThemeId { repo, branch }
    }

    /// Whether the repository is the unknown marker.
    pub fn is_unknown(&self) -> (r: bool)
        ensures
            r == (self.repo@ == unknown_repo()),
    {
        let u = String::from_str("unknown");
        proof {
            reveal_strlit("unknown");
            assert(u@ =~= unknown_repo());
        }
        self.repo == u
    }

    /// Equality of themes: an unknown id equals no id, itself as well.
    pub fn same_as(&self, other: &ThemeId) -> (r: bool)
        ensures
            r == same_theme(*self, *other),
    {
        if self.is_unknown() || other.is_unknown() {
            return false;
        }
        self.repo == other.repo && opt_eq(&self.branch, &other.branch)
    }

    /// The printable form: `repo` or `repo@branch`.
    pub fn to_string(&self) -> (r: String)
        ensures
            r@ == id_text(*self),
    {
        match &self.branch {
            Some(b) => {
                let mut s = self.repo.clone();
                s.append("@");
                s.append(b.as_str());
                proof {
                    reveal_strlit("@");
                }
                s
            },
            None => self.repo.clone(),
        }
    }
}

/// The id of the theme hosted in `repo` on `branch`.
pub fn create_theme_id(repo: &str, branch: Option<&str>) -> (r: ThemeId)
    ensures
        r.repo@ == repo@,
        opt_seq(r.branch) == match branch {
            Some(b) => Some(b@),
            None => None::<Seq<char>>,
        },
{
    ThemeId { repo: repo.to_owned(), branch: own_opt(branch) }
}

/// Ids made from repository and branch are equal exactly when both parts are, and an id whose
/// repository is unknown equals no id at all.
pub proof fn lemma_id_equality(x: ThemeId, y: ThemeId, r1: Seq<char>, b1: Option<Seq<char>>, r2: Seq<char>, b2: Option<Seq<char>>)
    requires
        x.repo@ == r1,
        opt_seq(x.branch) == b1,
        y.repo@ == r2,
        opt_seq(y.branch) == b2,
    ensures
        same_theme(x, y) <==> (r1 == r2 && b1 == b2 && r1 != unknown_repo()),
        r1 == unknown_repo() ==> forall|z: ThemeId| !same_theme(x, z) && !same_theme(z, x),
{
}

} // verus!
