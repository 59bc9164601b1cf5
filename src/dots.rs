//! Selecting the dotfiles a placement rule copies, and where to.

use vstd::prelude::*;
use vstd::string::*;
use crate::identity::opt_seq;
use crate::manifest::ConfigLink;
use crate::text::{find_char, join, join_path, seq_starts_with, slice, starts_with, texts};

verus! {

/// Whether a glob set built of the single pattern `p` can be had, as `globset` judges it:
/// the pattern parses and its matcher builds.
pub uninterp spec fn glob_valid(p: Seq<char>) -> bool;

/// Whether `path` matches the glob set built of the single pattern `p`, as `globset` judges it.
pub uninterp spec fn glob_matches(p: Seq<char>, path: Seq<char>) -> bool;

/// `path` relative to `base`, as `pathdiff` computes it.
pub uninterp spec fn path_diff(path: Seq<char>, base: Seq<char>) -> Option<Seq<char>>;

/// Relies on `globset::Glob::new`, `GlobSetBuilder::add` and `GlobSetBuilder::build`: whether
/// a glob set of the single pattern builds.
#[verifier::external_body]
fn glob_compiles(p: &str) -> (r: bool)
    ensures
        r == glob_valid(p@),
{
    match globset::Glob::new(p) {
        Ok(g) => globset::GlobSetBuilder::new().add(g).build().is_ok(),
        Err(_) => false,
    }
}

/// Relies on `globset::Glob::new`, `GlobSetBuilder::build` and `GlobSet::is_match`: whether
/// `path` matches the glob set of the single pattern.
#[verifier::external_body]
fn glob_is_match(p: &str, path: &str) -> (r: bool)
    requires
        glob_valid(p@),
    ensures
        r == glob_matches(p@, path@),
{
    match globset::Glob::new(p) {
        Ok(g) => match globset::GlobSetBuilder::new().add(g).build() {
            Ok(set) => set.is_match(path),
            Err(_) => false,
        },
        Err(_) => false,
    }
}

/// Relies on `pathdiff::diff_paths`: `path` relative to `base`.
#[verifier::external_body]
fn relative_path(path: &str, base: &str) -> (r: Option<String>)
    ensures
        opt_seq(r) == path_diff(path@, base@),
{
    pathdiff::diff_paths(path, base).map(|p| p.to_string_lossy().into_owned())
}

/// Why placing a theme failed.
pub enum PlacementError {
    /// The compositor configuration subtree of the theme does not exist; holds its path.
    NoCompositorConfig(String),
    /// A path could not be handled; holds it.
    BadPath(String),
    /// A glob pattern does not compile; holds it.
    BadGlob(String),
    /// The theme's name holds characters outside the allowed set; holds the name.
    InvalidName(String),
    /// Copying failed; holds the source.
    CopyFailed(String),
    /// Deleting failed; holds the path.
    DeleteFailed(String),
    /// Writing failed; holds the path.
    WriteFailed(String),
}

/// Some pattern of `ps` matches `path`.
pub open spec fn any_glob(ps: Seq<Seq<char>>, path: Seq<char>) -> bool {
    exists|i: int| 0 <= i < ps.len() && glob_matches(#[trigger] ps[i], path)
}

/// The first pattern of `ps` that does not compile.
pub open spec fn first_invalid(ps: Seq<Seq<char>>, i: int) -> bool {
    0 <= i < ps.len() && !glob_valid(ps[i]) && forall|j: int| 0 <= j < i ==> glob_valid(#[trigger] ps[j])
}

/// `p` without a trailing `/`.
pub open spec fn trim_slash(p: Seq<char>) -> Seq<char> {
    if p.len() > 0 && p.last() == '/' {
        p.drop_last()
    } else {
        p
    }
}

/// The relative path `rel` lies in the subtree `loc`.
pub open spec fn lies_under(rel: Seq<char>, loc: Seq<char>) -> bool {
    rel == trim_slash(loc) || seq_starts_with(rel, trim_slash(loc) + seq!['/'])
}

/// The name of `e` when it is a direct child of the directory `root`.
pub open spec fn child_name(e: Seq<char>, root: Seq<char>) -> Option<Seq<char>> {
    let pre = trim_slash(root) + seq!['/'];
    let rest = e.subrange(pre.len() as int, e.len() as int);
    if seq_starts_with(e, pre) && rest.len() > 0 && forall|k: int| 0 <= k < rest.len() ==> rest[k] != '/' {
        Some(rest)
    } else {
        None
    }
}

/// What a rule does with one walked entry `e`: nothing, copy it somewhere, or fail on it.
pub open spec fn pick(
    e: Seq<char>,
    theme_dir: Seq<char>,
    root: Seq<char>,
    location: Seq<char>,
    ignore: Seq<Seq<char>>,
    readmit: Seq<Seq<char>>,
    dest: Seq<char>,
) -> Result<Option<(Seq<char>, Seq<char>)>, Seq<char>> {
    match path_diff(e, theme_dir) {
        None => Err(e),
        Some(rel) => if lies_under(rel, location) {
            Ok(None)
        } else if any_glob(ignore, rel) && !any_glob(readmit, rel) {
            Ok(None)
        } else {
            match child_name(e, root) {
                Some(n) => Ok(Some((e, join_path(dest, n)))),
                None => Ok(None),
            }
        },
    }
}

/// The copies a rule makes of the walked entries, or the first entry it fails on.
pub open spec fn picks(
    es: Seq<Seq<char>>,
    theme_dir: Seq<char>,
    root: Seq<char>,
    location: Seq<char>,
    ignore: Seq<Seq<char>>,
    readmit: Seq<Seq<char>>,
    dest: Seq<char>,
) -> Result<Seq<(Seq<char>, Seq<char>)>, Seq<char>>
    decreases es.len(),
{
    if es.len() == 0 {
        Ok(Seq::empty())
    } else {
        match picks(es.drop_last(), theme_dir, root, location, ignore, readmit, dest) {
            Err(e) => Err(e),
            Ok(v) => match pick(es.last(), theme_dir, root, location, ignore, readmit, dest) {
                Err(e) => Err(e),
                Ok(None) => Ok(v),
                Ok(Some(p)) => Ok(v.push(p)),
            },
        }
    }
}

/// Once the walk fails on an entry, it fails on that entry whatever follows.
proof fn lemma_picks_err_extends(
    es: Seq<Seq<char>>,
    k: int,
    theme_dir: Seq<char>,
    root: Seq<char>,
    location: Seq<char>,
    ignore: Seq<Seq<char>>,
    readmit: Seq<Seq<char>>,
    dest: Seq<char>,
)
    requires
        0 <= k <= es.len(),
        picks(es.subrange(0, k), theme_dir, root, location, ignore, readmit, dest) is Err,
    ensures
        picks(es, theme_dir, root, location, ignore, readmit, dest) == picks(es.subrange(0, k), theme_dir, root, location, ignore, readmit, dest),
    decreases es.len() - k,
{
    if k < es.len() {
        assert(es.drop_last().subrange(0, k) =~= es.subrange(0, k));
        lemma_picks_err_extends(es.drop_last(), k, theme_dir, root, location, ignore, readmit, dest);
    } else {
        assert(es.subrange(0, k) =~= es);
    }
}

/// The texts of a list of pairs of strings.
pub open spec fn pair_texts(v: Seq<(String, String)>) -> Seq<(Seq<char>, Seq<char>)> {
    v.map_values(|p: (String, String)| (p.0@, p.1@))
}

/// Whether the relative path `rel` lies in the subtree `loc`.
pub fn is_under(rel: &str, loc: &str) -> (r: bool)
    ensures
        r == lies_under(rel@, loc@),
{
    let n = loc.unicode_len();
    let base = if n > 0 && loc.get_char(n - 1) == '/' {
        slice(loc, 0, n - 1)
    } else {
        loc.to_owned()
    };
    proof {
        if n > 0 && loc@[n - 1] == '/' {
            assert(base@ =~= loc@.drop_last());
        }
        assert(base@ == trim_slash(loc@));
    }
    if rel.unicode_len() == base.unicode_len() && starts_with(rel, base.as_str()) {
        proof {
            assert(rel@ =~= base@);
        }
        return true;
    }
    let mut pre = base.clone();
    pre.append("/");
    proof {
        reveal_strlit("/");
        assert(pre@ =~= trim_slash(loc@) + seq!['/']);
        if rel@ == trim_slash(loc@) {
            assert(rel@.subrange(0, base@.len() as int) =~= rel@);
            assert(seq_starts_with(rel@, base@));
        }
    }
    starts_with(rel, pre.as_str())
}

/// The name of `e` when it is a direct child of the directory `root`.
pub fn child_of(e: &str, root: &str) -> (r: Option<String>)
    ensures
        opt_seq(r) == child_name(e@, root@),
{
    let n = root.unicode_len();
    let mut pre = if n > 0 && root.get_char(n - 1) == '/' {
        slice(root, 0, n - 1)
    } else {
        root.to_owned()
    };
    pre.append("/");
    proof {
        reveal_strlit("/");
        if n > 0 && root@[n - 1] == '/' {
            assert(pre@ =~= root@.drop_last() + seq!['/']);
        }
        assert(pre@ =~= trim_slash(root@) + seq!['/']);
    }
    if !starts_with(e, pre.as_str()) {
        return None;
    }
    let el = e.unicode_len();
    let pl = pre.unicode_len();
    let rest = slice(e, pl, el);
    if rest.unicode_len() == 0 {
        return None;
    }
    match find_char(rest.as_str(), '/') {
        Some(_) => None,
        None => Some(rest),
    }
}

/// Whether some pattern of `ps` matches `path`.
fn any_glob_matches(ps: &Vec<String>, path: &str) -> (r: bool)
    requires
        forall|i: int| 0 <= i < ps@.len() ==> glob_valid(#[trigger] ps@[i]@),
    ensures
        r == any_glob(texts(ps@), path@),
{
    let mut i: usize = 0;
    while i < ps.len()
        invariant
            i <= ps@.len(),
            forall|k: int| 0 <= k < ps@.len() ==> glob_valid(#[trigger] ps@[k]@),
            forall|j: int| 0 <= j < i ==> !glob_matches(#[trigger] texts(ps@)[j], path@),
        decreases ps@.len() - i,
    {
        if glob_is_match(ps[i].as_str(), path) {
            proof {
                assert(glob_matches(texts(ps@)[i as int], path@));
            }
            return true;
        }
        i += 1;
    }
    false
}

/// The first pattern of `ps` that does not compile, if any.
fn find_invalid(ps: &Vec<String>) -> (r: Option<usize>)
    ensures
        match r {
            Some(i) => first_invalid(texts(ps@), i as int),
            None => forall|i: int| 0 <= i < ps@.len() ==> glob_valid(#[trigger] ps@[i]@),
        },
{
    let mut i: usize = 0;
    while i < ps.len()
        invariant
            i <= ps@.len(),
            forall|j: int| 0 <= j < i ==> glob_valid(#[trigger] ps@[j]@),
        decreases ps@.len() - i,
    {
        if !glob_compiles(ps[i].as_str()) {
            proof {
                assert forall|j: int| 0 <= j < i implies glob_valid(#[trigger] texts(ps@)[j]) by {
                    assert(glob_valid(ps@[j]@));
                }
            }
            return Some(i);
        }
        i += 1;
    }
    None
}

/// Where a rule whose source is `from` and whose destination is `to` copies to, with `home`
/// as the home directory: `to` when given, with a leading `~` (alone or before `/`) replaced
/// by `home`; else `from` under `home`.
pub open spec fn destination_of(from: Seq<char>, to: Option<Seq<char>>, home: Seq<char>) -> Seq<char> {
    match to {
        Some(t) => if t.len() > 0 && t[0] == '~' && (t.len() == 1 || t[1] == '/') {
            home + t.subrange(1, t.len() as int)
        } else {
            t
        },
        None => home + seq!['/'] + from,
    }
}

/// Where a rule copies to, given the home directory.
pub fn rule_destination(rule: &ConfigLink, home: &str) -> (r: String)
    ensures
        r@ == destination_of(rule.from@, opt_seq(rule.to), home@),
{
    match &rule.to {
        Some(t) => {
            let n = t.as_str().unicode_len();
            if n > 0 && t.as_str().get_char(0) == '~' && (n == 1 || t.as_str().get_char(1) == '/') {
                let mut r = home.to_owned();
                let rest = slice(t.as_str(), 1, n);
                r.append(rest.as_str());
                r
            } else {
                t.clone()
            }
        },
        None => {
            let mut r = home.to_owned();
            r.append("/");
            r.append(rule.from.as_str());
            proof {
                reveal_strlit("/");
            }
            r
        },
    }
}

/// The top-level entries a rule copies, each with its destination. `entries` are the paths
/// walked under the rule's source in pre-order, `dest` is the rule's destination. An entry of
/// the compositor configuration subtree (`location`) is left to the compositor step; one that
/// an `ignore` pattern matches and no `readmit` pattern matches is left out. Patterns match
/// the path relative to the theme directory.
pub fn select_dots(rule: &ConfigLink, theme_dir: &str, location: &str, entries: &Vec<String>, dest: &str) -> (r: Result<Vec<(String, String)>, PlacementError>)
    ensures
        ({
            let all = texts(rule.ignore@) + texts(rule.readmit@);
            let root = join_path(theme_dir@, rule.from@);
            if exists|i: int| first_invalid(all, i) {
                r matches Err(PlacementError::BadGlob(p)) && exists|i: int| first_invalid(all, i) && all[i] == p@
            } else {
                match picks(texts(entries@), theme_dir@, root, location@, texts(rule.ignore@), texts(rule.readmit@), dest@) {
                    Ok(v) => r matches Ok(out) && pair_texts(out@) == v,
                    Err(e) => r matches Err(PlacementError::BadPath(p)) && p@ == e,
                }
            }
        }),
{
    let ghost all = texts(rule.ignore@) + texts(rule.readmit@);
    match find_invalid(&rule.ignore) {
        Some(i) => {
            proof {
                assert(first_invalid(all, i as int));
            }
            return Err(PlacementError::BadGlob(rule.ignore[i].clone()));
        },
        None => {},
    }
    match find_invalid(&rule.readmit) {
        Some(i) => {
            proof {
                let k = rule.ignore@.len() + i;
                assert(all[k] == texts(rule.readmit@)[i as int]);
                assert forall|j: int| 0 <= j < k implies glob_valid(#[trigger] all[j]) by {
                    if j < rule.ignore@.len() {
                        assert(all[j] == rule.ignore@[j]@);
                    } else {
                        assert(all[j] == rule.readmit@[j - rule.ignore@.len()]@);
                    }
                }
                assert(first_invalid(all, k));
            }
            return Err(PlacementError::BadGlob(rule.readmit[i].clone()));
        },
        None => {},
    }
    proof {
        assert forall|i: int| !first_invalid(all, i) by {
            if 0 <= i < all.len() {
                if i < rule.ignore@.len() {
                    assert(all[i] == rule.ignore@[i]@);
                } else {
                    assert(all[i] == rule.readmit@[i - rule.ignore@.len()]@);
                }
            }
        }
    }
    let root = join(theme_dir, rule.from.as_str());
    let ghost es = texts(entries@);
    let ghost ig = texts(rule.ignore@);
    let ghost ra = texts(rule.readmit@);
    let mut out: Vec<(String, String)> = Vec::new();
    let mut i: usize = 0;
    proof {
        assert(es.subrange(0, 0) =~= Seq::<Seq<char>>::empty());
        assert(pair_texts(out@) =~= Seq::<(Seq<char>, Seq<char>)>::empty());
    }
    while i < entries.len()
        invariant
            i <= entries@.len(),
            es == texts(entries@),
            ig == texts(rule.ignore@),
            ra == texts(rule.readmit@),
            root@ == join_path(theme_dir@, rule.from@),
            forall|k: int| 0 <= k < rule.ignore@.len() ==> glob_valid(#[trigger] rule.ignore@[k]@),
            forall|k: int| 0 <= k < rule.readmit@.len() ==> glob_valid(#[trigger] rule.readmit@[k]@),
            picks(es.subrange(0, i as int), theme_dir@, root@, location@, ig, ra, dest@) == Ok::<Seq<(Seq<char>, Seq<char>)>, Seq<char>>(pair_texts(out@)),
        decreases entries@.len() - i,
    {
        let e = entries[i].as_str();
        proof {
            assert(es.subrange(0, i + 1).drop_last() =~= es.subrange(0, i as int));
            assert(es.subrange(0, i + 1).last() == e@);
        }
        let rel = match relative_path(e, theme_dir) {
            Some(r) => r,
            None => {
                proof {
                    lemma_picks_err_extends(es, i + 1, theme_dir@, root@, location@, ig, ra, dest@);
                }
                return Err(PlacementError::BadPath(e.to_owned()));
            },
        };
        if is_under(rel.as_str(), location) {
            i += 1;
            continue;
        }
        if any_glob_matches(&rule.ignore, rel.as_str()) && !any_glob_matches(&rule.readmit, rel.as_str()) {
            i += 1;
            continue;
        }
        match child_of(e, root.as_str()) {
            Some(n) => {
                let to = join(dest, n.as_str());
                let ghost before = out@;
                out.push((e.to_owned(), to));
                proof {
                    assert(pair_texts(out@) =~= pair_texts(before).push((e@, join_path(dest@, n@))));
                }
            },
            None => {},
        }
        i += 1;
    }
    proof {
        assert(es.subrange(0, i as int) =~= es);
    }
    Ok(out)
}

} // verus!
