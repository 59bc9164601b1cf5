//! Themes of the older layout, which nest subthemes, and their name trees.

use vstd::prelude::*;
use vstd::string::*;
use crate::text::{find_char, first_index_of, slice, starts_with};

verus! {

/// A theme of the older layout: a `theme.toml` that may nest subthemes.
pub struct Theme {
    pub name: String,
    pub desc: String,
    pub author: String,
    pub git: String,
    pub version: String,
    pub subthemes: Vec<Theme>,
    /// Path of the subtheme used by default, names joined by `:`.
    pub default_subtheme: String,
    pub depends: Vec<String>,
}

/// The tree of names of a theme and its subthemes.
pub struct ThemeMap {
    pub name: String,
    pub subthemes: Vec<ThemeMap>,
    pub git: Option<String>,
}

/// The name tree `m` mirrors the theme `t`, down to `depth` levels.
pub open spec fn mirrors(m: ThemeMap, t: Theme, depth: nat) -> bool
    decreases depth,
{
    &&& m.name == t.name
    &&& m.git == Some(t.git)
    &&& m.subthemes@.len() == t.subthemes@.len()
    &&& depth > 0 ==> forall|i: int| 0 <= i < m.subthemes@.len() ==> mirrors(#[trigger] m.subthemes@[i], t.subthemes@[i], (depth - 1) as nat)
}

impl ThemeMap {
    /// The name tree of `theme`.
    pub fn from_theme(theme: Theme) -> (r: ThemeMap)
        ensures
            forall|d: nat| mirrors(r, theme, d),
        decreases theme,
    {
        let ghost orig = theme;
        let Theme { name, git, subthemes, .. } = theme;
        let mut maps: Vec<ThemeMap> = Vec::new();
        let mut rest = subthemes;
        let ghost all = rest@;
        let ghost mut done: int = 0;
        while rest.len() > 0
            invariant
                all == orig.subthemes@,
                orig == theme,
                0 <= done <= all.len(),
                rest@ == all.subrange(done, all.len() as int),
                maps@.len() == done,
                forall|i: int, d: nat| 0 <= i < done ==> #[trigger] mirrors(maps@[i], all[i], d),
            decreases rest@.len(),
        {
            let t = rest.remove(0);
            proof {
                assert(t == all[done]);
                assert(decreases_to!(orig => orig.subthemes));
                assert(decreases_to!(orig.subthemes => orig.subthemes[done]));
                assert(orig.subthemes[done] == t);
                assert(decreases_to!(orig => t));
            }
            let m = ThemeMap::from_theme(t);
            maps.push(m);
            proof {
                done = done + 1;
                assert(rest@ =~= all.subrange(done, all.len() as int));
            }
        }
        let r = ThemeMap { name, subthemes: maps, git: Some(git) };
        proof {
            assert forall|d: nat| mirrors(r, orig, d) by {
                if d > 0 {
                    assert forall|i: int| 0 <= i < r.subthemes@.len() implies mirrors(#[trigger] r.subthemes@[i], orig.subthemes@[i], (d - 1) as nat) by {
                        assert(mirrors(maps@[i], all[i], (d - 1) as nat));
                    }
                }
            }
        }
        r
    }
}

/// The characters of the Unicode `White_Space` property, which `char::is_whitespace` tests.
pub open spec fn is_white(c: char) -> bool {
    ('\u{9}' <= c && c <= '\u{d}') || c == ' ' || c == '\u{85}' || c == '\u{a0}' || c == '\u{1680}'
        || ('\u{2000}' <= c && c <= '\u{200a}') || c == '\u{2028}' || c == '\u{2029}' || c == '\u{202f}'
        || c == '\u{205f}' || c == '\u{3000}'
}

/// `s` is empty once white space is trimmed from both ends: it holds white space only.
pub open spec fn blank(s: Seq<char>) -> bool {
    forall|i: int| 0 <= i < s.len() ==> is_white(#[trigger] s[i])
}

/// Whether `s` holds white space only.
pub fn is_blank(s: &str) -> (r: bool)
    ensures
        r == blank(s@),
{
    let n = s.unicode_len();
    let mut i: usize = 0;
    while i < n
        invariant
            n == s@.len(),
            i <= n,
            forall|j: int| 0 <= j < i ==> is_white(#[trigger] s@[j]),
        decreases n - i,
    {
        let c = s.get_char(i);
        if !(('\u{9}' <= c && c <= '\u{d}') || c == ' ' || c == '\u{85}' || c == '\u{a0}' || c == '\u{1680}'
            || ('\u{2000}' <= c && c <= '\u{200a}') || c == '\u{2028}' || c == '\u{2029}' || c == '\u{202f}'
            || c == '\u{205f}' || c == '\u{3000}') {
            return false;
        }
        i += 1;
    }
    true
}

/// The names of a `:`-separated path.
pub open spec fn segments(s: Seq<char>) -> Seq<Seq<char>>
    decreases s.len(),
{
    if exists|i: int| first_index_of(s, ':', i) {
        let i = choose|i: int| first_index_of(s, ':', i);
        seq![s.subrange(0, i)] + segments(s.subrange(i + 1, s.len() as int))
    } else {
        seq![s]
    }
}

/// `d` is the first subtheme of `c` named `name`.
pub open spec fn first_child(c: Theme, name: Seq<char>, d: Theme) -> bool {
    exists|i: int| 0 <= i < c.subthemes@.len() && c.subthemes@[i] == d && d.name@ == name
        && forall|j: int| 0 <= j < i ==> (#[trigger] c.subthemes@[j]).name@ != name
}

/// Following the names `path` from `t`, taking at each level the first subtheme of that name,
/// reaches `r`.
pub open spec fn reaches(t: Theme, path: Seq<Seq<char>>, r: Theme) -> bool
    decreases path.len(),
{
    if path.len() == 0 {
        r == t
    } else {
        exists|c: Theme| reaches(t, path.drop_last(), c) && first_child(c, path.last(), r)
    }
}

/// The index of the first subtheme of `t` named `name`.
fn child_named(t: &Theme, name: &str) -> (r: Option<usize>)
    ensures
        match r {
            Some(i) => i < t.subthemes@.len() && t.subthemes@[i as int].name@ == name@
                && forall|j: int| 0 <= j < i ==> (#[trigger] t.subthemes@[j]).name@ != name@,
            None => forall|j: int| 0 <= j < t.subthemes@.len() ==> (#[trigger] t.subthemes@[j]).name@ != name@,
        },
{
    let mut i: usize = 0;
    while i < t.subthemes.len()
        invariant
            i <= t.subthemes@.len(),
            forall|j: int| 0 <= j < i ==> (#[trigger] t.subthemes@[j]).name@ != name@,
        decreases t.subthemes@.len() - i,
    {
        let cand = t.subthemes[i].name.as_str();
        if cand.unicode_len() == name.unicode_len() && starts_with(cand, name) {
            proof {
                assert(t.subthemes@[i as int].name@ =~= name@);
            }
            return Some(i);
        }
        proof {
            if cand@ == name@ {
                assert(cand@.subrange(0, name@.len() as int) =~= cand@);
            }
        }
        i += 1;
    }
    None
}

/// The default subtheme of `theme`: its `default_subtheme` path followed from `theme`, each
/// `:`-separated name picking the first subtheme of that name. None when the path is blank (white space only),
/// or when some name on it has no subtheme.
pub fn get_subtheme(theme: &Theme) -> (r: Option<&Theme>)
    ensures
        blank(theme.default_subtheme@) ==> r is None,
        !blank(theme.default_subtheme@) ==> match r {
            Some(x) => reaches(*theme, segments(theme.default_subtheme@), *x),
            None => exists|k: int, c: Theme| 0 <= k < segments(theme.default_subtheme@).len()
                && reaches(*theme, segments(theme.default_subtheme@).subrange(0, k), c)
                && forall|j: int| 0 <= j < c.subthemes@.len() ==> (#[trigger] c.subthemes@[j]).name@ != segments(theme.default_subtheme@)[k],
        },
{
    let d = theme.default_subtheme.as_str();
    if is_blank(d) {
        return None;
    }
    let ghost all = segments(d@);
    let mut cur: &Theme = theme;
    let mut rest: String = d.to_owned();
    let ghost mut done: Seq<Seq<char>> = Seq::empty();
    proof {
        assert(all =~= done + segments(rest@));
    }
    loop
        invariant
            all == segments(d@),
            d@ == theme.default_subtheme@,
            !blank(theme.default_subtheme@),
            all == done + segments(rest@),
            reaches(*theme, done, *cur),
        decreases rest@.len(),
    {
        let n = rest.as_str().unicode_len();
        let (seg, next, last) = match find_char(rest.as_str(), ':') {
            Some(i) => (slice(rest.as_str(), 0, i), slice(rest.as_str(), i + 1, n), false),
            None => (rest.clone(), String::new(), true),
        };
        proof {
            if last {
                assert(segments(rest@) == seq![rest@]);
            } else {
                assert(segments(rest@) =~= seq![seg@] + segments(next@));
            }
            assert(segments(rest@)[0] == seg@);
            assert(all[done.len() as int] == seg@);
        }
        match child_named(cur, seg.as_str()) {
            Some(j) => {
                let ghost prev = *cur;
                cur = &cur.subthemes[j];
                proof {
                    assert(prev.subthemes@[j as int] == *cur);
                    assert(first_child(prev, seg@, *cur));
                    let nd = done.push(seg@);
                    assert(nd.drop_last() =~= done);
                    assert(nd.last() == seg@);
                    assert(reaches(*theme, nd.drop_last(), prev) && first_child(prev, nd.last(), *cur));
                    assert(reaches(*theme, nd, *cur));
                    done = nd;
                }
                if last {
                    proof {
                        assert(all =~= done);
                    }
                    return Some(cur);
                }
                proof {
                    assert(all =~= done + segments(next@));
                }
                rest = next;
            },
            None => {
                proof {
                    assert(all.subrange(0, done.len() as int) =~= done);
                }
                return None;
            },
        }
    }
}

} // verus!
