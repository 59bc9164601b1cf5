//! Text helpers over strings viewed as character sequences.

use vstd::prelude::*;
use vstd::string::*;

verus! {

/// The texts of a list of strings.
pub open spec fn texts(v: Seq<String>) -> Seq<Seq<char>> {
    v.map_values(|s: String| s@)
}

/// `n` occurs in `h` starting at index `i`.
pub open spec fn occurs_at(h: Seq<char>, n: Seq<char>, i: int) -> bool {
    0 <= i && i + n.len() <= h.len() && h.subrange(i, i + n.len()) == n
}

/// `n` occurs somewhere in `h`.
pub open spec fn seq_contains(h: Seq<char>, n: Seq<char>) -> bool {
    exists|i: int| occurs_at(h, n, i)
}

/// `p` is a prefix of `s`.
pub open spec fn seq_starts_with(s: Seq<char>, p: Seq<char>) -> bool {
    p.len() <= s.len() && s.subrange(0, p.len() as int) == p
}

/// `p` is a suffix of `s`.
pub open spec fn seq_ends_with(s: Seq<char>, p: Seq<char>) -> bool {
    p.len() <= s.len() && s.subrange(s.len() - p.len(), s.len() as int) == p
}

/// The lower-case form of a text, as the standard library computes it.
pub uninterp spec fn lower_of(s: Seq<char>) -> Seq<char>;

/// Relies on `str::to_lowercase`: the result depends on the characters alone.
#[verifier::external_body]
pub(crate) fn lowercase(s: &str) -> (r: String)
    ensures
        r@ == lower_of(s@),
{
    s.to_lowercase()
}

/// Whether `n` occurs in `h` at index `i`.
fn matches_at(h: &str, hl: usize, n: &str, nl: usize, i: usize) -> (r: bool)
    requires
        hl == h@.len(),
        nl == n@.len(),
        i + nl <= hl,
    ensures
        r == occurs_at(h@, n@, i as int),
{
    let mut k: usize = 0;
    while k < nl
        invariant
            0 <= k <= nl,
            hl == h@.len(),
            nl == n@.len(),
            i + nl <= hl,
            forall|j: int| 0 <= j < k ==> h@[i + j] == n@[j],
        decreases nl - k,
    {
        if h.get_char(i + k) != n.get_char(k) {
            proof {
                assert(h@.subrange(i as int, i + nl)[k as int] != n@[k as int]);
            }
            return false;
        }
        k += 1;
    }
    proof {
        assert(h@.subrange(i as int, i + nl) =~= n@);
    }
    true
}

/// Whether `n` occurs in `h`.
pub fn contains(h: &str, n: &str) -> (r: bool)
    ensures
        r == seq_contains(h@, n@),
{
    let hl = h.unicode_len();
    let nl = n.unicode_len();
    if nl > hl {
        return false;
    }
    let mut i: usize = 0;
    while i < hl - nl
        invariant
            hl == h@.len(),
            nl == n@.len(),
            nl <= hl,
            i <= hl - nl,
            forall|j: int| 0 <= j < i ==> !occurs_at(h@, n@, j),
        decreases hl - nl - i,
    {
        if matches_at(h, hl, n, nl, i) {
            return true;
        }
        i += 1;
    }
    if matches_at(h, hl, n, nl, i) {
        return true;
    }
    proof {
        assert forall|j: int| !occurs_at(h@, n@, j) by {
            if occurs_at(h@, n@, j) {
                assert(j < i);
            }
        }
    }
    false
}

/// Whether `s` starts with `p`.
pub fn starts_with(s: &str, p: &str) -> (r: bool)
    ensures
        r == seq_starts_with(s@, p@),
{
    let sl = s.unicode_len();
    let pl = p.unicode_len();
    if pl > sl {
        return false;
    }
    let r = matches_at(s, sl, p, pl, 0);
    proof {
        assert(r == occurs_at(s@, p@, 0));
    }
    r
}

/// Whether `s` ends with `p`.
pub fn ends_with(s: &str, p: &str) -> (r: bool)
    ensures
        r == seq_ends_with(s@, p@),
{
    let sl = s.unicode_len();
    let pl = p.unicode_len();
    if pl > sl {
        return false;
    }
    let r = matches_at(s, sl, p, pl, sl - pl);
    proof {
        assert(r == occurs_at(s@, p@, sl - pl));
    }
    r
}

/// The characters of `s` from index `from` up to `to`.
pub fn slice(s: &str, from: usize, to: usize) -> (r: String)
    requires
        from <= to <= s@.len(),
    ensures
        r@ == s@.subrange(from as int, to as int),
{
    s.substring_char(from, to).to_owned()
}

/// Index of the first occurrence of character `c` in `s`.
pub open spec fn first_index_of(s: Seq<char>, c: char, i: int) -> bool {
    0 <= i < s.len() && s[i] == c && forall|j: int| 0 <= j < i ==> s[j] != c
}

/// The index of the first `c` in `s`, if any.
pub fn find_char(s: &str, c: char) -> (r: Option<usize>)
    ensures
        match r {
            Some(i) => first_index_of(s@, c, i as int),
            None => forall|j: int| 0 <= j < s@.len() ==> s@[j] != c,
        },
{
    let n = s.unicode_len();
    let mut i: usize = 0;
    while i < n
        invariant
            n == s@.len(),
            i <= n,
            forall|j: int| 0 <= j < i ==> s@[j] != c,
        decreases n - i,
    {
        if s.get_char(i) == c {
            return Some(i);
        }
        i += 1;
    }
    None
}

/// `rel` joined under `dir`, as paths join: an absolute `rel` replaces `dir`, and one `/`
/// separates the two parts.
pub open spec fn join_path(dir: Seq<char>, rel: Seq<char>) -> Seq<char> {
    if rel.len() > 0 && rel[0] == '/' {
        rel
    } else if dir.len() == 0 || dir.last() == '/' {
        dir + rel
    } else {
        dir + seq!['/'] + rel
    }
}

/// The path `rel` under `dir`.
pub fn join(dir: &str, rel: &str) -> (r: String)
    ensures
        r@ == join_path(dir@, rel@),
{
    let rl = rel.unicode_len();
    if rl > 0 && rel.get_char(0) == '/' {
        return rel.to_owned();
    }
    let dl = dir.unicode_len();
    let mut r = dir.to_owned();
    if !(dl == 0 || dir.get_char(dl - 1) == '/') {
        r.append("/");
        proof {
            reveal_strlit("/");
        }
    }
    r.append(rel);
    r
}

/// `s` with every character for which `hit` holds replaced by `by`.
pub open spec fn replace_where(s: Seq<char>, hit: spec_fn(char) -> bool, by: char) -> Seq<char> {
    s.map_values(|c: char| if hit(c) { by } else { c })
}

/// `s` with every `from` replaced by `to`.
pub open spec fn swap_char(s: Seq<char>, from: char, to: char) -> Seq<char> {
    s.map_values(|c: char| if c == from { to } else { c })
}

/// `s` with every `from` replaced by `to`.
pub fn replace_char(s: &str, from: char, to: &str) -> (r: String)
    requires
        to@.len() == 1,
    ensures
        r@ == swap_char(s@, from, to@[0]),
{
    let n = s.unicode_len();
    let mut r = String::new();
    let mut i: usize = 0;
    while i < n
        invariant
            n == s@.len(),
            i <= n,
            to@.len() == 1,
            r@ == swap_char(s@.subrange(0, i as int), from, to@[0]),
        decreases n - i,
    {
        let c = s.get_char(i);
        if c == from {
            r.append(to);
        } else {
            r.append(s.substring_char(i, i + 1));
        }
        proof {
            assert(swap_char(s@.subrange(0, i + 1), from, to@[0]) =~= swap_char(s@.subrange(0, i as int), from, to@[0]).push(if c == from { to@[0] } else { c }));
        }
        i += 1;
        proof {
            assert(r@ =~= swap_char(s@.subrange(0, i as int), from, to@[0]));
        }
    }
    proof {
        assert(s@.subrange(0, n as int) =~= s@);
    }
    r
}

/// The standard form of a theme name: lower case, spaces turned into underscores.
pub open spec fn standard_name(s: Seq<char>) -> Seq<char> {
    swap_char(lower_of(s), ' ', '_')
}

/// The standard form of a theme name: lower case, spaces turned into underscores.
pub fn standardize(s: &str) -> (r: String)
    ensures
        r@ == standard_name(s@),
{
    let l = lowercase(s);
    proof {
        reveal_strlit("_");
    }
    replace_char(l.as_str(), ' ', "_")
}

/// Where the last segment of `q` starts: just after its last `/`, or at 0.
pub open spec fn last_seg_start(q: Seq<char>) -> int
    decreases q.len(),
{
    if q.len() == 0 {
        0
    } else if q.last() == '/' {
        q.len() as int
    } else {
        last_seg_start(q.drop_last())
    }
}

proof fn lemma_seg_start_bounds(q: Seq<char>)
    ensures
        0 <= last_seg_start(q) <= q.len(),
        q.len() > 0 && q.last() != '/' ==> last_seg_start(q) < q.len(),
    decreases q.len(),
{
    if q.len() > 0 {
        lemma_seg_start_bounds(q.drop_last());
    }
}

/// The file name of a path, as paths read it: the last component once empty components (from
/// repeated or trailing `/`) and `.` components are set aside; empty when that component is
/// `..` or there is none.
pub open spec fn file_name_of(p: Seq<char>) -> Seq<char>
    decreases p.len(),
{
    if p.len() == 0 {
        Seq::empty()
    } else if p.last() == '/' {
        file_name_of(p.drop_last())
    } else {
        let s = last_seg_start(p);
        if 0 <= s < p.len() {
            let seg = p.subrange(s, p.len() as int);
            if seg == seq!['.'] {
                file_name_of(p.subrange(0, s))
            } else if seg == seq!['.', '.'] {
                Seq::empty()
            } else {
                seg
            }
        } else {
            Seq::empty()
        }
    }
}

/// Where the last segment of the first `end` characters of `p` starts.
fn seg_start(p: &str, end: usize) -> (r: usize)
    requires
        end <= p@.len(),
    ensures
        r == last_seg_start(p@.subrange(0, end as int)),
{
    let mut s: usize = end;
    while s > 0
        invariant
            s <= end <= p@.len(),
            last_seg_start(p@.subrange(0, end as int)) == last_seg_start(p@.subrange(0, s as int)),
        decreases s,
    {
        if p.get_char(s - 1) == '/' {
            return s;
        }
        proof {
            assert(p@.subrange(0, s as int).drop_last() =~= p@.subrange(0, s - 1));
        }
        s -= 1;
    }
    proof {
        assert(p@.subrange(0, 0) =~= Seq::<char>::empty());
    }
    0
}

/// The file name of a path.
pub fn file_name(p: &str) -> (r: String)
    ensures
        r@ == file_name_of(p@),
{
    let n = p.unicode_len();
    let mut end: usize = n;
    proof {
        assert(p@.subrange(0, n as int) =~= p@);
    }
    while end > 0
        invariant
            end <= n,
            n == p@.len(),
            file_name_of(p@) == file_name_of(p@.subrange(0, end as int)),
        decreases end,
    {
        let ghost q = p@.subrange(0, end as int);
        if p.get_char(end - 1) == '/' {
            proof {
                assert(q.drop_last() =~= p@.subrange(0, end - 1));
            }
            end -= 1;
        } else {
            let s = seg_start(p, end);
            proof {
                lemma_seg_start_bounds(q);
            }
            let seg = slice(p, s, end);
            proof {
                assert(q.subrange(s as int, q.len() as int) =~= seg@);
                assert(q.subrange(0, s as int) =~= p@.subrange(0, s as int));
            }
            if seg.as_str().unicode_len() == 1 && seg.as_str().get_char(0) == '.' {
                proof {
                    assert(seg@ =~= seq!['.']);
                }
                end = s;
            } else if seg.as_str().unicode_len() == 2 && seg.as_str().get_char(0) == '.' && seg.as_str().get_char(1) == '.' {
                proof {
                    assert(seg@ =~= seq!['.', '.']);
                }
                return String::new();
            } else {
                proof {
                    assert(seg@ != seq!['.']);
                    assert(seg@ != seq!['.', '.']);
                }
                return seg;
            }
        }
    }
    proof {
        assert(p@.subrange(0, 0) =~= Seq::<char>::empty());
    }
    String::new()
}

/// The path separators `/` and `\`.
pub open spec fn is_separator(c: char) -> bool {
    c == '/' || c == '\\'
}

/// `s` with each path separator replaced by a dot.
pub fn dot_separators(s: &str) -> (r: String)
    ensures
        r@ == replace_where(s@, |c: char| is_separator(c), '.'),
{
    let n = s.unicode_len();
    let mut r = String::new();
    let mut i: usize = 0;
    while i < n
        invariant
            n == s@.len(),
            i <= n,
            r@ == replace_where(s@.subrange(0, i as int), |c: char| is_separator(c), '.'),
        decreases n - i,
    {
        let c = s.get_char(i);
        if c == '/' || c == '\\' {
            r.append(".");
            proof {
                reveal_strlit(".");
            }
        } else {
            r.append(s.substring_char(i, i + 1));
        }
        proof {
            assert(replace_where(s@.subrange(0, i + 1), |c: char| is_separator(c), '.') =~= replace_where(s@.subrange(0, i as int), |c: char| is_separator(c), '.').push(if is_separator(c) { '.' } else { c }));
        }
        i += 1;
        proof {
            assert(r@ =~= replace_where(s@.subrange(0, i as int), |c: char| is_separator(c), '.'));
        }
    }
    proof {
        assert(s@.subrange(0, n as int) =~= s@);
    }
    r
}

} // verus!
