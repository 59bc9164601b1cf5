//! The union view of installed, saved and featured themes, and resolving what a user names.

use vstd::prelude::*;
use crate::identity::{copy_opt, create_theme_id, id_text, opt_seq, same_id, IdView, ThemeId};
use crate::text::{lower_of, lowercase, texts};

verus! {

/// One theme of the merged listing.
pub struct Item {
    pub name: String,
    pub installed: bool,
    pub saved: bool,
    pub repo: String,
    pub branch: Option<String>,
    pub featured: bool,
}

/// The mathematical form of a listing entry.
pub struct ItemView {
    pub name: Seq<char>,
    pub installed: bool,
    pub saved: bool,
    pub repo: Seq<char>,
    pub branch: Option<Seq<char>>,
    pub featured: bool,
}

impl View for Item {
    type V = ItemView;

    open spec fn view(&self) -> ItemView {
        ItemView {
            name: self.name@,
            installed: self.installed,
            saved: self.saved,
            repo: self.repo@,
            branch: opt_seq(self.branch),
            featured: self.featured,
        }
    }
}

pub open spec fn item_key(v: ItemView) -> IdView {
    (v.repo, v.branch)
}

pub open spec fn item_views(v: Seq<Item>) -> Seq<ItemView> {
    v.map_values(|i: Item| i@)
}

/// Flag `f` of entry `j`, merged with that of every entry before `upto` with an equal id.
pub open spec fn merged_flag(iv: Seq<ItemView>, j: int, upto: int, f: spec_fn(ItemView) -> bool) -> bool {
    f(iv[j]) || exists|m: int| 0 <= m < upto && same_id(item_key(#[trigger] iv[m]), item_key(iv[j])) && f(iv[m])
}

/// Entry `j` is the first with its id.
pub open spec fn first_of_id(iv: Seq<ItemView>, j: int) -> bool {
    forall|m: int| 0 <= m < j ==> !same_id(item_key(#[trigger] iv[m]), item_key(iv[j]))
}

/// `o` is entry `j` of `iv` with the flags of all entries before `upto` of equal id merged.
pub open spec fn merged_from(o: ItemView, iv: Seq<ItemView>, j: int, upto: int) -> bool {
    &&& 0 <= j < upto <= iv.len()
    &&& o.name == iv[j].name
    &&& o.repo == iv[j].repo
    &&& o.branch == iv[j].branch
    &&& first_of_id(iv, j)
    &&& o.installed == merged_flag(iv, j, upto, |v: ItemView| v.installed)
    &&& o.saved == merged_flag(iv, j, upto, |v: ItemView| v.saved)
    &&& o.featured == merged_flag(iv, j, upto, |v: ItemView| v.featured)
}

/// The listing `ov` merges the first `upto` entries of `iv`: one entry per id, the first
/// entry of each id giving the fields, the flags of all entries of that id OR-ed.
pub open spec fn merges(ov: Seq<ItemView>, iv: Seq<ItemView>, upto: int) -> bool {
    &&& forall|a: int, b: int| 0 <= a < b < ov.len() ==> !same_id(item_key(#[trigger] ov[a]), item_key(#[trigger] ov[b]))
    &&& forall|k: int| 0 <= k < ov.len() ==> has_source(#[trigger] ov[k], iv, upto)
    &&& forall|j: int| 0 <= j < upto ==> covered(ov, #[trigger] iv[j])
}

/// `o` merges some entry of `iv` with the flags of all entries of equal id before `upto`.
pub open spec fn has_source(o: ItemView, iv: Seq<ItemView>, upto: int) -> bool {
    exists|j: int| merged_from(o, iv, j, upto)
}

/// Some entry of `ov` has the id of `x`.
pub open spec fn covered(ov: Seq<ItemView>, x: ItemView) -> bool {
    exists|k: int| 0 <= k < ov.len() && item_key(#[trigger] ov[k]) == item_key(x)
}

impl Item {
    pub fn get_id(&self) -> (r: ThemeId)
        ensures
            r@ == item_key(self@),
    {
        let b = match &self.branch {
            Some(b) => Some(b.as_str()),
            None => None,
        };
        create_theme_id(self.repo.as_str(), b)
    }

    /// A copy of this entry.
    pub fn copy(&self) -> (r: Item)
        ensures
            r@ == self@,
    {
        Item {
            name: self.name.clone(),
            installed: self.installed,
            saved: self.saved,
            repo: self.repo.clone(),
            branch: copy_opt(&self.branch),
            featured: self.featured,
        }
    }

    /// `<name> [Installed] [Saved] [Featured]`, with the flags that hold.
    pub fn display(&self) -> (r: String)
        ensures
            r@ == self.name@ + seq![' '] + flags_text(self.installed, self.saved, self.featured),
    {
        let mut flags = String::new();
        if self.installed {
            flags.append("[Installed]");
        }
        if self.saved {
            if self.installed {
                flags.append(" ");
            }
            flags.append("[Saved]");
        }
        if self.featured {
            if self.installed || self.saved {
                flags.append(" ");
            }
            flags.append("[Featured]");
        }
        proof {
            reveal_strlit("[Installed]");
            reveal_strlit("[Saved]");
            reveal_strlit("[Featured]");
            reveal_strlit(" ");
            assert(flags@ =~= flags_text(self.installed, self.saved, self.featured));
        }
        let mut r = self.name.clone();
        r.append(" ");
        r.append(flags.as_str());
        proof {
            assert(r@ =~= self.name@ + seq![' '] + flags_text(self.installed, self.saved, self.featured));
        }
        r
    }
}

/// The bracketed flags, separated by spaces.
pub open spec fn flags_text(installed: bool, saved: bool, featured: bool) -> Seq<char> {
    let a: Seq<char> = if installed { "[Installed]"@ } else { Seq::empty() };
    let b: Seq<char> = if saved { (if installed { " "@ } else { Seq::empty() }) + "[Saved]"@ } else { Seq::empty() };
    let c: Seq<char> = if featured { (if installed || saved { " "@ } else { Seq::empty() }) + "[Featured]"@ } else { Seq::empty() };
    a + b + c
}

/// The first index of the listing whose id equals `id`.
pub fn find_item(out: &Vec<Item>, id: &ThemeId) -> (r: Option<usize>)
    ensures
        match r {
            Some(k) => k < out@.len() && same_id(item_key(out@[k as int]@), id@),
            None => forall|k: int| 0 <= k < out@.len() ==> !same_id(item_key(#[trigger] out@[k]@), id@),
        },
{
    let mut k: usize = 0;
    while k < out.len()
        invariant
            k <= out@.len(),
            forall|j: int| 0 <= j < k ==> !same_id(item_key(#[trigger] out@[j]@), id@),
        decreases out@.len() - k,
    {
        if out[k].get_id().same_as(id) {
            return Some(k);
        }
        k += 1;
    }
    None
}

/// `o` with the flags of `x` OR-ed in.
pub open spec fn or_flags(o: ItemView, x: ItemView) -> ItemView {
    ItemView {
        installed: o.installed || x.installed,
        saved: o.saved || x.saved,
        featured: o.featured || x.featured,
        ..o
    }
}

/// What holds after merging the first `i` entries of `iv` into `ov`; `src` tells which entry
/// each merged one comes from.
#[verifier::opaque]
pub open spec fn merging(ov: Seq<ItemView>, iv: Seq<ItemView>, src: Seq<int>, i: int) -> bool {
    &&& 0 <= i <= iv.len()
    &&& src.len() == ov.len()
    &&& forall|k: int| 0 <= k < ov.len() ==> merged_from(#[trigger] ov[k], iv, src[k], i)
    &&& forall|a: int, b: int| 0 <= a < b < ov.len() ==> !same_id(item_key(#[trigger] ov[a]), item_key(#[trigger] ov[b]))
    &&& forall|j: int| 0 <= j < i ==> covered(ov, #[trigger] iv[j])
}

#[verifier::rlimit(50)]
proof fn lemma_merge_step(ov: Seq<ItemView>, iv: Seq<ItemView>, src: Seq<int>, i: int, k: int)
    requires
        merging(ov, iv, src, i),
        i < iv.len(),
        0 <= k < ov.len(),
        same_id(item_key(ov[k]), item_key(iv[i])),
    ensures
        merging(ov.update(k, or_flags(ov[k], iv[i])), iv, src, i + 1),
{
    reveal(merging);
    let nv = ov.update(k, or_flags(ov[k], iv[i]));
    let x = iv[i];
    assert forall|q: int| 0 <= q < nv.len() implies merged_from(#[trigger] nv[q], iv, src[q], i + 1) by {
        assert(merged_from(ov[q], iv, src[q], i));
        let j = src[q];
        if q != k {
            assert(!same_id(item_key(ov[k]), item_key(ov[q])));
            assert(!same_id(item_key(x), item_key(iv[j])));
        } else {
            assert(same_id(item_key(x), item_key(iv[j])));
        }
        if merged_flag(iv, j, i + 1, |v: ItemView| v.installed) != merged_flag(iv, j, i, |v: ItemView| v.installed) {
            assert(same_id(item_key(iv[i]), item_key(iv[j])));
        }
        if merged_flag(iv, j, i + 1, |v: ItemView| v.saved) != merged_flag(iv, j, i, |v: ItemView| v.saved) {
            assert(same_id(item_key(iv[i]), item_key(iv[j])));
        }
        if merged_flag(iv, j, i + 1, |v: ItemView| v.featured) != merged_flag(iv, j, i, |v: ItemView| v.featured) {
            assert(same_id(item_key(iv[i]), item_key(iv[j])));
        }
    }
    assert forall|a: int, b: int| 0 <= a < b < nv.len() implies !same_id(item_key(#[trigger] nv[a]), item_key(#[trigger] nv[b])) by {
        assert(item_key(nv[a]) == item_key(ov[a]));
        assert(item_key(nv[b]) == item_key(ov[b]));
    }
    assert forall|j: int| 0 <= j < i + 1 implies covered(nv, #[trigger] iv[j]) by {
        if j < i {
            assert(covered(ov, iv[j]));
            let q = choose|q: int| 0 <= q < ov.len() && item_key(#[trigger] ov[q]) == item_key(iv[j]);
            assert(item_key(nv[q]) == item_key(ov[q]));
        } else {
            assert(item_key(nv[k]) == item_key(ov[k]));
        }
    }
}

#[verifier::rlimit(50)]
proof fn lemma_new_step(ov: Seq<ItemView>, iv: Seq<ItemView>, src: Seq<int>, i: int)
    requires
        merging(ov, iv, src, i),
        i < iv.len(),
        forall|k: int| 0 <= k < ov.len() ==> !same_id(item_key(#[trigger] ov[k]), item_key(iv[i])),
    ensures
        merging(ov.push(iv[i]), iv, src.push(i), i + 1),
{
    reveal(merging);
    let nv = ov.push(iv[i]);
    let ns = src.push(i);
    let x = iv[i];
    assert forall|m: int| 0 <= m < i implies !same_id(item_key(#[trigger] iv[m]), item_key(x)) by {
        if same_id(item_key(iv[m]), item_key(x)) {
            assert(covered(ov, iv[m]));
            let q = choose|q: int| 0 <= q < ov.len() && item_key(#[trigger] ov[q]) == item_key(iv[m]);
            assert(same_id(item_key(ov[q]), item_key(x)));
        }
    }
    assert(first_of_id(iv, i));
    assert forall|q: int| 0 <= q < nv.len() implies merged_from(#[trigger] nv[q], iv, ns[q], i + 1) by {
        if q < ov.len() {
            assert(nv[q] == ov[q]);
            assert(ns[q] == src[q]);
            assert(merged_from(ov[q], iv, src[q], i));
            let j = src[q];
            assert(!same_id(item_key(x), item_key(iv[j])));
            if merged_flag(iv, j, i + 1, |v: ItemView| v.installed) != merged_flag(iv, j, i, |v: ItemView| v.installed) {
                assert(same_id(item_key(iv[i]), item_key(iv[j])));
            }
            if merged_flag(iv, j, i + 1, |v: ItemView| v.saved) != merged_flag(iv, j, i, |v: ItemView| v.saved) {
                assert(same_id(item_key(iv[i]), item_key(iv[j])));
            }
            if merged_flag(iv, j, i + 1, |v: ItemView| v.featured) != merged_flag(iv, j, i, |v: ItemView| v.featured) {
                assert(same_id(item_key(iv[i]), item_key(iv[j])));
            }
        } else {
            assert(nv[q] == x);
            assert(ns[q] == i);
            if merged_flag(iv, i, i + 1, |v: ItemView| v.installed) != x.installed {
                let m = choose|m: int| 0 <= m < i + 1 && same_id(item_key(#[trigger] iv[m]), item_key(iv[i])) && iv[m].installed;
                assert(m == i);
            }
            if merged_flag(iv, i, i + 1, |v: ItemView| v.saved) != x.saved {
                let m = choose|m: int| 0 <= m < i + 1 && same_id(item_key(#[trigger] iv[m]), item_key(iv[i])) && iv[m].saved;
                assert(m == i);
            }
            if merged_flag(iv, i, i + 1, |v: ItemView| v.featured) != x.featured {
                let m = choose|m: int| 0 <= m < i + 1 && same_id(item_key(#[trigger] iv[m]), item_key(iv[i])) && iv[m].featured;
                assert(m == i);
            }
        }
    }
    assert forall|a: int, b: int| 0 <= a < b < nv.len() implies !same_id(item_key(#[trigger] nv[a]), item_key(#[trigger] nv[b])) by {
        if b == ov.len() {
            assert(nv[a] == ov[a]);
        } else {
            assert(nv[a] == ov[a]);
            assert(nv[b] == ov[b]);
        }
    }
    assert forall|j: int| 0 <= j < i + 1 implies covered(nv, #[trigger] iv[j]) by {
        if j < i {
            assert(covered(ov, iv[j]));
            let q = choose|q: int| 0 <= q < ov.len() && item_key(#[trigger] ov[q]) == item_key(iv[j]);
            assert(nv[q] == ov[q]);
        } else {
            assert(nv[ov.len() as int] == x);
        }
    }
}

proof fn lemma_merging_start(iv: Seq<ItemView>)
    ensures
        merging(Seq::empty(), iv, Seq::empty(), 0),
{
    reveal(merging);
}

proof fn lemma_merging_done(ov: Seq<ItemView>, iv: Seq<ItemView>, src: Seq<int>)
    requires
        merging(ov, iv, src, iv.len() as int),
    ensures
        merges(ov, iv, iv.len() as int),
{
    reveal(merging);
    assert forall|k: int| 0 <= k < ov.len() implies has_source(#[trigger] ov[k], iv, iv.len() as int) by {
        assert(merged_from(ov[k], iv, src[k], iv.len() as int));
    }

}

/// Merges a listing given in priority order (installed, then saved, then featured): one
/// entry per theme id, with the fields of its first entry and the flags of all its entries
/// OR-ed together.
pub fn list_all(items: &Vec<Item>) -> (r: Vec<Item>)
    ensures
        merges(item_views(r@), item_views(items@), items@.len() as int),
{
    let ghost iv = item_views(items@);
    let mut out: Vec<Item> = Vec::new();
    let ghost mut src: Seq<int> = Seq::empty();
    let mut i: usize = 0;
    proof {
        assert(item_views(out@) =~= Seq::<ItemView>::empty());
        lemma_merging_start(iv);
    }
    while i < items.len()
        invariant
            i <= items@.len(),
            iv == item_views(items@),
            merging(item_views(out@), iv, src, i as int),
        decreases items@.len() - i,
    {
        let it = &items[i];
        let id = it.get_id();
        let ghost ov = item_views(out@);
        proof {
            assert(iv[i as int] == it@);
        }
        match find_item(&out, &id) {
            Some(k) => {
                proof {
                    assert(ov[k as int] == out@[k as int]@);
                }
                let old_item = &out[k];
                let merged = Item {
                    name: old_item.name.clone(),
                    installed: old_item.installed || it.installed,
                    saved: old_item.saved || it.saved,
                    repo: old_item.repo.clone(),
                    branch: copy_opt(&old_item.branch),
                    featured: old_item.featured || it.featured,
                };
                out.set(k, merged);
                proof {
                    lemma_merge_step(ov, iv, src, i as int, k as int);
                    assert(item_views(out@) =~= ov.update(k as int, or_flags(ov[k as int], iv[i as int])));
                }
            },
            None => {
                out.push(it.copy());
                proof {
                    assert forall|k: int| 0 <= k < ov.len() implies !same_id(item_key(#[trigger] ov[k]), item_key(iv[i as int])) by {
                        assert(ov[k] == out@[k]@);
                    }
                    lemma_new_step(ov, iv, src, i as int);
                    src = src.push(i as int);
                    assert(item_views(out@) =~= ov.push(iv[i as int]));
                }
            },
        }
        i += 1;
    }
    proof {
        assert(iv.len() == items@.len());
        lemma_merging_done(item_views(out@), iv, src);
    }
    out
}

/// Merges the installed, saved and featured themes, in that order of priority: for each id the
/// first installed entry gives the fields, else the first saved one, else the first featured
/// one; the flags of all entries of that id are OR-ed together.
pub fn list_sources(installed: &Vec<Item>, saved: &Vec<Item>, featured: &Vec<Item>) -> (r: Vec<Item>)
    ensures
        merges(
            item_views(r@),
            item_views(installed@) + item_views(saved@) + item_views(featured@),
            (installed@.len() + saved@.len() + featured@.len()) as int,
        ),
{
    let mut all: Vec<Item> = Vec::new();
    append_items(&mut all, installed);
    append_items(&mut all, saved);
    append_items(&mut all, featured);
    list_all(&all)
}

/// Appends copies of `more` to `all`.
fn append_items(all: &mut Vec<Item>, more: &Vec<Item>)
    ensures
        item_views(final(all)@) == item_views(old(all)@) + item_views(more@),
{
    let ghost start = item_views(all@);
    let mut i: usize = 0;
    while i < more.len()
        invariant
            i <= more@.len(),
            item_views(all@) == start + item_views(more@).subrange(0, i as int),
        decreases more@.len() - i,
    {
        let ghost before = item_views(all@);
        all.push(more[i].copy());
        proof {
            assert(item_views(all@) =~= before.push(more@[i as int]@));
            assert(item_views(more@).subrange(0, i + 1) =~= item_views(more@).subrange(0, i as int).push(more@[i as int]@));
        }
        i += 1;
    }
    proof {
        assert(item_views(more@).subrange(0, i as int) =~= item_views(more@));
    }
}

/// The outcome of matching an identifier against the known themes.
pub enum Resolution {
    /// Exactly one theme: its index.
    Found(usize),
    /// No theme.
    NotFound,
    /// Several themes share the name: their indices.
    Ambiguous(Vec<usize>),
}

/// Why an identifier names no single theme.
pub enum ResolveError {
    /// No theme is known by that identifier; holds it.
    NotFound(String),
    /// Several themes bear that name; holds their ids.
    Ambiguous(Vec<ThemeId>),
}

/// The indices of the entries of `s` equal to `q`, in order.
pub open spec fn hits(s: Seq<Seq<char>>, q: Seq<char>) -> Seq<int>
    decreases s.len(),
{
    if s.len() == 0 {
        Seq::empty()
    } else if s.last() == q {
        hits(s.drop_last(), q).push(s.len() - 1)
    } else {
        hits(s.drop_last(), q)
    }
}

proof fn lemma_hits_bounds(s: Seq<Seq<char>>, q: Seq<char>)
    ensures
        forall|j: int| 0 <= j < hits(s, q).len() ==> 0 <= #[trigger] hits(s, q)[j] < s.len(),
    decreases s.len(),
{
    if s.len() > 0 {
        lemma_hits_bounds(s.drop_last(), q);
        let prev = hits(s.drop_last(), q);
        assert forall|j: int| 0 <= j < hits(s, q).len() implies 0 <= #[trigger] hits(s, q)[j] < s.len() by {
            if j < prev.len() {
                assert(hits(s, q)[j] == prev[j]);
            }
        }
    }
}

/// The outcome owed for the indices `h` of the matches.
pub open spec fn outcome_of(h: Seq<int>, r: Resolution) -> bool {
    if h.len() == 0 {
        r is NotFound
    } else if h.len() == 1 {
        r matches Resolution::Found(k) && k == h[0]
    } else {
        r matches Resolution::Ambiguous(v) && v@.map_values(|x: usize| x as int) == h
    }
}

/// How `q` resolves against the ids and the names of the known themes: equal ids win over
/// equal names; one match is found, several are ambiguous.
pub open spec fn resolution_ok(ids: Seq<Seq<char>>, names: Seq<Seq<char>>, q: Seq<char>, r: Resolution) -> bool {
    if hits(ids, q).len() > 0 {
        outcome_of(hits(ids, q), r)
    } else {
        outcome_of(hits(names, q), r)
    }
}

/// The indices of the entries of `v` equal to `q`.
fn collect_hits(v: &Vec<String>, q: &String) -> (r: Vec<usize>)
    ensures
        r@.map_values(|x: usize| x as int) == hits(texts(v@), q@),
{
    let ghost tv = texts(v@);
    let mut found: Vec<usize> = Vec::new();
    let mut n: usize = 0;
    proof {
        assert(tv.subrange(0, 0) =~= Seq::<Seq<char>>::empty());
        assert(found@.map_values(|x: usize| x as int) =~= Seq::<int>::empty());
    }
    while n < v.len()
        invariant
            n <= v@.len(),
            tv == texts(v@),
            found@.map_values(|x: usize| x as int) == hits(tv.subrange(0, n as int), q@),
        decreases v@.len() - n,
    {
        proof {
            assert(tv.subrange(0, n + 1).drop_last() =~= tv.subrange(0, n as int));
            assert(tv.subrange(0, n + 1).last() == v@[n as int]@);
        }
        if v[n] == *q {
            let ghost before = found@;
            found.push(n);
            proof {
                assert(found@.map_values(|x: usize| x as int) =~= before.map_values(|x: usize| x as int).push(n as int));
            }
        }
        n += 1;
    }
    proof {
        assert(tv.subrange(0, n as int) =~= tv);
    }
    found
}

fn outcome(found: Vec<usize>) -> (r: Resolution)
    ensures
        outcome_of(found@.map_values(|x: usize| x as int), r),
{
    if found.len() == 0 {
        Resolution::NotFound
    } else if found.len() == 1 {
        proof {
            assert(found@.map_values(|x: usize| x as int)[0] == found@[0] as int);
        }
        Resolution::Found(found[0])
    } else {
        Resolution::Ambiguous(found)
    }
}

/// Resolves `query` against the printable ids and the names of the known themes, all
/// compared as given (a caller folds case beforehand).
pub fn resolve_folded(ids: &Vec<String>, names: &Vec<String>, query: &String) -> (r: Resolution)
    ensures
        resolution_ok(texts(ids@), texts(names@), query@, r),
{
    let by_id = collect_hits(ids, query);
    if by_id.len() > 0 {
        return outcome(by_id);
    }
    outcome(collect_hits(names, query))
}

/// The printable ids of the entries, case-folded.
pub open spec fn folded_ids(v: Seq<Item>) -> Seq<Seq<char>> {
    v.map_values(|i: Item| lower_of(id_text(i.get_id_spec())))
}

/// The names of the entries, case-folded.
pub open spec fn folded_names(v: Seq<Item>) -> Seq<Seq<char>> {
    v.map_values(|i: Item| lower_of(i.name@))
}

impl Item {
    /// The id of this entry.
    pub open spec fn get_id_spec(&self) -> ThemeId {
        ThemeId { repo: self.repo, branch: self.branch }
    }
}

/// Resolves what a user typed to one of `items`: first as a whole printable id, then as a
/// name, both without regard to case. Several matches of the kind that decides are ambiguous.
pub fn resolve(items: &Vec<Item>, identifier: &str) -> (r: Result<usize, ResolveError>)
    ensures
        ({
            let q = lower_of(identifier@);
            let h = if hits(folded_ids(items@), q).len() > 0 {
                hits(folded_ids(items@), q)
            } else {
                hits(folded_names(items@), q)
            };
            if h.len() == 0 {
                r matches Err(ResolveError::NotFound(s)) && s@ == identifier@
            } else if h.len() == 1 {
                r matches Ok(k) && k == h[0]
            } else {
                r matches Err(ResolveError::Ambiguous(v)) && v@.len() == h.len()
                    && forall|m: int| 0 <= m < h.len() ==> (#[trigger] v@[m])@ == item_key(items@[h[m]]@)
            }
        }),
{
    let mut ids: Vec<String> = Vec::new();
    let mut names: Vec<String> = Vec::new();
    let mut i: usize = 0;
    while i < items.len()
        invariant
            i <= items@.len(),
            texts(ids@) == folded_ids(items@).subrange(0, i as int),
            texts(names@) == folded_names(items@).subrange(0, i as int),
        decreases items@.len() - i,
    {
        let id = ThemeId { repo: items[i].repo.clone(), branch: copy_opt(&items[i].branch) };
        let t = id.to_string();
        let ghost bi = texts(ids@);
        let ghost bn = texts(names@);
        ids.push(lowercase(t.as_str()));
        names.push(lowercase(items[i].name.as_str()));
        proof {
            assert(id == items@[i as int].get_id_spec());
            assert(texts(ids@) =~= bi.push(lower_of(t@)));
            assert(texts(names@) =~= bn.push(lower_of(items@[i as int].name@)));
            assert(folded_ids(items@).subrange(0, i + 1) =~= folded_ids(items@).subrange(0, i as int).push(folded_ids(items@)[i as int]));
            assert(folded_names(items@).subrange(0, i + 1) =~= folded_names(items@).subrange(0, i as int).push(folded_names(items@)[i as int]));
        }
        i += 1;
    }
    proof {
        assert(folded_ids(items@).subrange(0, i as int) =~= folded_ids(items@));
        assert(folded_names(items@).subrange(0, i as int) =~= folded_names(items@));
    }
    let q = lowercase(identifier);
    match resolve_folded(&ids, &names, &q) {
        Resolution::Found(k) => Ok(k),
        Resolution::NotFound => Err(ResolveError::NotFound(identifier.to_owned())),
        Resolution::Ambiguous(v) => {
            let ghost h = v@.map_values(|x: usize| x as int);
            proof {
                lemma_hits_bounds(texts(names@), q@);
                lemma_hits_bounds(texts(ids@), q@);
                assert(texts(names@).len() == items@.len());
                assert(texts(ids@).len() == items@.len());
            }
            let mut out: Vec<ThemeId> = Vec::new();
            let mut m: usize = 0;
            while m < v.len()
                invariant
                    m <= v@.len(),
                    h == v@.map_values(|x: usize| x as int),
                    forall|j: int| 0 <= j < h.len() ==> 0 <= #[trigger] h[j] < items@.len(),
                    out@.len() == m,
                    forall|j: int| 0 <= j < m ==> (#[trigger] out@[j])@ == item_key(items@[h[j]]@),
                decreases v@.len() - m,
            {
                let k = v[m];
                proof {
                    assert(h[m as int] == k as int);
                }
                out.push(items[k].get_id());
                m += 1;
            }
            Err(ResolveError::Ambiguous(out))
        },
    }
}

} // verus!
