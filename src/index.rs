//! Featured themes published in remote index documents.

use vstd::prelude::*;
use crate::identity::{copy_opt, opt_seq, same_id, IdView, ThemeId};
use crate::text::texts;

verus! {

/// One theme entry of an index document.
pub struct Theme {
    pub name: String,
    pub repo: String,
    pub branch: Option<String>,
    pub config: Option<String>,
    pub desc: String,
    pub images: Vec<String>,
}

/// The mathematical form of an index entry.
pub struct ThemeView {
    pub name: Seq<char>,
    pub repo: Seq<char>,
    pub branch: Option<Seq<char>>,
    pub config: Option<Seq<char>>,
    pub desc: Seq<char>,
    pub images: Seq<Seq<char>>,
}

impl View for Theme {
    type V = ThemeView;

    open spec fn view(&self) -> ThemeView {
        ThemeView {
            name: self.name@,
            repo: self.repo@,
            branch: opt_seq(self.branch),
            config: opt_seq(self.config),
            desc: self.desc@,
            images: texts(self.images@),
        }
    }
}

/// The views of a list of entries.
pub open spec fn entry_views(v: Seq<Theme>) -> Seq<ThemeView> {
    v.map_values(|t: Theme| t@)
}

/// The id of an index entry.
pub open spec fn view_id(t: ThemeView) -> IdView {
    (t.repo, t.branch)
}

/// An index document: `{ "themes": [ ... ] }`.
pub struct Themes {
    pub themes: Vec<Theme>,
}

/// A theme known from an index only.
pub struct OnlineTheme {
    pub partial: Theme,
}

/// Why one index document could not be had.
pub enum IndexError {
    /// The request failed; holds the URL and the cause.
    Fetch(String, String),
    /// The body is not an index document; holds the URL and the cause.
    Decode(String, String),
}

/// What fetching all index documents yields.
pub struct IndexResult {
    pub themes: Vec<OnlineTheme>,
    pub errors: Vec<IndexError>,
}

/// Whether an id equal to `id` is in `list`.
pub open spec fn listed(list: Seq<IdView>, id: IdView) -> bool {
    exists|k: int| 0 <= k < list.len() && same_id(#[trigger] list[k], id)
}

/// The ids of a list of entries.
pub open spec fn entry_ids(s: Seq<ThemeView>) -> Seq<IdView> {
    s.map_values(|t: ThemeView| view_id(t))
}

/// The entries of `s`, in order, that are not blacklisted and whose id no earlier kept entry has.
pub open spec fn kept(s: Seq<ThemeView>, blacklist: Seq<IdView>) -> Seq<ThemeView>
    decreases s.len(),
{
    if s.len() == 0 {
        Seq::empty()
    } else {
        let prev = kept(s.drop_last(), blacklist);
        let t = s.last();
        if listed(blacklist, view_id(t)) || listed(entry_ids(prev), view_id(t)) {
            prev
        } else {
            prev.push(t)
        }
    }
}

/// The entries of the documents that could be had, in order.
pub open spec fn ok_entries(docs: Seq<Result<Themes, IndexError>>) -> Seq<ThemeView>
    decreases docs.len(),
{
    if docs.len() == 0 {
        Seq::empty()
    } else {
        let prev = ok_entries(docs.drop_last());
        match docs.last() {
            Ok(d) => prev + entry_views(d.themes@),
            Err(_) => prev,
        }
    }
}

/// The errors among the documents, in order.
pub open spec fn doc_errors(docs: Seq<Result<Themes, IndexError>>) -> Seq<IndexError>
    decreases docs.len(),
{
    if docs.len() == 0 {
        Seq::empty()
    } else {
        let prev = doc_errors(docs.drop_last());
        match docs.last() {
            Ok(_) => prev,
            Err(e) => prev.push(e),
        }
    }
}

/// The ids of a list of ids.
pub open spec fn id_views(v: Seq<ThemeId>) -> Seq<IdView> {
    v.map_values(|i: ThemeId| i@)
}

impl Theme {
    pub fn new(name: String, repo: String, branch: Option<String>, desc: String, images: Vec<String>) -> (r: Theme)
        ensures
            r.name == name,
            r.repo == repo,
            r.branch == branch,
            r.config is None,
            r.desc == desc,
            r.images == images,
    {
        Theme { name, repo, branch, config: None, desc, images }
    }

    pub fn get_id(&self) -> (r: ThemeId)
        ensures
            r@ == view_id(self@),
    {
        ThemeId { repo: self.repo.clone(), branch: copy_opt(&self.branch) }
    }
}

impl ThemeId {
    /// The id of a theme entry.
    pub fn from_theme(theme: &Theme) -> (r: ThemeId)
        ensures
            r@ == view_id(theme@),
    {
        theme.get_id()
    }
}

impl OnlineTheme {
    pub fn from_theme(partial: Theme) -> (r: OnlineTheme)
        ensures
            r.partial == partial,
    {
        OnlineTheme { partial }
    }

    pub fn get_id(&self) -> (r: ThemeId)
        ensures
            r@ == view_id(self.partial@),
    {
        self.partial.get_id()
    }
}

/// The entries of a list of online themes.
pub open spec fn online_views(v: Seq<OnlineTheme>) -> Seq<ThemeView> {
    v.map_values(|o: OnlineTheme| o.partial@)
}

/// Whether an id equal to `id` is in `list`.
pub fn id_listed(list: &Vec<ThemeId>, id: &ThemeId) -> (r: bool)
    ensures
        r == listed(id_views(list@), id@),
{
    let mut k: usize = 0;
    while k < list.len()
        invariant
            k <= list@.len(),
            forall|j: int| 0 <= j < k ==> !same_id(#[trigger] id_views(list@)[j], id@),
        decreases list@.len() - k,
    {
        if list[k].same_as(id) {
            proof {
                assert(same_id(id_views(list@)[k as int], id@));
            }
            return true;
        }
        k += 1;
    }
    false
}

fn online_listed(list: &Vec<OnlineTheme>, id: &ThemeId) -> (r: bool)
    ensures
        r == listed(entry_ids(online_views(list@)), id@),
{
    let mut k: usize = 0;
    while k < list.len()
        invariant
            k <= list@.len(),
            forall|j: int| 0 <= j < k ==> !same_id(#[trigger] entry_ids(online_views(list@))[j], id@),
        decreases list@.len() - k,
    {
        let other = list[k].get_id();
        if other.same_as(id) {
            proof {
                assert(same_id(entry_ids(online_views(list@))[k as int], id@));
            }
            return true;
        }
        k += 1;
    }
    false
}

/// Merges the index documents, one per URL in order: the entries of documents that could be
/// had, without those whose id is blacklisted, the first of equal ids winning; and the errors
/// of those that could not.
pub fn fetch_index(documents: Vec<Result<Themes, IndexError>>, blacklist: Option<Vec<ThemeId>>) -> (r: IndexResult)
    ensures
        online_views(r.themes@) == kept(
            ok_entries(documents@),
            match blacklist {
                Some(b) => id_views(b@),
                None => Seq::empty(),
            },
        ),
        r.errors@ == doc_errors(documents@),
        forall|k: int| 0 <= k < r.themes@.len() ==> !listed(
            match blacklist {
                Some(b) => id_views(b@),
                None => Seq::empty(),
            },
            view_id(#[trigger] r.themes@[k].partial@),
        ),
{
    let ghost given = blacklist;
    let bl = match blacklist {
        Some(b) => b,
        None => Vec::new(),
    };
    let ghost blv = id_views(bl@);
    proof {
        if given is None {
            assert(blv =~= Seq::<IdView>::empty());
        }
    }
    let ghost orig = documents@;
    let mut docs = documents;
    let mut themes: Vec<OnlineTheme> = Vec::new();
    let mut errors: Vec<IndexError> = Vec::new();
    let ghost mut done: int = 0;
    while docs.len() > 0
        invariant
            blv == id_views(bl@),
            0 <= done <= orig.len(),
            docs@ == orig.subrange(done, orig.len() as int),
            online_views(themes@) == kept(ok_entries(orig.subrange(0, done)), blv),
            errors@ == doc_errors(orig.subrange(0, done)),
        decreases docs@.len(),
    {
        let d = docs.remove(0);
        proof {
            assert(orig.subrange(0, done + 1).drop_last() =~= orig.subrange(0, done));
            assert(orig.subrange(0, done + 1).last() == d);
        }
        match d {
            Ok(doc) => {
                let ghost base = ok_entries(orig.subrange(0, done));
                let ghost all = entry_views(doc.themes@);
                let mut items = doc.themes;
                let ghost mut taken: int = 0;
                while items.len() > 0
                    invariant
                        blv == id_views(bl@),
                        0 <= taken <= all.len(),
                        entry_views(items@) == all.subrange(taken, all.len() as int),
                        online_views(themes@) == kept(base + all.subrange(0, taken), blv),
                    decreases items@.len(),
                {
                    let ghost before = items@;
                    let t = items.remove(0);
                    proof {
                        let bv = entry_views(before);
                        assert(bv.len() == before.len());
                        assert(bv[0] == before[0]@);
                        assert(bv[0] == all.subrange(taken, all.len() as int)[0]);
                        assert(before[0]@ == all[taken]);
                        assert(items@ =~= before.subrange(1, before.len() as int));
                        assert forall|k: int| 0 <= k < items@.len() implies #[trigger] entry_views(items@)[k] == all.subrange(taken + 1, all.len() as int)[k] by {
                            assert(items@[k] == before[k + 1]);
                            assert(bv[k + 1] == all.subrange(taken, all.len() as int)[k + 1]);
                        }
                        assert(entry_views(items@) =~= all.subrange(taken + 1, all.len() as int));
                        let s = base + all.subrange(0, taken + 1);
                        assert(s.drop_last() =~= base + all.subrange(0, taken));
                        assert(s.last() == t@);
                    }
                    let id = t.get_id();
                    if !id_listed(&bl, &id) && !online_listed(&themes, &id) {
                        themes.push(OnlineTheme::from_theme(t));
                        proof {
                            assert(online_views(themes@) =~= kept(base + all.subrange(0, taken), blv).push(t@));
                        }
                    }
                    proof {
                        taken = taken + 1;
                    }
                }
                proof {
                    assert(all.subrange(0, taken) =~= all);
                }
            },
            Err(e) => {
                errors.push(e);
            },
        }
        proof {
            done = done + 1;
        }
    }
    proof {
        assert(orig.subrange(0, done) =~= orig);
        lemma_blacklist_respected(ok_entries(orig), blv);
        assert forall|k: int| 0 <= k < themes@.len() implies !listed(blv, view_id(#[trigger] themes@[k].partial@)) by {
            assert(online_views(themes@)[k] == themes@[k].partial@);
        }
    }
    IndexResult { themes, errors }
}

/// Merging index documents never yields an entry whose id is blacklisted, nor two entries
/// with equal ids.
pub proof fn lemma_blacklist_respected(s: Seq<ThemeView>, blacklist: Seq<IdView>)
    ensures
        forall|k: int| 0 <= k < kept(s, blacklist).len() ==> !listed(blacklist, view_id(#[trigger] kept(s, blacklist)[k])),
        forall|i: int, j: int| 0 <= i < j < kept(s, blacklist).len() ==> !same_id(view_id(#[trigger] kept(s, blacklist)[i]), view_id(#[trigger] kept(s, blacklist)[j])),
    decreases s.len(),
{
    if s.len() > 0 {
        lemma_blacklist_respected(s.drop_last(), blacklist);
        let prev = kept(s.drop_last(), blacklist);
        let t = s.last();
        if !(listed(blacklist, view_id(t)) || listed(entry_ids(prev), view_id(t))) {
            assert forall|i: int, j: int| 0 <= i < j < kept(s, blacklist).len() implies !same_id(view_id(kept(s, blacklist)[i]), view_id(kept(s, blacklist)[j])) by {
                if j == prev.len() {
                    assert(entry_ids(prev)[i] == view_id(prev[i]));
                    if same_id(view_id(prev[i]), view_id(t)) {
                        assert(same_id(entry_ids(prev)[i], view_id(t)));
                    }
                }
            }
        }
    }
}

} // verus!
