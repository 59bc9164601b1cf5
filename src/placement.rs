//! Materializing a saved theme into the compositor config directory, and reversing it.
//!
//! The compositor's top-level config file is handled as a list of lines.

use vstd::prelude::*;
use crate::text::{contains, join, join_path, seq_contains, texts};

verus! {

/// Some line of `lines` holds `s`.
pub open spec fn any_line_contains(lines: Seq<Seq<char>>, s: Seq<char>) -> bool {
    exists|i: int| 0 <= i < lines.len() && seq_contains(#[trigger] lines[i], s)
}

/// The install sub-path of the compositor config directory.
pub open spec fn install_dir_of(hypr_dir: Seq<char>) -> Seq<char> {
    join_path(hypr_dir, "hyprtheme"@)
}

/// The line that sources a file of the compositor config directory.
pub open spec fn source_line(file_path: Seq<char>, hypr_dir: Seq<char>) -> Seq<char> {
    "source="@ + join_path(hypr_dir, file_path)
}

/// The line that sources the installed theme.
pub open spec fn theme_source_line(hypr_dir: Seq<char>) -> Seq<char> {
    source_line("hyprtheme/hyprtheme.conf"@, hypr_dir)
}

/// The line that sources the variables file.
pub open spec fn variables_source_line(hypr_dir: Seq<char>) -> Seq<char> {
    source_line("variables.conf"@, hypr_dir)
}

/// `lines` with `line` appended unless some line already holds it.
pub open spec fn appended(lines: Seq<Seq<char>>, line: Seq<char>) -> Seq<Seq<char>> {
    if any_line_contains(lines, line) {
        lines
    } else {
        lines.push(line)
    }
}

/// `lines` with `line` put first unless some line already holds it.
pub open spec fn prepended(lines: Seq<Seq<char>>, line: Seq<char>) -> Seq<Seq<char>> {
    if any_line_contains(lines, line) {
        lines
    } else {
        seq![line] + lines
    }
}

/// `lines` without the lines that hold `s`.
pub open spec fn without_lines(lines: Seq<Seq<char>>, s: Seq<char>) -> Seq<Seq<char>> {
    lines.filter(|l: Seq<char>| !seq_contains(l, s))
}

/// The top-level config after materializing: the theme sourced at the end, the variables
/// sourced first.
pub open spec fn materialized_config(lines: Seq<Seq<char>>, hypr_dir: Seq<char>) -> Seq<Seq<char>> {
    prepended(appended(lines, theme_source_line(hypr_dir)), variables_source_line(hypr_dir))
}

/// The top-level config after reversing: the lines that source the theme removed.
pub open spec fn reversed_config(lines: Seq<Seq<char>>, hypr_dir: Seq<char>) -> Seq<Seq<char>> {
    without_lines(lines, theme_source_line(hypr_dir))
}

/// A source line for `file_path` in the compositor config directory `hypr_dir`.
///
/// Example: `source=/home/user/.config/hypr/hyprtheme/hyprtheme.conf`
pub fn create_source_string(file_path: &str, hypr_dir: &str) -> (r: String)
    ensures
        r@ == source_line(file_path@, hypr_dir@),
{
    let mut r = "source=".to_owned();
    let p = join(hypr_dir, file_path);
    r.append(p.as_str());
    proof {
        reveal_strlit("source=");
    }
    r
}

/// The source line of the installed theme.
pub fn create_hyrptheme_source_string(hypr_dir: &str) -> (r: String)
    ensures
        r@ == theme_source_line(hypr_dir@),
{
    proof {
        reveal_strlit("hyprtheme/hyprtheme.conf");
    }
    create_source_string("hyprtheme/hyprtheme.conf", hypr_dir)
}

/// The source line of the variables file.
pub fn create_variables_source_string(hypr_dir: &str) -> (r: String)
    ensures
        r@ == variables_source_line(hypr_dir@),
{
    proof {
        reveal_strlit("variables.conf");
    }
    create_source_string("variables.conf", hypr_dir)
}

/// Whether some line holds `s`.
pub fn lines_contain(lines: &Vec<String>, s: &str) -> (r: bool)
    ensures
        r == any_line_contains(texts(lines@), s@),
{
    let mut i: usize = 0;
    while i < lines.len()
        invariant
            i <= lines@.len(),
            forall|j: int| 0 <= j < i ==> !seq_contains(#[trigger] texts(lines@)[j], s@),
        decreases lines@.len() - i,
    {
        if contains(lines[i].as_str(), s) {
            proof {
                assert(seq_contains(texts(lines@)[i as int], s@));
            }
            return true;
        }
        i += 1;
    }
    false
}

/// Appends `line` unless some line already holds it.
pub fn ensure_appended(lines: Vec<String>, line: String) -> (r: Vec<String>)
    ensures
        texts(r@) == appended(texts(lines@), line@),
{
    if lines_contain(&lines, line.as_str()) {
        lines
    } else {
        let mut r = lines;
        let ghost before = r@;
        r.push(line);
        proof {
            assert(texts(r@) =~= texts(before).push(line@));
        }
        r
    }
}

/// Puts `line` first unless some line already holds it.
pub fn ensure_prepended(lines: Vec<String>, line: String) -> (r: Vec<String>)
    ensures
        texts(r@) == prepended(texts(lines@), line@),
{
    if lines_contain(&lines, line.as_str()) {
        lines
    } else {
        let mut r = lines;
        let ghost before = r@;
        r.insert(0, line);
        proof {
            assert(texts(r@) =~= seq![line@] + texts(before));
        }
        r
    }
}

/// Drops every line that holds `s`.
pub fn remove_lines_containing(lines: Vec<String>, s: &str) -> (r: Vec<String>)
    ensures
        texts(r@) == without_lines(texts(lines@), s@),
{
    let mut r: Vec<String> = Vec::new();
    let ghost all = texts(lines@);
    let mut rest = lines;
    let ghost mut done: int = 0;
    while rest.len() > 0
        invariant
            0 <= done <= all.len(),
            texts(rest@) == all.subrange(done, all.len() as int),
            texts(r@) == without_lines(all.subrange(0, done), s@),
        decreases rest@.len(),
    {
        let ghost before = rest@;
        let l = rest.remove(0);
        proof {
            assert(texts(before).len() == before.len());
            assert(texts(before)[0] == before[0]@);
            assert(texts(before)[0] == all.subrange(done, all.len() as int)[0]);
            assert(l@ == all[done]);
            assert(rest@ =~= before.subrange(1, before.len() as int));
            assert forall|k: int| 0 <= k < rest@.len() implies #[trigger] texts(rest@)[k] == all.subrange(done + 1, all.len() as int)[k] by {
                assert(texts(before)[k + 1] == all.subrange(done, all.len() as int)[k + 1]);
            }
            assert(texts(rest@) =~= all.subrange(done + 1, all.len() as int));
            assert(all.subrange(0, done + 1).drop_last() =~= all.subrange(0, done));
            reveal(Seq::filter);
        }
        if !contains(l.as_str(), s) {
            let ghost rb = r@;
            r.push(l);
            proof {
                assert(texts(r@) =~= texts(rb).push(all[done]));
            }
        }
        proof {
            done = done + 1;
        }
    }
    proof {
        assert(all.subrange(0, done) =~= all);
    }
    r
}

/// Step four of materializing: source the theme at the end of the top-level config.
pub fn source_theme(lines: Vec<String>, hypr_dir: &str) -> (r: Vec<String>)
    ensures
        texts(r@) == appended(texts(lines@), theme_source_line(hypr_dir@)),
{
    ensure_appended(lines, create_hyrptheme_source_string(hypr_dir))
}

/// Step five of materializing: source the variables file at the top of the top-level config.
pub fn source_variables(lines: Vec<String>, hypr_dir: &str) -> (r: Vec<String>)
    ensures
        texts(r@) == prepended(texts(lines@), variables_source_line(hypr_dir@)),
{
    ensure_prepended(lines, create_variables_source_string(hypr_dir))
}

/// Reversing: remove the lines that source the theme from the top-level config.
pub fn unsource_theme(lines: Vec<String>, hypr_dir: &str) -> (r: Vec<String>)
    ensures
        texts(r@) == reversed_config(texts(lines@), hypr_dir@),
{
    let s = create_hyrptheme_source_string(hypr_dir);
    remove_lines_containing(lines, s.as_str())
}

/// What the engine maintains in a compositor config directory.
pub struct HyprDirModel {
    /// The install sub-path exists.
    pub install_dir: bool,
    /// The manifest file whose copy lies in the install sub-path.
    pub installed: Option<Seq<char>>,
    /// The variables file exists.
    pub variables_file: bool,
    /// The lines of the top-level config file.
    pub config: Seq<Seq<char>>,
}

/// The directory after materializing the theme with manifest file `id` into `hypr_dir`.
pub open spec fn materialized(st: HyprDirModel, id: Seq<char>, hypr_dir: Seq<char>) -> HyprDirModel {
    HyprDirModel {
        install_dir: true,
        installed: Some(id),
        variables_file: true,
        config: materialized_config(st.config, hypr_dir),
    }
}

/// The directory after reversing what was materialized into `hypr_dir`; the variables file
/// stays, as it belongs to the user once created.
pub open spec fn reversed(st: HyprDirModel, hypr_dir: Seq<char>) -> HyprDirModel {
    HyprDirModel {
        install_dir: false,
        installed: None,
        variables_file: st.variables_file,
        config: reversed_config(st.config, hypr_dir),
    }
}

proof fn lemma_appended_holds(lines: Seq<Seq<char>>, line: Seq<char>)
    ensures
        any_line_contains(appended(lines, line), line),
{
    if !any_line_contains(lines, line) {
        let r = lines.push(line);
        assert(r[lines.len() as int] == line);
        assert(line.subrange(0, line.len() as int) =~= line);
        assert(crate::text::occurs_at(line, line, 0));
        assert(seq_contains(r[lines.len() as int], line));
    }
}

proof fn lemma_prepended_keeps(lines: Seq<Seq<char>>, line: Seq<char>, s: Seq<char>)
    requires
        any_line_contains(lines, s),
    ensures
        any_line_contains(prepended(lines, line), s),
{
    if !any_line_contains(lines, line) {
        let i = choose|i: int| 0 <= i < lines.len() && seq_contains(#[trigger] lines[i], s);
        let r = seq![line] + lines;
        assert(r[i + 1] == lines[i]);
    }
}

proof fn lemma_prepended_holds(lines: Seq<Seq<char>>, line: Seq<char>)
    ensures
        any_line_contains(prepended(lines, line), line),
{
    if !any_line_contains(lines, line) {
        let r = seq![line] + lines;
        assert(r[0] == line);
        assert(line.subrange(0, line.len() as int) =~= line);
        assert(crate::text::occurs_at(line, line, 0));
        assert(seq_contains(r[0], line));
    }
}

/// Materializing twice leaves the directory as materializing once does.
pub proof fn lemma_materialize_idempotent(st: HyprDirModel, id: Seq<char>, hypr_dir: Seq<char>)
    ensures
        materialized(materialized(st, id, hypr_dir), id, hypr_dir) == materialized(st, id, hypr_dir),
{
    let t = theme_source_line(hypr_dir);
    let v = variables_source_line(hypr_dir);
    let once = materialized_config(st.config, hypr_dir);
    lemma_appended_holds(st.config, t);
    lemma_prepended_keeps(appended(st.config, t), v, t);
    lemma_prepended_holds(appended(st.config, t), v);
    assert(appended(once, t) == once);
    assert(prepended(once, v) == once);
}

/// Reversing what was materialized leaves no install sub-path and no line that sources the
/// theme.
pub proof fn lemma_reverse_undoes_materialize(st: HyprDirModel, id: Seq<char>, hypr_dir: Seq<char>)
    ensures
        !reversed(materialized(st, id, hypr_dir), hypr_dir).install_dir,
        reversed(materialized(st, id, hypr_dir), hypr_dir).installed is None,
        !any_line_contains(
            reversed(materialized(st, id, hypr_dir), hypr_dir).config,
            theme_source_line(hypr_dir),
        ),
{
    let t = theme_source_line(hypr_dir);
    let m = materialized_config(st.config, hypr_dir);
    let pred = |l: Seq<char>| !seq_contains(l, t);
    assert forall|i: int| 0 <= i < m.filter(pred).len() implies !seq_contains(#[trigger] m.filter(pred)[i], t) by {
        m.lemma_filter_pred(pred, i);
    }
}

} // verus!
