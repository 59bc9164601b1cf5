//! The installed theme and the steps that materialize or reverse it.

use vstd::prelude::*;
use crate::cache::{find_saved, SavedTheme};
use crate::dots::PlacementError;
use crate::identity::{opt_seq, same_id};
use crate::manifest::{is_valid_name, valid_name, Config};
use crate::placement::{
    any_line_contains, appended, install_dir_of, materialized_config, lemma_materialize_idempotent, lemma_reverse_undoes_materialize, materialized,
    prepended, reversed, reversed_config, theme_source_line, variables_source_line, HyprDirModel,
};
use crate::text::{join, join_path, seq_contains};

verus! {

/// The theme materialized into a compositor config directory.
pub struct InstalledTheme {
    /// The compositor config directory it is installed in.
    pub path: String,
    /// The manifest copy kept in the install sub-path.
    pub config: Config,
}

/// One file system step of placing or removing a theme, performed in order.
pub enum PlacementStep {
    /// Create a directory and its parents.
    CreateDir(String),
    /// Copy the contents of a directory into another, overwriting.
    CopyDirContents { from: String, to: String },
    /// Delete `to` if it exists, then copy `from` (a file or a whole directory) there.
    Replace { from: String, to: String },
    /// Source the theme in the top-level config of the compositor config directory.
    SourceTheme(String),
    /// Create the variables file if missing and source it at the top of the top-level config.
    SetupVariables(String),
    /// Copy one file, overwriting.
    CopyFile { from: String, to: String },
    /// Delete a directory recursively.
    RemoveDir(String),
    /// Drop the lines sourcing the theme from the top-level config.
    UnsourceTheme(String),
    /// Run a hook script, if it exists, in `theme_dir` with the hook environment.
    RunHook { script: String, theme_dir: String, install_dir: String, hypr_dir: String },
}

/// The mathematical form of a step.
pub enum StepView {
    CreateDir(Seq<char>),
    CopyDirContents(Seq<char>, Seq<char>),
    Replace(Seq<char>, Seq<char>),
    SourceTheme(Seq<char>),
    SetupVariables(Seq<char>),
    CopyFile(Seq<char>, Seq<char>),
    RemoveDir(Seq<char>),
    UnsourceTheme(Seq<char>),
    RunHook(Seq<char>, Seq<char>, Seq<char>, Seq<char>),
}

impl View for PlacementStep {
    type V = StepView;

    open spec fn view(&self) -> StepView {
        match self {
            PlacementStep::CreateDir(d) => StepView::CreateDir(d@),
            PlacementStep::CopyDirContents { from, to } => StepView::CopyDirContents(from@, to@),
            PlacementStep::Replace { from, to } => StepView::Replace(from@, to@),
            PlacementStep::SourceTheme(d) => StepView::SourceTheme(d@),
            PlacementStep::SetupVariables(d) => StepView::SetupVariables(d@),
            PlacementStep::CopyFile { from, to } => StepView::CopyFile(from@, to@),
            PlacementStep::RemoveDir(d) => StepView::RemoveDir(d@),
            PlacementStep::UnsourceTheme(d) => StepView::UnsourceTheme(d@),
            PlacementStep::RunHook { script, theme_dir, install_dir, hypr_dir } => StepView::RunHook(
                script@,
                theme_dir@,
                install_dir@,
                hypr_dir@,
            ),
        }
    }
}

/// The views of a list of steps.
pub open spec fn step_views(v: Seq<PlacementStep>) -> Seq<StepView> {
    v.map_values(|s: PlacementStep| s@)
}

/// The copies of the dots rules, rule after rule.
pub open spec fn replace_steps(dots: Seq<Seq<(Seq<char>, Seq<char>)>>) -> Seq<StepView>
    decreases dots.len(),
{
    if dots.len() == 0 {
        Seq::empty()
    } else {
        replace_steps(dots.drop_last()) + dots.last().map_values(
            |p: (Seq<char>, Seq<char>)| StepView::Replace(p.0, p.1),
        )
    }
}

/// The views of the dots selections.
pub open spec fn dots_views(v: Seq<Vec<(String, String)>>) -> Seq<Seq<(Seq<char>, Seq<char>)>> {
    v.map_values(|r: Vec<(String, String)>| r@.map_values(|p: (String, String)| (p.0@, p.1@)))
}

/// The manifest copy in a compositor config directory.
pub open spec fn installed_manifest_of(hypr_dir: Seq<char>) -> Seq<char> {
    join_path(install_dir_of(hypr_dir), "hyprtheme.toml"@)
}

/// The steps that materialize `saved` into `hypr_dir`, then run its setup hook.
pub open spec fn materialize_steps(
    theme_dir: Seq<char>,
    location: Seq<char>,
    manifest: Seq<char>,
    setup: Seq<char>,
    hypr_dir: Seq<char>,
    dots: Seq<Seq<(Seq<char>, Seq<char>)>>,
) -> Seq<StepView> {
    let install = install_dir_of(hypr_dir);
    seq![
        StepView::CreateDir(install),
        StepView::CopyDirContents(join_path(theme_dir, location), install),
    ] + replace_steps(dots) + seq![
        StepView::SourceTheme(hypr_dir),
        StepView::SetupVariables(hypr_dir),
        StepView::CopyFile(manifest, installed_manifest_of(hypr_dir)),
        StepView::RunHook(join_path(theme_dir, setup), theme_dir, install, hypr_dir),
    ]
}

/// The install sub-path of a compositor config directory.
pub fn install_dir(hypr_dir: &str) -> (r: String)
    ensures
        r@ == install_dir_of(hypr_dir@),
{
    proof {
        reveal_strlit("hyprtheme");
    }
    join(hypr_dir, "hyprtheme")
}

/// Where the manifest copy of the installed theme lies.
pub fn installed_manifest_path(hypr_dir: &str) -> (r: String)
    ensures
        r@ == installed_manifest_of(hypr_dir@),
{
    let d = install_dir(hypr_dir);
    proof {
        reveal_strlit("hyprtheme.toml");
    }
    join(d.as_str(), "hyprtheme.toml")
}

/// The steps that materialize `saved` into the compositor config directory `hypr_dir`; a
/// theme whose name holds characters outside the allowed set is refused before any step.
/// `source_exists` tells whether the theme's compositor configuration subtree exists;
/// `dots` holds, rule by rule, the copies that `select_dots` chose.
pub fn materialize_plan(saved: &SavedTheme, hypr_dir: &str, source_exists: bool, dots: &Vec<Vec<(String, String)>>) -> (r: Result<Vec<PlacementStep>, PlacementError>)
    ensures
        !valid_name(saved.config.meta.name@) ==> (r matches Err(PlacementError::InvalidName(n)) && n@ == saved.config.meta.name@),
        valid_name(saved.config.meta.name@) && source_exists ==> (r matches Ok(steps) && step_views(steps@) == materialize_steps(
            saved.path@,
            saved.config.hypr.location@,
            saved.config_path@,
            saved.config.lifetime.setup@,
            hypr_dir@,
            dots_views(dots@),
        )),
        valid_name(saved.config.meta.name@) && !source_exists ==> (r matches Err(PlacementError::NoCompositorConfig(p)) && p@ == join_path(
            saved.path@,
            saved.config.hypr.location@,
        )),
{
    if !is_valid_name(saved.config.meta.name.as_str()) {
        return Err(PlacementError::InvalidName(saved.config.meta.name.clone()));
    }
    let source = join(saved.path.as_str(), saved.config.hypr.location.as_str());
    if !source_exists {
        return Err(PlacementError::NoCompositorConfig(source));
    }
    let install = install_dir(hypr_dir);
    let mut steps: Vec<PlacementStep> = Vec::new();
    steps.push(PlacementStep::CreateDir(install.clone()));
    steps.push(PlacementStep::CopyDirContents { from: source, to: install.clone() });
    let ghost dv = dots_views(dots@);
    let mut i: usize = 0;
    while i < dots.len()
        invariant
            i <= dots@.len(),
            dv == dots_views(dots@),
            install@ == install_dir_of(hypr_dir@),
            step_views(steps@) == seq![
                StepView::CreateDir(install_dir_of(hypr_dir@)),
                StepView::CopyDirContents(join_path(saved.path@, saved.config.hypr.location@), install_dir_of(hypr_dir@)),
            ] + replace_steps(dv.subrange(0, i as int)),
        decreases dots@.len() - i,
    {
        let rule = &dots[i];
        let ghost base = step_views(steps@);
        let mut k: usize = 0;
        while k < rule.len()
            invariant
                i < dots@.len(),
                rule == dots@[i as int],
                k <= rule@.len(),
                dv == dots_views(dots@),
                step_views(steps@) == base + dv[i as int].subrange(0, k as int).map_values(
                    |p: (Seq<char>, Seq<char>)| StepView::Replace(p.0, p.1),
                ),
            decreases rule@.len() - k,
        {
            let ghost before = step_views(steps@);
            steps.push(PlacementStep::Replace { from: rule[k].0.clone(), to: rule[k].1.clone() });
            proof {
                assert(dv[i as int][k as int] == (rule@[k as int].0@, rule@[k as int].1@));
                assert(step_views(steps@) =~= before.push(StepView::Replace(rule@[k as int].0@, rule@[k as int].1@)));
                assert(dv[i as int].subrange(0, k + 1).map_values(|p: (Seq<char>, Seq<char>)| StepView::Replace(p.0, p.1))
                    =~= dv[i as int].subrange(0, k as int).map_values(|p: (Seq<char>, Seq<char>)| StepView::Replace(p.0, p.1)).push(StepView::Replace(rule@[k as int].0@, rule@[k as int].1@)));
            }
            k += 1;
        }
        proof {
            assert(dv[i as int].subrange(0, k as int) =~= dv[i as int]);
            assert(dv.subrange(0, i + 1).drop_last() =~= dv.subrange(0, i as int));
            assert(dv.subrange(0, i + 1).last() == dv[i as int]);
        }
        i += 1;
    }
    proof {
        assert(dv.subrange(0, i as int) =~= dv);
    }
    steps.push(PlacementStep::SourceTheme(hypr_dir.to_owned()));
    steps.push(PlacementStep::SetupVariables(hypr_dir.to_owned()));
    steps.push(PlacementStep::CopyFile { from: saved.config_path.clone(), to: installed_manifest_path(hypr_dir) });
    steps.push(PlacementStep::RunHook {
        script: join(saved.path.as_str(), saved.config.lifetime.setup.as_str()),
        theme_dir: saved.path.clone(),
        install_dir: install,
        hypr_dir: hypr_dir.to_owned(),
    });
    proof {
        assert(step_views(steps@) =~= materialize_steps(
            saved.path@,
            saved.config.hypr.location@,
            saved.config_path@,
            saved.config.lifetime.setup@,
            hypr_dir@,
            dv,
        ));
    }
    Ok(steps)
}

/// The steps that reverse what was materialized into `hypr_dir`, then run the cleanup hook of
/// the theme checked out in `theme_dir`, when it is known.
pub open spec fn reverse_steps(hypr_dir: Seq<char>, cleanup: Seq<char>, theme_dir: Option<Seq<char>>) -> Seq<StepView> {
    seq![StepView::RemoveDir(install_dir_of(hypr_dir)), StepView::UnsourceTheme(hypr_dir)] + match theme_dir {
        Some(d) => seq![StepView::RunHook(join_path(d, cleanup), d, install_dir_of(hypr_dir), hypr_dir)],
        None => Seq::empty(),
    }
}

/// How to bring the installed theme up to date.
pub enum UpdateAction {
    /// Pull the saved theme at this index of the cache listing, then materialize it again.
    Pull(usize),
    /// The theme is no longer saved: download it again, then materialize it.
    Download { repo: String, branch: Option<String> },
}

/// The environment a hook runs with.
pub open spec fn hook_env_spec(theme_dir: Seq<char>, install: Seq<char>, hypr_dir: Seq<char>) -> Seq<(Seq<char>, Seq<char>)> {
    seq![("THEME_DIR"@, theme_dir), ("HYPR_INSTALL_DIR"@, install), ("HYPR_CONFIG_DIR"@, hypr_dir)]
}

/// The variables a hook finds in its environment.
pub fn hook_env(theme_dir: &str, install: &str, hypr_dir: &str) -> (r: Vec<(String, String)>)
    ensures
        r@.map_values(|p: (String, String)| (p.0@, p.1@)) == hook_env_spec(theme_dir@, install@, hypr_dir@),
{
    let mut r: Vec<(String, String)> = Vec::new();
    r.push(("THEME_DIR".to_owned(), theme_dir.to_owned()));
    r.push(("HYPR_INSTALL_DIR".to_owned(), install.to_owned()));
    r.push(("HYPR_CONFIG_DIR".to_owned(), hypr_dir.to_owned()));
    proof {
        assert(r@.map_values(|p: (String, String)| (p.0@, p.1@)) =~= hook_env_spec(theme_dir@, install@, hypr_dir@));
    }
    r
}

/// The installed theme of the compositor config directory `hypr_dir`, given the manifest
/// copy read from its install sub-path, if there is one.
pub fn get(hypr_dir: &str, manifest: Option<Config>) -> (r: Option<InstalledTheme>)
    ensures
        match manifest {
            Some(c) => r matches Some(t) && t.path@ == hypr_dir@ && t.config == c,
            None => r is None,
        },
{
    match manifest {
        Some(c) => Some(InstalledTheme { path: hypr_dir.to_owned(), config: c }),
        None => None,
    }
}

impl InstalledTheme {
    /// The steps that uninstall this theme: delete the install sub-path, drop the source
    /// line, then run the cleanup hook of the saved checkout in `theme_dir`, when known.
    /// The variables file and the dotfiles stay.
    pub fn uninstall(self, theme_dir: Option<String>) -> (r: Vec<PlacementStep>)
        ensures
            step_views(r@) == reverse_steps(self.path@, self.config.lifetime.cleanup@, opt_seq(theme_dir)),
    {
        let install = install_dir(self.path.as_str());
        let mut steps: Vec<PlacementStep> = Vec::new();
        steps.push(PlacementStep::RemoveDir(install.clone()));
        steps.push(PlacementStep::UnsourceTheme(self.path.clone()));
        match theme_dir {
            Some(d) => {
                steps.push(PlacementStep::RunHook {
                    script: join(d.as_str(), self.config.lifetime.cleanup.as_str()),
                    theme_dir: d,
                    install_dir: install,
                    hypr_dir: self.path,
                });
            },
            None => {},
        }
        proof {
            assert(step_views(steps@) =~= reverse_steps(self.path@, self.config.lifetime.cleanup@, opt_seq(theme_dir)));
        }
        steps
    }

    /// How to update this theme given the saved themes of the cache: pull the first saved
    /// theme with this id, or download it again when none is saved.
    pub fn update(&self, saved: &Vec<SavedTheme>) -> (r: UpdateAction)
        ensures
            match r {
                UpdateAction::Pull(i) => i < saved@.len() && same_id(saved@[i as int].config.get_id_spec(), self.config.get_id_spec())
                    && forall|j: int| 0 <= j < i ==> !same_id(#[trigger] saved@[j].config.get_id_spec(), self.config.get_id_spec()),
                UpdateAction::Download { repo, branch } => repo@ == self.config.meta.repo@ && opt_seq(branch) == opt_seq(self.config.meta.branch)
                    && forall|j: int| 0 <= j < saved@.len() ==> !same_id(#[trigger] saved@[j].config.get_id_spec(), self.config.get_id_spec()),
            },
    {
        let id = self.config.get_id();
        match find_saved(saved, &id) {
            Some(i) => UpdateAction::Pull(i),
            None => UpdateAction::Download { repo: id.repo, branch: id.branch },
        }
    }

    /// The dots rules as source and destination.
    pub fn get_links(&self) -> (r: Vec<(String, Option<String>)>)
        ensures
            r@.len() == self.config.dots@.len(),
            forall|i: int| 0 <= i < r@.len() ==> (#[trigger] r@[i]).0@ == self.config.dots@[i].from@ && opt_seq(r@[i].1) == opt_seq(self.config.dots@[i].to),
    {
        let mut r: Vec<(String, Option<String>)> = Vec::new();
        let mut i: usize = 0;
        while i < self.config.dots.len()
            invariant
                i <= self.config.dots@.len(),
                r@.len() == i,
                forall|k: int| 0 <= k < i ==> (#[trigger] r@[k]).0@ == self.config.dots@[k].from@ && opt_seq(r@[k].1) == opt_seq(self.config.dots@[k].to),
            decreases self.config.dots@.len() - i,
        {
            let d = &self.config.dots[i];
            r.push((d.from.clone(), crate::identity::copy_opt(&d.to)));
            i += 1;
        }
        r
    }

    /// The paths of the optional extra configurations in the install sub-path.
    pub fn get_hypr_modules(&self) -> (r: Vec<String>)
        ensures
            r@.len() == self.config.extras@.len(),
            forall|i: int| 0 <= i < r@.len() ==> (#[trigger] r@[i])@ == join_path(install_dir_of(self.path@), self.config.extras@[i].path@),
    {
        let install = install_dir(self.path.as_str());
        let mut r: Vec<String> = Vec::new();
        let mut i: usize = 0;
        while i < self.config.extras.len()
            invariant
                i <= self.config.extras@.len(),
                install@ == install_dir_of(self.path@),
                r@.len() == i,
                forall|k: int| 0 <= k < i ==> (#[trigger] r@[k])@ == join_path(install_dir_of(self.path@), self.config.extras@[k].path@),
            decreases self.config.extras@.len() - i,
        {
            r.push(join(install.as_str(), self.config.extras[i].path.as_str()));
            i += 1;
        }
        r
    }

    /// The location of the compositor configuration in the theme.
    pub fn get_hypr_config(&self) -> (r: String)
        ensures
            r@ == self.config.hypr.location@,
    {
        self.config.hypr.location.clone()
    }
}

/// What one step does to the parts of the compositor config directory `h` that the engine
/// maintains.
pub open spec fn apply_step(st: HyprDirModel, s: StepView, h: Seq<char>) -> HyprDirModel {
    match s {
        StepView::CreateDir(d) => if d == install_dir_of(h) {
            HyprDirModel { install_dir: true, ..st }
        } else {
            st
        },
        StepView::SourceTheme(d) => if d == h {
            HyprDirModel { config: appended(st.config, theme_source_line(h)), ..st }
        } else {
            st
        },
        StepView::SetupVariables(d) => if d == h {
            HyprDirModel { variables_file: true, config: prepended(st.config, variables_source_line(h)), ..st }
        } else {
            st
        },
        StepView::CopyFile(from, to) => if to == installed_manifest_of(h) {
            HyprDirModel { installed: Some(from), ..st }
        } else {
            st
        },
        StepView::RemoveDir(d) => if d == install_dir_of(h) {
            HyprDirModel { install_dir: false, installed: None, ..st }
        } else {
            st
        },
        StepView::UnsourceTheme(d) => if d == h {
            HyprDirModel { config: reversed_config(st.config, h), ..st }
        } else {
            st
        },
        _ => st,
    }
}

/// What performing the steps in order does to the directory `h`.
pub open spec fn apply_steps(st: HyprDirModel, steps: Seq<StepView>, h: Seq<char>) -> HyprDirModel
    decreases steps.len(),
{
    if steps.len() == 0 {
        st
    } else {
        apply_step(apply_steps(st, steps.drop_last(), h), steps.last(), h)
    }
}

proof fn lemma_apply_concat(st: HyprDirModel, a: Seq<StepView>, b: Seq<StepView>, h: Seq<char>)
    ensures
        apply_steps(st, a + b, h) == apply_steps(apply_steps(st, a, h), b, h),
    decreases b.len(),
{
    if b.len() == 0 {
        assert(a + b =~= a);
    } else {
        lemma_apply_concat(st, a, b.drop_last(), h);
        assert((a + b).drop_last() =~= a + b.drop_last());
    }
}

proof fn lemma_replaces_keep(st: HyprDirModel, dots: Seq<Seq<(Seq<char>, Seq<char>)>>, h: Seq<char>)
    ensures
        apply_steps(st, replace_steps(dots), h) == st,
    decreases dots.len(),
{
    if dots.len() > 0 {
        lemma_replaces_keep(st, dots.drop_last(), h);
        let last = dots.last().map_values(|p: (Seq<char>, Seq<char>)| StepView::Replace(p.0, p.1));
        lemma_apply_concat(st, replace_steps(dots.drop_last()), last, h);
        lemma_replace_run_keeps(st, last, h);
    }
}

proof fn lemma_replace_run_keeps(st: HyprDirModel, run: Seq<StepView>, h: Seq<char>)
    requires
        forall|i: int| 0 <= i < run.len() ==> (#[trigger] run[i]) is Replace,
    ensures
        apply_steps(st, run, h) == st,
    decreases run.len(),
{
    if run.len() > 0 {
        lemma_replace_run_keeps(st, run.drop_last(), h);
    }
}

/// Performing the steps of `materialize_plan` leaves the directory materialized.
pub proof fn lemma_plan_materializes(
    st: HyprDirModel,
    theme_dir: Seq<char>,
    location: Seq<char>,
    manifest: Seq<char>,
    setup: Seq<char>,
    h: Seq<char>,
    dots: Seq<Seq<(Seq<char>, Seq<char>)>>,
)
    ensures
        apply_steps(st, materialize_steps(theme_dir, location, manifest, setup, h, dots), h) == materialized(st, manifest, h),
{
    reveal_with_fuel(apply_steps, 5);
    let install = install_dir_of(h);
    let head = seq![StepView::CreateDir(install), StepView::CopyDirContents(join_path(theme_dir, location), install)];
    let tail = seq![
        StepView::SourceTheme(h),
        StepView::SetupVariables(h),
        StepView::CopyFile(manifest, installed_manifest_of(h)),
        StepView::RunHook(join_path(theme_dir, setup), theme_dir, install, h),
    ];
    lemma_apply_concat(st, head + replace_steps(dots), tail, h);
    lemma_apply_concat(st, head, replace_steps(dots), h);
    let s1 = apply_steps(st, head, h);
    lemma_replaces_keep(s1, dots, h);
    assert(head.drop_last().drop_last() =~= Seq::<StepView>::empty());
    assert(tail.drop_last().drop_last().drop_last().drop_last() =~= Seq::<StepView>::empty());
    assert(tail.drop_last().drop_last().drop_last() =~= seq![StepView::SourceTheme(h)]);
    assert(tail.drop_last().drop_last() =~= seq![StepView::SourceTheme(h), StepView::SetupVariables(h)]);
    assert(tail.drop_last() =~= seq![
        StepView::SourceTheme(h),
        StepView::SetupVariables(h),
        StepView::CopyFile(manifest, installed_manifest_of(h)),
    ]);
    assert(head.drop_last() =~= seq![StepView::CreateDir(install)]);
}

/// Performing the steps of `uninstall` leaves the directory reversed.
pub proof fn lemma_plan_reverses(st: HyprDirModel, h: Seq<char>, cleanup: Seq<char>, theme_dir: Option<Seq<char>>)
    ensures
        apply_steps(st, reverse_steps(h, cleanup, theme_dir), h) == reversed(st, h),
{
    reveal_with_fuel(apply_steps, 4);
    let steps = reverse_steps(h, cleanup, theme_dir);
    match theme_dir {
        Some(d) => {
            assert(steps.drop_last() =~= seq![StepView::RemoveDir(install_dir_of(h)), StepView::UnsourceTheme(h)]);
        },
        None => {
            assert(steps =~= seq![StepView::RemoveDir(install_dir_of(h)), StepView::UnsourceTheme(h)]);
        },
    }
    let two = seq![StepView::RemoveDir(install_dir_of(h)), StepView::UnsourceTheme(h)];
    assert(two.drop_last().drop_last() =~= Seq::<StepView>::empty());
    assert(two.drop_last() =~= seq![StepView::RemoveDir(install_dir_of(h))]);
}

/// Performing the uninstall steps after the install steps leaves no install sub-path, no
/// manifest copy, and no line sourcing the theme in the top-level config.
pub proof fn lemma_uninstall_after_install(
    st: HyprDirModel,
    theme_dir: Seq<char>,
    location: Seq<char>,
    manifest: Seq<char>,
    setup: Seq<char>,
    cleanup: Seq<char>,
    h: Seq<char>,
    dots: Seq<Seq<(Seq<char>, Seq<char>)>>,
    hook_dir: Option<Seq<char>>,
)
    ensures
        ({
            let after = apply_steps(
                apply_steps(st, materialize_steps(theme_dir, location, manifest, setup, h, dots), h),
                reverse_steps(h, cleanup, hook_dir),
                h,
            );
            &&& !after.install_dir
            &&& after.installed is None
            &&& !any_line_contains(after.config, theme_source_line(h))
        }),
{
    lemma_plan_materializes(st, theme_dir, location, manifest, setup, h, dots);
    let m = materialized(st, manifest, h);
    lemma_plan_reverses(m, h, cleanup, hook_dir);
    lemma_reverse_undoes_materialize(st, manifest, h);
}

/// Performing the install steps twice leaves the directory as performing them once does.
pub proof fn lemma_install_twice(
    st: HyprDirModel,
    theme_dir: Seq<char>,
    location: Seq<char>,
    manifest: Seq<char>,
    setup: Seq<char>,
    h: Seq<char>,
    dots: Seq<Seq<(Seq<char>, Seq<char>)>>,
)
    ensures
        ({
            let steps = materialize_steps(theme_dir, location, manifest, setup, h, dots);
            apply_steps(apply_steps(st, steps, h), steps, h) == apply_steps(st, steps, h)
        }),
{
    lemma_plan_materializes(st, theme_dir, location, manifest, setup, h, dots);
    lemma_plan_materializes(materialized(st, manifest, h), theme_dir, location, manifest, setup, h, dots);
    lemma_materialize_idempotent(st, manifest, h);
}

/// How many lines of `lines` hold `s`.
pub open spec fn lines_holding(lines: Seq<Seq<char>>, s: Seq<char>) -> nat {
    lines.filter(|l: Seq<char>| seq_contains(l, s)).len()
}

proof fn lemma_none_holding(c: Seq<Seq<char>>, t: Seq<char>)
    requires
        !any_line_contains(c, t),
    ensures
        lines_holding(c, t) == 0,
    decreases c.len(),
{
    if c.len() > 0 {
        let pred = |l: Seq<char>| seq_contains(l, t);
        let d = c.drop_last();
        assert forall|i: int| 0 <= i < d.len() implies !seq_contains(#[trigger] d[i], t) by {
            assert(d[i] == c[i]);
        }
        lemma_none_holding(d, t);
        d.lemma_filter_push(c.last(), pred);
        assert(d.push(c.last()) =~= c);
        assert(!seq_contains(c[c.len() - 1], t));
    }
}

proof fn lemma_some_holding(c: Seq<Seq<char>>, t: Seq<char>)
    requires
        any_line_contains(c, t),
    ensures
        lines_holding(c, t) >= 1,
{
    let pred = |l: Seq<char>| seq_contains(l, t);
    let i = choose|i: int| 0 <= i < c.len() && seq_contains(#[trigger] c[i], t);
    c.lemma_filter_contains(pred, i);
}

proof fn lemma_variables_line_apart(h: Seq<char>)
    ensures
        !seq_contains(variables_source_line(h), theme_source_line(h)),
{
    reveal_strlit("source=");
    reveal_strlit("variables.conf");
    reveal_strlit("hyprtheme/hyprtheme.conf");
    assert(variables_source_line(h).len() < theme_source_line(h).len());
}

/// The top-level config holds exactly one line sourcing the theme after materializing, when
/// it held at most one before.
pub proof fn lemma_materialized_config_sources_once(c: Seq<Seq<char>>, h: Seq<char>)
    requires
        lines_holding(c, theme_source_line(h)) <= 1,
    ensures
        lines_holding(materialized_config(c, h), theme_source_line(h)) == 1,
{
    let t = theme_source_line(h);
    let v = variables_source_line(h);
    let pred = |l: Seq<char>| seq_contains(l, t);
    let a = appended(c, t);
    if any_line_contains(c, t) {
        lemma_some_holding(c, t);
    } else {
        lemma_none_holding(c, t);
        c.lemma_filter_len_push(pred, t);
        assert(t.subrange(0, t.len() as int) =~= t);
        assert(crate::text::occurs_at(t, t, 0));
    }
    assert(lines_holding(a, t) == 1);
    if !any_line_contains(a, v) {
        lemma_variables_line_apart(h);
        let e = Seq::<Seq<char>>::empty();
        e.lemma_filter_push(v, pred);
        assert(e.push(v) =~= seq![v]);
        assert(e.filter(pred) =~= e) by {
            reveal(Seq::filter);
        }
        Seq::filter_distributes_over_add(seq![v], a, pred);
        assert(seq![v].filter(pred).len() == 0);
    }
}

/// Installing a theme places it: the install sub-path and the manifest copy exist, the
/// variables file exists, and some line of the top-level config sources the theme. Installing
/// it a second time leaves exactly one such line, provided there was at most one before the
/// first install.
pub proof fn lemma_install_places_and_sources_once(
    st: HyprDirModel,
    theme_dir: Seq<char>,
    location: Seq<char>,
    manifest: Seq<char>,
    setup: Seq<char>,
    h: Seq<char>,
    dots: Seq<Seq<(Seq<char>, Seq<char>)>>,
)
    ensures
        ({
            let steps = materialize_steps(theme_dir, location, manifest, setup, h, dots);
            let once = apply_steps(st, steps, h);
            &&& once.install_dir
            &&& once.installed == Some(manifest)
            &&& once.variables_file
            &&& any_line_contains(once.config, theme_source_line(h))
            &&& lines_holding(st.config, theme_source_line(h)) <= 1 ==> lines_holding(once.config, theme_source_line(h)) == 1
                && lines_holding(apply_steps(once, steps, h).config, theme_source_line(h)) == 1
        }),
{
    let t = theme_source_line(h);
    lemma_plan_materializes(st, theme_dir, location, manifest, setup, h, dots);
    lemma_install_twice(st, theme_dir, location, manifest, setup, h, dots);
    lemma_materialize_idempotent(st, manifest, h);
    let a = appended(st.config, t);
    if !any_line_contains(st.config, t) {
        assert(a[st.config.len() as int] == t);
        assert(t.subrange(0, t.len() as int) =~= t);
        assert(crate::text::occurs_at(t, t, 0));
        assert(any_line_contains(a, t));
    }
    let v = variables_source_line(h);
    if !any_line_contains(a, v) {
        let i = choose|i: int| 0 <= i < a.len() && seq_contains(#[trigger] a[i], t);
        assert((seq![v] + a)[i + 1] == a[i]);
    }
    if lines_holding(st.config, t) <= 1 {
        lemma_materialized_config_sources_once(st.config, h);
    }
}

} // verus!
