use hyprtheme::subtheme::{get_subtheme, Theme as Legacy, ThemeMap};
use hyprtheme::ansi::{bold, green, red, reset};
use hyprtheme::cache::SavedTheme;
use hyprtheme::manifest::{Config as Manifest, RawConfig};
use hyprtheme::cli::{install_target, List, clean_targets, install_action, remove_allowed, ConflictError, InstallAction, ThemeName};
use hyprtheme::combined::{Config, Module};
use hyprtheme::identity::create_theme_id;
use hyprtheme::index::Theme;
use hyprtheme::registry::Item;

fn item(installed: bool, saved: bool) -> Item {
    Item { name: "alpha".to_string(), installed, saved, repo: "https://example.org/u/a.git".to_string(), branch: None, featured: true }
}

#[test]
fn install_argument_forms() {
    match ThemeName::parse("hyprland-community/hyprtheme") {
        ThemeName::Github((a, r)) => {
            assert_eq!(a, "hyprland-community");
            assert_eq!(r, "hyprtheme");
        },
        _ => panic!("expected the short form"),
    }
    match ThemeName::parse("https://example.org/u/a.git") {
        ThemeName::Git(g) => assert_eq!(g, "https://example.org/u/a.git"),
        _ => panic!("expected a git URL"),
    }
    match ThemeName::parse("alpha") {
        ThemeName::Featured(f) => assert_eq!(f, "alpha"),
        _ => panic!("expected a name"),
    }
}

#[test]
fn install_decisions() {
    assert!(matches!(install_action(&item(false, false), false), Ok(InstallAction::Download)));
    assert!(matches!(install_action(&item(false, true), false), Ok(InstallAction::Materialize)));
    assert!(matches!(install_action(&item(true, true), false), Ok(InstallAction::Materialize)));
    assert!(matches!(install_action(&item(true, false), false), Err(ConflictError::AlreadyInstalled(_))));
    assert!(matches!(install_action(&item(true, false), true), Ok(InstallAction::Download)));
    assert!(matches!(install_action(&item(true, true), true), Ok(InstallAction::Materialize)));
}

#[test]
fn remove_decisions() {
    assert!(remove_allowed(&item(false, true), false).is_ok());
    assert!(matches!(remove_allowed(&item(true, true), false), Err(ConflictError::StillInstalled(_))));
    assert!(remove_allowed(&item(true, true), true).is_ok());
    assert!(matches!(remove_allowed(&item(false, false), true), Err(ConflictError::NotSaved(_))));
}

fn saved(repo: &str) -> SavedTheme {
    let raw = RawConfig {
        name: Some("t".to_string()),
        description: None,
        version: None,
        author: None,
        repo: Some(repo.to_string()),
        branch: None,
        location: Some("hypr".to_string()),
        minimum_hyprland_version: None,
        dots: vec![],
        setup: None,
        cleanup: None,
        extras: vec![],
        dependencies: vec![],
        format_version: None,
    };
    match Manifest::from_raw(raw) {
        Ok(c) => SavedTheme { path: format!("/c/themes/{}", repo), config_path: String::new(), config: c },
        Err(_) => panic!("expected a manifest"),
    }
}

#[test]
fn clean_keeps_only_the_installed_theme() {
    let all = vec![saved("https://a/x.git"), saved("https://b/y.git"), saved("https://c/z.git")];
    assert_eq!(clean_targets(&all, &Some(create_theme_id("https://b/y.git", None))), vec![0, 2]);
    assert_eq!(clean_targets(&all, &None), vec![0, 1, 2]);
    assert!(clean_targets(&vec![], &Some(create_theme_id("x", None))).is_empty());
}

#[test]
fn classification_from_match_results() {
    assert!(matches!(ThemeName::from_matches("a/b", true, false), ThemeName::Github((x, y)) if x == "a" && y == "b"));
    assert!(matches!(ThemeName::from_matches("ab", true, true), ThemeName::Git(g) if g == "ab"));
    assert!(matches!(ThemeName::from_matches("a/b", false, false), ThemeName::Featured(f) if f == "a/b"));
}

#[test]
fn remove_saved_theme_after_uninstall() {
    let all = vec![saved("https://example.org/u/a.git")];
    let it = Item { name: "alpha".to_string(), installed: false, saved: true, repo: "https://example.org/u/a.git".to_string(), branch: None, featured: true };
    assert!(remove_allowed(&it, false).is_ok());
    assert_eq!(clean_targets(&all, &None), vec![0]);
}

#[test]
fn color_codes() {
    assert_eq!(red(false), "\x1b[31m");
    assert_eq!(red(true), "\x1b[41m");
    assert_eq!(green(false), "\x1b[32m");
    assert_eq!(green(true), "\x1b[42m");
    assert_eq!(reset(), "\x1b[0m");
    assert_eq!(bold(), "\x1b[1m");
}

#[test]
fn combined_configuration_text() {
    let mut c = Config::new();
    let t = Theme::new("Dark Mode".to_string(), String::new(), None, String::new(), vec![]);
    assert!(c.add_module(Module::new(Some(t), "/m/dark".to_string())).is_ok());
    assert!(c.add_module(Module::new(None, "/m/Light Bar/".to_string())).is_ok());
    assert!(c.add_module(Module::new(None, "/x/dark".to_string())).is_err());
    assert_eq!(c.modules.len(), 2);
    assert_eq!(c.modules[1].name, "Light Bar");
    let text = c.build();
    assert_eq!(
        text,
        "# modules:dark_mode,Light Bar,\n\n# variables\n$dark_mode=/m/dark\n$light_bar=/m/Light Bar/\n\n# variables end\n\n# import\nsource=/m/dark/theme.conf\nsource=/m/Light Bar//theme.conf\n\n# import end\n"
    );
    assert!(c.remove_module(Module::new(None, "/q/dark".to_string())).is_ok());
    assert_eq!(c.modules.len(), 1);
}

#[test]
fn name_tree_mirrors_nested_themes() {
    let leaf = Legacy { name: "night".to_string(), desc: String::new(), author: String::new(), git: "g2".to_string(), version: String::new(), subthemes: vec![], default_subtheme: String::new(), depends: vec![] };
    let root = Legacy { name: "dark".to_string(), desc: String::new(), author: String::new(), git: "g1".to_string(), version: String::new(), subthemes: vec![leaf], default_subtheme: "night".to_string(), depends: vec![] };
    let m = ThemeMap::from_theme(root);
    assert_eq!(m.name, "dark");
    assert_eq!(m.git, Some("g1".to_string()));
    assert_eq!(m.subthemes.len(), 1);
    assert_eq!(m.subthemes[0].name, "night");
    assert_eq!(m.subthemes[0].git, Some("g2".to_string()));
}

#[test]
fn install_targets() {
    let it = Item { name: "alpha".to_string(), installed: false, saved: false, repo: "https://example.org/u/a.git".to_string(), branch: Some("main".to_string()), featured: true };
    let f = ThemeName::Featured("alpha".to_string());
    assert_eq!(install_target(&f, None, Some(&it)), Some(("https://example.org/u/a.git".to_string(), Some("main".to_string()))));
    assert_eq!(install_target(&f, Some("dev".to_string()), Some(&it)), Some(("https://example.org/u/a.git".to_string(), Some("dev".to_string()))));
    assert_eq!(install_target(&f, None, None), None);
    let g = ThemeName::Github(("a".to_string(), "r".to_string()));
    assert_eq!(install_target(&g, None, None), Some(("https://github.com/a/r.git".to_string(), None)));
    let u = ThemeName::Git("ssh://h/x.git".to_string());
    assert_eq!(install_target(&u, Some("b".to_string()), None), Some(("ssh://h/x.git".to_string(), Some("b".to_string()))));
}

fn legacy(name: &str, default: &str, subthemes: Vec<Legacy>) -> Legacy {
    Legacy { name: name.to_string(), desc: String::new(), author: String::new(), git: String::new(), version: String::new(), subthemes, default_subtheme: default.to_string(), depends: vec![] }
}

#[test]
fn default_subtheme_follows_the_path() {
    let deep = legacy("c", "", vec![]);
    let mid = legacy("b", "", vec![legacy("x", "", vec![]), deep]);
    let root = legacy("a", "b:c", vec![mid]);
    assert_eq!(get_subtheme(&root).map(|t| t.name.clone()), Some("c".to_string()));
    let blank = legacy("a", "  ", vec![]);
    assert!(get_subtheme(&blank).is_none());
    let missing = legacy("a", "b:z", vec![legacy("b", "", vec![])]);
    assert!(get_subtheme(&missing).is_none());
}

#[test]
fn list_options() {
    let none = List { installed: false, online: false, show_installed: false };
    let e = none.effective();
    assert!(e.installed && e.online);
    assert!(none.hides_known_online());
    let only_online = List { installed: false, online: true, show_installed: true };
    assert!(!only_online.hides_known_online());
    let saved_item = item(false, true);
    let mut featured = item(false, false);
    featured.featured = true;
    let mut plain = item(false, true);
    plain.featured = false;
    assert!(none.shows(&plain));
    assert!(!only_online.shows(&plain));
    assert!(only_online.shows(&featured));
    assert!(saved_item.saved);
}

#[test]
fn long_github_author_is_a_name() {
    let long = format!("{}/repo", "a".repeat(40));
    assert!(matches!(ThemeName::parse(&long), ThemeName::Featured(_)));
    let ok = format!("{}/repo", "a".repeat(39));
    assert!(matches!(ThemeName::parse(&ok), ThemeName::Github(_)));
}

#[test]
fn module_names_follow_path_components() {
    assert_eq!(Module::new(None, "/m/a/.".to_string()).name, "a");
    assert_eq!(Module::new(None, "/m/a//".to_string()).name, "a");
    assert_eq!(Module::new(None, "/m/a/./b".to_string()).name, "b");
    assert_eq!(Module::new(None, "/m/..".to_string()).name, "");
    assert_eq!(Module::new(None, "/".to_string()).name, "");
}

#[test]
fn installing_twice_places_the_saved_copy_again() {
    assert!(matches!(install_action(&item(true, true), false), Ok(InstallAction::Materialize)));
}
