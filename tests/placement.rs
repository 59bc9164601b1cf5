use hyprtheme::cache::SavedTheme;
use hyprtheme::dots::{child_of, is_under, select_dots, PlacementError};
use hyprtheme::installed::{get, hook_env, install_dir, installed_manifest_path, materialize_plan, PlacementStep};
use hyprtheme::manifest::{Config, ConfigLink, RawConfig};
use hyprtheme::placement::{create_hyrptheme_source_string, create_source_string, source_theme, source_variables, unsource_theme};

fn lines(v: &[&str]) -> Vec<String> {
    v.iter().map(|s| s.to_string()).collect()
}

fn manifest(dots: Vec<ConfigLink>) -> Config {
    let raw = RawConfig {
        name: Some("alpha".to_string()),
        description: None,
        version: None,
        author: None,
        repo: Some("https://example.org/u/a.git".to_string()),
        branch: None,
        location: Some("hypr".to_string()),
        minimum_hyprland_version: None,
        dots,
        setup: None,
        cleanup: None,
        extras: vec![],
        dependencies: vec![],
        format_version: None,
    };
    match Config::from_raw(raw) {
        Ok(c) => c,
        Err(_) => panic!("expected a manifest"),
    }
}

#[test]
fn source_strings() {
    assert_eq!(create_source_string("variables.conf", "/cfg"), "source=/cfg/variables.conf");
    assert_eq!(create_source_string("/abs/x.conf", "/cfg/"), "source=/abs/x.conf");
    assert_eq!(create_hyrptheme_source_string("/cfg/"), "source=/cfg/hyprtheme/hyprtheme.conf");
}

#[test]
fn install_sources_theme_once() {
    let first = source_theme(lines(&["exec = waybar"]), "/cfg");
    assert_eq!(first, lines(&["exec = waybar", "source=/cfg/hyprtheme/hyprtheme.conf"]));
    let second = source_theme(first.clone(), "/cfg");
    assert_eq!(second, first);
}

#[test]
fn variables_are_sourced_first_and_once() {
    let a = source_variables(lines(&["x = 1"]), "/cfg");
    assert_eq!(a, lines(&["source=/cfg/variables.conf", "x = 1"]));
    assert_eq!(source_variables(a.clone(), "/cfg"), a);
}

#[test]
fn uninstall_removes_source_line() {
    let installed = source_variables(source_theme(lines(&["x = 1"]), "/cfg"), "/cfg");
    let after = unsource_theme(installed, "/cfg");
    assert_eq!(after, lines(&["source=/cfg/variables.conf", "x = 1"]));
    assert_eq!(unsource_theme(lines(&[]), "/cfg"), lines(&[]));
}

#[test]
fn materialize_steps_in_order() {
    let saved = SavedTheme {
        path: "/c/themes/example.org.u.a".to_string(),
        config_path: "/c/themes/example.org.u.a/hyprtheme.toml".to_string(),
        config: manifest(vec![]),
    };
    let dots = vec![vec![("/c/themes/example.org.u.a/dots/kitty".to_string(), "/home/u/.config/kitty".to_string())]];
    let steps = match materialize_plan(&saved, "/cfg", true, &dots) {
        Ok(s) => s,
        Err(_) => panic!("expected steps"),
    };
    assert_eq!(steps.len(), 7);
    assert!(matches!(&steps[0], PlacementStep::CreateDir(d) if d == "/cfg/hyprtheme"));
    assert!(matches!(&steps[1], PlacementStep::CopyDirContents { from, to } if from == "/c/themes/example.org.u.a/hypr" && to == "/cfg/hyprtheme"));
    assert!(matches!(&steps[2], PlacementStep::Replace { to, .. } if to == "/home/u/.config/kitty"));
    assert!(matches!(&steps[3], PlacementStep::SourceTheme(d) if d == "/cfg"));
    assert!(matches!(&steps[4], PlacementStep::SetupVariables(d) if d == "/cfg"));
    assert!(matches!(&steps[5], PlacementStep::CopyFile { to, .. } if to == "/cfg/hyprtheme/hyprtheme.toml"));
    assert!(matches!(&steps[6], PlacementStep::RunHook { script, .. } if script == "/c/themes/example.org.u.a/.hyprtheme/setup.sh"));
}

#[test]
fn missing_compositor_config_is_refused() {
    let saved = SavedTheme { path: "/t".to_string(), config_path: "/t/hyprtheme.toml".to_string(), config: manifest(vec![]) };
    match materialize_plan(&saved, "/cfg", false, &vec![]) {
        Err(PlacementError::NoCompositorConfig(p)) => assert_eq!(p, "/t/hypr"),
        _ => panic!("expected a refusal"),
    }
}

#[test]
fn uninstall_steps_leave_cache_alone() {
    let t = match get("/cfg", Some(manifest(vec![]))) {
        Some(t) => t,
        None => panic!("expected an installed theme"),
    };
    let steps = t.uninstall(Some("/c/themes/example.org.u.a".to_string()));
    assert_eq!(steps.len(), 3);
    assert!(matches!(&steps[0], PlacementStep::RemoveDir(d) if d == "/cfg/hyprtheme"));
    assert!(matches!(&steps[1], PlacementStep::UnsourceTheme(d) if d == "/cfg"));
    assert!(matches!(&steps[2], PlacementStep::RunHook { script, .. } if script == "/c/themes/example.org.u.a/.hyprtheme/cleanup.sh"));
    assert!(get("/cfg", None).is_none());
}

#[test]
fn paths_of_install_sub_path() {
    assert_eq!(install_dir("/cfg"), "/cfg/hyprtheme");
    assert_eq!(installed_manifest_path("/cfg/"), "/cfg/hyprtheme/hyprtheme.toml");
    let env = hook_env("/t", "/cfg/hyprtheme", "/cfg");
    assert_eq!(env[0], ("THEME_DIR".to_string(), "/t".to_string()));
    assert_eq!(env[2], ("HYPR_CONFIG_DIR".to_string(), "/cfg".to_string()));
}

#[test]
fn subtree_and_child_tests() {
    assert!(is_under("hypr", "hypr/"));
    assert!(is_under("hypr/a.conf", "hypr"));
    assert!(!is_under("hyprx", "hypr"));
    assert_eq!(child_of("/t/dots/kitty", "/t/dots"), Some("kitty".to_string()));
    assert_eq!(child_of("/t/dots/kitty/a", "/t/dots/"), None);
    assert_eq!(child_of("/t/other", "/t/dots"), None);
}

#[test]
fn dots_selection_honours_globs() {
    let rule = ConfigLink {
        from: "dots".to_string(),
        to: Some("/home/u/.config".to_string()),
        ignore: vec!["dots/*.md".to_string(), "dots/keep*".to_string()],
        readmit: vec!["dots/keep_me".to_string()],
    };
    let entries = vec![
        "/t/dots/kitty".to_string(),
        "/t/dots/kitty/kitty.conf".to_string(),
        "/t/dots/README.md".to_string(),
        "/t/dots/keep_out".to_string(),
        "/t/dots/keep_me".to_string(),
    ];
    let out = match select_dots(&rule, "/t", "hypr", &entries, "/home/u/.config") {
        Ok(o) => o,
        Err(_) => panic!("expected a selection"),
    };
    assert_eq!(out, vec![
        ("/t/dots/kitty".to_string(), "/home/u/.config/kitty".to_string()),
        ("/t/dots/keep_me".to_string(), "/home/u/.config/keep_me".to_string()),
    ]);
}

#[test]
fn dots_under_compositor_location_are_skipped() {
    let rule = ConfigLink { from: ".".to_string(), to: None, ignore: vec![], readmit: vec![] };
    let entries = vec!["/t/./hypr".to_string(), "/t/./waybar".to_string()];
    let out = match select_dots(&rule, "/t", "hypr", &entries, "/home/u") {
        Ok(o) => o,
        Err(_) => panic!("expected a selection"),
    };
    assert_eq!(out, vec![("/t/./waybar".to_string(), "/home/u/waybar".to_string())]);
}

#[test]
fn bad_glob_is_refused() {
    let rule = ConfigLink { from: "dots".to_string(), to: None, ignore: vec!["a[".to_string()], readmit: vec![] };
    match select_dots(&rule, "/t", "hypr", &vec![], "/home/u") {
        Err(PlacementError::BadGlob(p)) => assert_eq!(p, "a["),
        _ => panic!("expected a bad glob"),
    }
}

#[test]
fn rule_destinations() {
    let given = ConfigLink { from: "dots".to_string(), to: Some("/etc/xdg".to_string()), ignore: vec![], readmit: vec![] };
    assert_eq!(hyprtheme::dots::rule_destination(&given, "/home/u"), "/etc/xdg");
    let tilde = ConfigLink { from: "dots".to_string(), to: Some("~/.config".to_string()), ignore: vec![], readmit: vec![] };
    assert_eq!(hyprtheme::dots::rule_destination(&tilde, "/home/u"), "/home/u/.config");
    let bare = ConfigLink { from: "dots".to_string(), to: Some("~".to_string()), ignore: vec![], readmit: vec![] };
    assert_eq!(hyprtheme::dots::rule_destination(&bare, "/home/u"), "/home/u");
    let other = ConfigLink { from: "dots".to_string(), to: Some("~bob/x".to_string()), ignore: vec![], readmit: vec![] };
    assert_eq!(hyprtheme::dots::rule_destination(&other, "/home/u"), "~bob/x");
    let home = ConfigLink { from: ".config/kitty".to_string(), to: None, ignore: vec![], readmit: vec![] };
    assert_eq!(hyprtheme::dots::rule_destination(&home, "/home/u"), "/home/u/.config/kitty");
}

#[test]
fn deeply_nested_glob_is_refused_not_fatal() {
    let pattern = format!("{}a{}", "{".repeat(300), "}".repeat(300));
    let rule = ConfigLink { from: "dots".to_string(), to: None, ignore: vec![pattern.clone()], readmit: vec![] };
    match select_dots(&rule, "/t", "hypr", &vec!["/t/dots/a".to_string()], "/home/u") {
        Err(PlacementError::BadGlob(p)) => assert_eq!(p, pattern),
        _ => panic!("expected a bad glob"),
    }
}

#[test]
fn invalid_name_is_refused_before_any_step() {
    let mut config = manifest(vec![]);
    config.meta.name = "Ф".to_string();
    let saved = SavedTheme { path: "/t".to_string(), config_path: "/t/hyprtheme.toml".to_string(), config };
    match materialize_plan(&saved, "/cfg", true, &vec![]) {
        Err(PlacementError::InvalidName(n)) => assert_eq!(n, "Ф"),
        _ => panic!("expected a refusal"),
    }
}
