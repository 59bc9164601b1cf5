use hyprtheme::manifest::{is_valid_name, Config, ConfigLink, ManifestError, RawConfig};

fn raw(name: Option<&str>) -> RawConfig {
    RawConfig {
        name: name.map(|s| s.to_string()),
        description: None,
        version: Some("1.0".to_string()),
        author: None,
        repo: Some("https://example.org/u/a.git".to_string()),
        branch: None,
        location: Some("hypr".to_string()),
        minimum_hyprland_version: None,
        dots: vec![ConfigLink { from: "dots".to_string(), to: None, ignore: vec![], readmit: vec![] }],
        setup: None,
        cleanup: Some("scripts/down.sh".to_string()),
        extras: vec![],
        dependencies: vec!["waybar".to_string()],
        format_version: None,
    }
}

#[test]
fn cyrillic_name_is_refused() {
    match Config::from_raw(raw(Some("Ф"))) {
        Err(ManifestError::InvalidName(n)) => assert_eq!(n, "Ф"),
        _ => panic!("expected an invalid name"),
    }
}

#[test]
fn allowed_names_are_accepted() {
    for n in ["alpha", "Alpha Theme", "a_b-c 9", ""] {
        assert!(is_valid_name(n));
        assert!(Config::from_raw(raw(Some(n))).is_ok());
    }
    for n in ["a.b", "a/b", "é", "a:b"] {
        assert!(!is_valid_name(n));
        assert!(matches!(Config::from_raw(raw(Some(n))), Err(ManifestError::InvalidName(_))));
    }
}

#[test]
fn missing_required_field_is_named() {
    match Config::from_raw(raw(None)) {
        Err(ManifestError::MissingField(k)) => assert_eq!(k, "meta.name"),
        _ => panic!("expected a missing field"),
    }
    let mut r = raw(Some("alpha"));
    r.location = None;
    match Config::from_raw(r) {
        Err(ManifestError::MissingField(k)) => assert_eq!(k, "hypr.location"),
        _ => panic!("expected a missing field"),
    }
}

#[test]
fn optional_fields_take_defaults() {
    let c = match Config::from_raw(raw(Some("alpha"))) {
        Ok(c) => c,
        Err(_) => panic!("expected a manifest"),
    };
    assert_eq!(c.meta.name, "alpha");
    assert_eq!(c.meta.description, "");
    assert_eq!(c.meta.version, "1.0");
    assert_eq!(c.lifetime.setup, ".hyprtheme/setup.sh");
    assert_eq!(c.lifetime.cleanup, "scripts/down.sh");
    assert_eq!(c.dependencies, vec!["waybar".to_string()]);
    assert_eq!(c.get_id().to_string(), "https://example.org/u/a.git");
}

#[test]
fn standard_name_is_lowercase_with_underscores() {
    let c = match Config::from_raw(raw(Some("My Cool Theme"))) {
        Ok(c) => c,
        Err(_) => panic!("expected a manifest"),
    };
    assert_eq!(c.meta.name(), "my_cool_theme");
}
