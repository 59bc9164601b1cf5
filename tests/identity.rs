use hyprtheme::identity::{create_theme_id, ThemeId};

#[test]
fn ids_equal_when_repo_and_branch_equal() {
    let a = create_theme_id("https://a.example/x.git", Some("main"));
    let b = create_theme_id("https://a.example/x.git", Some("main"));
    assert!(a.same_as(&b));
}

#[test]
fn ids_differ_by_branch_or_repo() {
    let a = create_theme_id("https://a.example/x.git", Some("main"));
    let b = create_theme_id("https://a.example/x.git", None);
    let c = create_theme_id("https://b.example/x.git", Some("main"));
    assert!(!a.same_as(&b));
    assert!(!a.same_as(&c));
}

#[test]
fn separator_keeps_repo_and_branch_apart() {
    let a = create_theme_id("a@b", None);
    let b = create_theme_id("a", Some("b"));
    assert!(!a.same_as(&b));
}

#[test]
fn unknown_repo_equals_nothing() {
    let a = create_theme_id("unknown", None);
    let b = create_theme_id("unknown", None);
    assert!(!a.same_as(&b));
    assert!(!a.same_as(&a));
}

#[test]
fn printable_form_of_ids() {
    let a = ThemeId::new("https://a.example/x.git".to_string(), Some("dev".to_string()));
    assert_eq!(a.to_string(), "https://a.example/x.git@dev");
    let b = ThemeId::new("https://a.example/x.git".to_string(), None);
    assert_eq!(b.to_string(), "https://a.example/x.git");
}
