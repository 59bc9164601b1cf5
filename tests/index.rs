use hyprtheme::identity::create_theme_id;
use hyprtheme::index::{fetch_index, IndexError, Theme, Themes};

fn entry(name: &str, repo: &str, branch: Option<&str>) -> Theme {
    Theme::new(name.to_string(), repo.to_string(), branch.map(|b| b.to_string()), String::new(), vec![])
}

#[test]
fn blacklisted_ids_never_come_out() {
    let doc = Themes { themes: vec![entry("alpha", "https://a.example/x.git", None), entry("beta", "https://b.example/y.git", None)] };
    let bl = vec![create_theme_id("https://a.example/x.git", None)];
    let r = fetch_index(vec![Ok(doc)], Some(bl));
    assert_eq!(r.themes.len(), 1);
    assert_eq!(r.themes[0].partial.name, "beta");
}

#[test]
fn first_occurrence_wins_across_documents() {
    let d1 = Themes { themes: vec![entry("first", "https://a.example/x.git", None)] };
    let d2 = Themes { themes: vec![entry("second", "https://a.example/x.git", None), entry("gamma", "https://a.example/x.git", Some("dev"))] };
    let r = fetch_index(vec![Ok(d1), Err(IndexError::Fetch("https://down".to_string(), "timeout".to_string())), Ok(d2)], None);
    assert_eq!(r.themes.len(), 2);
    assert_eq!(r.themes[0].partial.name, "first");
    assert_eq!(r.themes[1].partial.name, "gamma");
    assert_eq!(r.errors.len(), 1);
}

#[test]
fn unknown_repos_are_never_merged() {
    let d = Themes { themes: vec![entry("a", "unknown", None), entry("b", "unknown", None)] };
    let r = fetch_index(vec![Ok(d)], Some(vec![create_theme_id("unknown", None)]));
    assert_eq!(r.themes.len(), 2);
}

#[test]
fn empty_index_gives_nothing() {
    let r = fetch_index(vec![], None);
    assert!(r.themes.is_empty());
    assert!(r.errors.is_empty());
}
