use hyprtheme::registry::{list_sources, list_all, resolve, resolve_folded, Item, Resolution, ResolveError};

fn item(name: &str, repo: &str, installed: bool, saved: bool, featured: bool) -> Item {
    Item { name: name.to_string(), installed, saved, repo: repo.to_string(), branch: None, featured }
}

#[test]
fn listing_merges_flags_by_id() {
    let items = vec![
        item("alpha", "https://a.example/x.git", true, false, false),
        item("alpha-saved", "https://a.example/x.git", false, true, false),
        item("beta", "https://b.example/y.git", false, false, true),
        item("alpha-online", "https://a.example/x.git", false, false, true),
    ];
    let out = list_all(&items);
    assert_eq!(out.len(), 2);
    assert_eq!(out[0].name, "alpha");
    assert!(out[0].installed && out[0].saved && out[0].featured);
    assert_eq!(out[1].name, "beta");
    assert!(!out[1].installed && !out[1].saved && out[1].featured);
    assert_eq!(out[0].display(), "alpha [Installed] [Saved] [Featured]");
    assert_eq!(out[1].display(), "beta [Featured]");
}

#[test]
fn same_name_different_repos_is_ambiguous() {
    let items = vec![
        item("alpha", "https://a.example/x.git", false, false, true),
        item("alpha", "https://b.example/x.git", false, false, true),
    ];
    match resolve(&items, "alpha") {
        Err(ResolveError::Ambiguous(ids)) => {
            assert_eq!(ids.len(), 2);
            assert_eq!(ids[0].to_string(), "https://a.example/x.git");
            assert_eq!(ids[1].to_string(), "https://b.example/x.git");
        },
        _ => panic!("expected ambiguity"),
    }
}

#[test]
fn id_match_preempts_names_and_ignores_case() {
    let items = vec![
        item("https://b.example/x.git", "https://a.example/x.git", false, false, true),
        item("alpha", "https://b.example/x.git", false, false, true),
    ];
    match resolve(&items, "HTTPS://B.EXAMPLE/X.GIT") {
        Ok(k) => assert_eq!(k, 1),
        _ => panic!("expected the id match"),
    }
    match resolve(&items, "ALPHA") {
        Ok(k) => assert_eq!(k, 1),
        _ => panic!("expected the name match"),
    }
    match resolve(&items, "gamma") {
        Err(ResolveError::NotFound(s)) => assert_eq!(s, "gamma"),
        _ => panic!("expected not found"),
    }
}

#[test]
fn ids_equal_but_for_case_are_ambiguous() {
    let items = vec![
        item("one", "https://a.example/X.git", false, false, true),
        item("two", "https://a.example/x.git", false, false, true),
        item("three", "https://c.example/z.git", false, false, true),
    ];
    match resolve(&items, "https://a.example/x.git") {
        Err(ResolveError::Ambiguous(ids)) => assert_eq!(ids.len(), 2),
        _ => panic!("expected ambiguity"),
    }
    match resolve(&items, "https://c.example/z.git") {
        Ok(k) => assert_eq!(k, 2),
        _ => panic!("expected the id match"),
    }
}

#[test]
fn folded_resolution_outcomes() {
    let ids = vec!["a".to_string(), "b".to_string()];
    let names = vec!["n".to_string(), "n".to_string()];
    assert!(matches!(resolve_folded(&ids, &names, &"b".to_string()), Resolution::Found(1)));
    let twice = vec!["a".to_string(), "a".to_string()];
    match resolve_folded(&twice, &names, &"a".to_string()) {
        Resolution::Ambiguous(v) => assert_eq!(v, vec![0, 1]),
        _ => panic!("expected ambiguity"),
    }
    assert!(matches!(resolve_folded(&ids, &names, &"x".to_string()), Resolution::NotFound));
    match resolve_folded(&ids, &names, &"n".to_string()) {
        Resolution::Ambiguous(v) => assert_eq!(v, vec![0, 1]),
        _ => panic!("expected ambiguity"),
    }
}

#[test]
fn installed_entry_wins_over_saved_and_featured() {
    let installed = vec![item("mine", "https://a.example/x.git", true, false, false)];
    let saved = vec![item("cached", "https://a.example/x.git", false, true, false), item("other", "https://o.example/o.git", false, true, false)];
    let featured = vec![item("featured", "https://o.example/o.git", false, false, true)];
    let out = list_sources(&installed, &saved, &featured);
    assert_eq!(out.len(), 2);
    assert_eq!(out[0].name, "mine");
    assert!(out[0].installed && out[0].saved && !out[0].featured);
    assert_eq!(out[1].name, "other");
    assert!(out[1].saved && out[1].featured);
}
