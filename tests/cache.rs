use hyprtheme::cache::{cache_slug, download_plan, sanitize_name, slug_from_parts, CacheError};

#[test]
fn slug_of_plain_repo() {
    match cache_slug("https://example.org/u/a.git", None) {
        Ok(s) => assert_eq!(s, "example.org.u.a"),
        Err(_) => panic!("expected a slug"),
    }
}

#[test]
fn slug_with_branch() {
    match cache_slug("https://example.org/u/a.git", Some("dev/x")) {
        Ok(s) => assert_eq!(s, "example.org.u.a.dev.x"),
        Err(_) => panic!("expected a slug"),
    }
}

#[test]
fn slug_is_the_same_for_the_same_pair() {
    let a = cache_slug("https://a.example/x.git", Some("main"));
    let b = cache_slug("https://a.example/x.git", Some("main"));
    match (a, b) {
        (Ok(x), Ok(y)) => assert_eq!(x, y),
        _ => panic!("expected slugs"),
    }
}

#[test]
fn slug_from_parts_strips_git_suffix() {
    assert_eq!(slug_from_parts("h.org", "/a/b.git", None), "h.org.a.b");
    assert_eq!(slug_from_parts("h.org", "/a\\b", Some("x")), "h.org.a.b.x");
}

#[test]
fn non_url_repo_is_refused() {
    match cache_slug("git@github.com:u/a.git", None) {
        Err(CacheError::InvalidUrl(u)) => assert_eq!(u, "git@github.com:u/a.git"),
        _ => panic!("expected an invalid URL"),
    }
}

#[test]
fn download_plan_clones_shallow_into_slug() {
    let p = match download_plan("/c", "https://example.org/u/a.git", Some("b")) {
        Ok(p) => p,
        Err(_) => panic!("expected a plan"),
    };
    assert_eq!(p.themes_dir, "/c/themes");
    assert_eq!(p.dir, "/c/themes/example.org.u.a.b");
    assert_eq!(p.git_args, vec!["clone", "--depth", "1", "--branch", "b", "https://example.org/u/a.git", "example.org.u.a.b"]);
    let q = match download_plan("/c/", "https://example.org/u/a.git", None) {
        Ok(p) => p,
        Err(_) => panic!("expected a plan"),
    };
    assert_eq!(q.git_args, vec!["clone", "--depth", "1", "https://example.org/u/a.git", "example.org.u.a"]);
}

#[test]
fn sanitized_names() {
    assert_eq!(sanitize_name("a b_c.d/e\\f:g*h?i\"j<k>l|m"), "a-b-c-d-e-f-g-h-i-j-k-l-m");
    assert_eq!(sanitize_name("plain"), "plain");
}
