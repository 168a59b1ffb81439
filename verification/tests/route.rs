use unfurl::route::{Match, Pattern};

#[test]
fn equality() {
    let a = Pattern::new("a/b");
    assert_eq!(a, a);
    let b = Pattern::new("a/b");
    assert_eq!(a, b);
}

#[test]
fn match_path() {
    let p = Pattern::new("a/b");
    assert_eq!(None, p.match_path("a/c"));
    assert_eq!(None, p.match_path("/a/b"));
    assert_eq!(None, p.match_path("/a/b/"));

    let p = Pattern::new("/");
    assert_eq!(Some(Match { vars: vec![] }), p.match_path("/"));
    let p = Pattern::new("a/b");
    assert_eq!(Some(Match { vars: vec![] }), p.match_path("a/b"));
    let p = Pattern::new("/a/b");
    assert_eq!(Some(Match { vars: vec![] }), p.match_path("/a/b"));
    let p = Pattern::new("a/{b}");
    assert_eq!(
        Some(Match { vars: vec![("b".to_string(), "Hello".to_string())] }),
        p.match_path("a/Hello")
    );

    let p = Pattern::new("/{a}/{b}");
    assert_eq!(
        Some(Match {
            vars: vec![
                ("a".to_string(), "Anything".to_string()),
                ("b".to_string(), "Hello".to_string()),
            ]
        }),
        p.match_path("/Anything/Hello")
    );
}

#[test]
fn match_pull_request_route() {
    let p = Pattern::new("/{org}/{repo}/pull/{num}");
    let m = p.match_path("/acme/widgets/pull/42").unwrap();
    assert_eq!(Some(&"acme".to_string()), m.get("org"));
    assert_eq!(Some(&"widgets".to_string()), m.get("repo"));
    assert_eq!(Some(&"42".to_string()), m.get("num"));
    assert_eq!(3, m.vars.len());
    assert_eq!(None, p.match_path("/acme/widgets/issues/42"));
    assert_eq!(None, p.match_path("/acme/pull/42"));
}

#[test]
fn match_get_unbound_name() {
    let p = Pattern::new("/{a}");
    let m = p.match_path("/x").unwrap();
    assert_eq!(Some(&"x".to_string()), m.get("a"));
    assert_eq!(None, m.get("b"));
}

#[test]
fn match_trailing_and_doubled_separators() {
    let p = Pattern::new("/a/b");
    assert_eq!(Some(Match { vars: vec![] }), p.match_path("/a/b/"));
    assert_eq!(Some(Match { vars: vec![] }), p.match_path("/a//b"));
}
