use unfurl::config::{Authn, Config, Service};
use unfurl::error::Error;
use unfurl::fetch::{find_response, Response};
use unfurl::link::{parse_link, Link};
use unfurl::route::Pattern;
use unfurl::service::{format_response, Domain, Endpoint};
use unfurl::unfurl::{emit, scan_resolve, Item};

fn pr_endpoint() -> Endpoint {
    Endpoint {
        name: "pr".to_string(),
        route: Pattern::new("/{org}/{repo}/pull/{num}"),
        url: "https://api.github.com/repos/{org}/{repo}/pulls/{num}".to_string(),
        format: "{title} (#{number})".to_string(),
    }
}

fn github_table(conf: &Config) -> unfurl::service::Default {
    let dom = Domain { config: None, headers: vec![], routes: vec![pr_endpoint()] };
    unfurl::service::Default::load_data(conf, vec![("github.com".to_string(), dom)])
}

#[test]
fn format_round_trip() {
    let key = "https://github.com/acme/widgets/pull/42";
    let body = br#"{"number": 42, "title": "Fix bug"}"#.to_vec();
    let rsp = Response::new(key, Ok(body));
    let out = format_response(key, &rsp, "pr", "{title} (#{number})").unwrap();
    assert_eq!("Fix bug (#42)", out);
}

#[test]
fn format_fetch_failure_annotates() {
    let key = "https://github.com/acme/widgets/pull/42";
    let rsp = Response::new(key, Err(Error::Invalid("boom".to_string())));
    let out = format_response(key, &rsp, "pr", "{title}").unwrap();
    assert_eq!("https://github.com/acme/widgets/pull/42 (boom)", out);
}

#[test]
fn format_bad_body_annotates() {
    let key = "https://github.com/acme/widgets/pull/42";
    let rsp = Response::new(key, Ok(b"not json".to_vec()));
    let out = format_response(key, &rsp, "pr", "{title}").unwrap();
    assert!(out.starts_with("https://github.com/acme/widgets/pull/42 ("));
    assert!(out.ends_with(")"));
}

#[test]
fn format_bad_template_is_error() {
    let key = "https://github.com/acme/widgets/pull/42";
    let rsp = Response::new(key, Ok(br#"{"title":"T"}"#.to_vec()));
    match format_response(key, &rsp, "pr", "{unclosed") {
        Err(Error::Template(_)) => {},
        other => panic!("expected a template error, got {:?}", other),
    }
}

#[test]
fn unfurl_document_with_known_service() {
    let conf = Config::new();
    let svc = github_table(&conf);
    let text = "See https://github.com/acme/widgets/pull/42 please";
    let (items, reqs) = scan_resolve(&svc, &conf, text);
    assert_eq!(1, reqs.len());
    assert_eq!("https://github.com/acme/widgets/pull/42", reqs[0].key);
    assert_eq!("https://api.github.com/repos/acme/widgets/pulls/42", reqs[0].req.url);
    assert_eq!(3, items.len());
    let responses = vec![Response::new(
        "https://github.com/acme/widgets/pull/42",
        Ok(br#"{"number":42,"title":"Fix bug"}"#.to_vec()),
    )];
    let out = emit(&svc, &conf, &items, &responses);
    assert_eq!("See Fix bug (#42) please", out);
}

#[test]
fn unconfigured_domain_passes_through() {
    let conf = Config::new();
    let svc = github_table(&conf);
    let text = "See https://example.com/acme/widgets/pull/42 please";
    let (items, reqs) = scan_resolve(&svc, &conf, text);
    assert_eq!(0, reqs.len());
    let out = emit(&svc, &conf, &items, &vec![]);
    assert_eq!(text, out);
}

#[test]
fn unroutable_path_passes_through() {
    let conf = Config::new();
    let svc = github_table(&conf);
    let text = "See https://github.com/acme/widgets/issues/42 please";
    let (items, reqs) = scan_resolve(&svc, &conf, text);
    assert_eq!(0, reqs.len());
    let out = emit(&svc, &conf, &items, &vec![]);
    assert_eq!(text, out);
}

#[test]
fn unparseable_url_becomes_invalid_marker() {
    let conf = Config::new();
    let svc = github_table(&conf);
    let text = "x https://";
    let (items, reqs) = scan_resolve(&svc, &conf, text);
    assert_eq!(0, reqs.len());
    assert_eq!(Item::Text("x ".to_string()), items[0]);
    assert_eq!(Item::Invalid("https://".to_string()), items[1]);
    let out = emit(&svc, &conf, &items, &vec![]);
    assert_eq!("x (INVALID)", out);
}

#[test]
fn host_is_normalized_by_url_parsing() {
    let conf = Config::new();
    let svc = github_table(&conf);
    let (_items, reqs) = scan_resolve(&svc, &conf, "https://GitHub.com/acme/widgets/pull/42");
    assert_eq!(1, reqs.len());
    assert_eq!("https://GitHub.com/acme/widgets/pull/42", reqs[0].key);
}

#[test]
fn subdomain_falls_back_to_registrable_root() {
    let conf = Config::new();
    let svc = github_table(&conf);
    let (_items, reqs) = scan_resolve(&svc, &conf, "https://www.github.com/acme/widgets/pull/42");
    assert_eq!(1, reqs.len());
}

#[test]
fn request_headers_and_auth() {
    let conf = Config {
        services: vec![(
            "github.com".to_string(),
            Service {
                auth: Some(Authn { header: Some("token test-value".to_string()) }),
                format: None,
            },
        )],
        default_service: Service::new(),
    };
    let dom = Domain {
        config: None,
        headers: vec![("Accept".to_string(), "application/vnd.github+json".to_string())],
        routes: vec![pr_endpoint()],
    };
    let svc = unfurl::service::Default::load_data(&conf, vec![("github.com".to_string(), dom)]);
    let link = parse_link("https://github.com/acme/widgets/pull/42").unwrap();
    let get = svc.request(&conf, &link).unwrap();
    assert_eq!(
        vec![
            ("User-Agent".to_string(), "unfurl/0.1.0".to_string()),
            ("Accept".to_string(), "application/vnd.github+json".to_string()),
            ("Authorization".to_string(), "token test-value".to_string()),
        ],
        get.headers
    );
}

#[test]
fn domain_level_auth_applies_to_subdomain_host() {
    let conf = Config {
        services: vec![(
            "github.com".to_string(),
            Service {
                auth: Some(Authn { header: Some("token test-value".to_string()) }),
                format: None,
            },
        )],
        default_service: Service::new(),
    };
    let dom = Domain { config: None, headers: vec![], routes: vec![pr_endpoint()] };
    let svc = unfurl::service::Default::load_data(&conf, vec![("github.com".to_string(), dom)]);
    let link = parse_link("https://www.github.com/acme/widgets/pull/42").unwrap();
    let get = svc.request(&conf, &link).unwrap();
    assert_eq!(
        vec![
            ("User-Agent".to_string(), "unfurl/0.1.0".to_string()),
            ("Authorization".to_string(), "token test-value".to_string()),
        ],
        get.headers
    );
}

#[test]
fn format_override_precedence() {
    let conf = Config {
        services: vec![(
            "github.com".to_string(),
            Service {
                auth: None,
                format: Some(vec![("pr".to_string(), "override: {title}".to_string())]),
            },
        )],
        default_service: Service::new(),
    };
    let svc = github_table(&conf);
    let body = br#"{"number":42,"title":"Fix bug"}"#.to_vec();

    // Per-service override wins for the exact host.
    let link = parse_link("https://github.com/acme/widgets/pull/42").unwrap();
    let rsp = Response::new(link.text.as_str(), Ok(body.clone()));
    assert_eq!("override: Fix bug", svc.format(&conf, &link, &rsp).unwrap());

    // For a subdomain host the attached domain entry supplies the override.
    let link = parse_link("https://www.github.com/acme/widgets/pull/42").unwrap();
    let rsp = Response::new(link.text.as_str(), Ok(body.clone()));
    assert_eq!("override: Fix bug", svc.format(&conf, &link, &rsp).unwrap());

    // Without any override the endpoint's built-in format applies.
    let bare = Config::new();
    let svc = github_table(&bare);
    let link = parse_link("https://github.com/acme/widgets/pull/42").unwrap();
    let rsp = Response::new(link.text.as_str(), Ok(body));
    assert_eq!("Fix bug (#42)", svc.format(&bare, &link, &rsp).unwrap());
}

#[test]
fn request_without_host_is_invalid() {
    let conf = Config::new();
    let svc = github_table(&conf);
    let link = Link { text: "data:x".to_string(), host: None, path: "x".to_string() };
    match svc.request(&conf, &link) {
        Err(e) => assert_eq!("No host", e.message()),
        Ok(_) => panic!("expected an error"),
    }
}

#[test]
fn request_bad_url_template_is_template_error() {
    let conf = Config::new();
    let ept = Endpoint {
        name: "pr".to_string(),
        route: Pattern::new("/{org}/{repo}/pull/{num}"),
        url: "{broken".to_string(),
        format: "{title}".to_string(),
    };
    let dom = Domain { config: None, headers: vec![], routes: vec![ept] };
    let svc = unfurl::service::Default::load_data(&conf, vec![("github.com".to_string(), dom)]);
    let link = parse_link("https://github.com/acme/widgets/pull/42").unwrap();
    match svc.request(&conf, &link) {
        Err(Error::Template(_)) => {},
        other => panic!("expected a template error, got {:?}", other),
    }
}

#[test]
fn batch_results_locatable_by_key() {
    let responses = vec![
        Response::new("k2", Ok(b"b".to_vec())),
        Response::new("k1", Ok(b"a".to_vec())),
        Response::new("k3", Err(Error::NotFound)),
    ];
    assert_eq!(3, responses.len());
    let r = find_response(&responses, "k1").unwrap();
    assert_eq!("k1", r.key());
    assert_eq!(&Ok(b"a".to_vec()), r.data());
    let r = find_response(&responses, "k3").unwrap();
    assert_eq!(&Err(Error::NotFound), r.data());
    assert!(find_response(&responses, "k4").is_none());
}

#[test]
fn one_failure_leaves_siblings_unaffected() {
    let conf = Config::new();
    let svc = github_table(&conf);
    let text = "A https://github.com/a/b/pull/1 B https://github.com/c/d/pull/2 C";
    let (items, reqs) = scan_resolve(&svc, &conf, text);
    assert_eq!(2, reqs.len());
    let responses = vec![
        Response::new("https://github.com/a/b/pull/1", Err(Error::Invalid("boom".to_string()))),
        Response::new(
            "https://github.com/c/d/pull/2",
            Ok(br#"{"number":2,"title":"Two"}"#.to_vec()),
        ),
    ];
    let out = emit(&svc, &conf, &items, &responses);
    assert_eq!("A https://github.com/a/b/pull/1 (boom) B Two (#2) C", out);
}

#[test]
fn extend_overrides_existing_domains() {
    let conf = Config::new();
    let mut svc = github_table(&conf);
    let replacement = Endpoint {
        name: "pr".to_string(),
        route: Pattern::new("/{org}/{repo}/pull/{num}"),
        url: "https://other.example/{num}".to_string(),
        format: "{title}".to_string(),
    };
    let dom = Domain { config: None, headers: vec![], routes: vec![replacement] };
    let other =
        unfurl::service::Default::load_data(&conf, vec![("github.com".to_string(), dom)]);
    svc.extend(other);
    let link = parse_link("https://github.com/acme/widgets/pull/42").unwrap();
    let get = svc.request(&conf, &link).unwrap();
    assert_eq!("https://other.example/42", get.url);
}

#[test]
fn load_data_attaches_matching_config() {
    let conf = Config {
        services: vec![(
            "github.com".to_string(),
            Service { auth: Some(Authn { header: Some("h".to_string()) }), format: None },
        )],
        default_service: Service::new(),
    };
    let dom = Domain { config: None, headers: vec![], routes: vec![pr_endpoint()] };
    let svc = unfurl::service::Default::load_data(&conf, vec![("github.com".to_string(), dom)]);
    let attached = svc.domains[0].1.config.as_ref().unwrap();
    assert_eq!(Some(&Authn { header: Some("h".to_string()) }), attached.auth.as_ref());
}
