use sapphillon_core::check_url::{url_covers, url_parts_cover, urls_cover_by_ancestor};

#[test]
fn same_origin_path_prefix() {
    assert!(urls_cover_by_ancestor(
        &["https://example.com/api"],
        &["https://example.com/api/v1/users"],
    ));
}

#[test]
fn different_host_not_covered() {
    assert!(!urls_cover_by_ancestor(
        &["https://example.com/api"],
        &["https://other.com/api"],
    ));
}

#[test]
fn prefix_must_be_segment_boundary() {
    assert!(!urls_cover_by_ancestor(
        &["https://example.com/api"],
        &["https://example.com/apiv2"],
    ));
}

#[test]
fn malformed_not_covered() {
    assert!(!urls_cover_by_ancestor(&["https://example.com"], &["not a url"],));
}

#[test]
fn check_url_empty_b_always_true() {
    let empty: &[&str] = &[];
    assert!(urls_cover_by_ancestor(&["https://example.com"], empty));
}

#[test]
fn empty_a_nonempty_b_false_for_urls() {
    let empty: &[&str] = &[];
    assert!(!urls_cover_by_ancestor(empty, &["https://example.com"]));
}

#[test]
fn default_port_is_the_explicit_port() {
    assert!(url_covers("https://example.com:443/a", "https://example.com/a/b"));
    assert!(!url_covers("https://example.com:8443/a", "https://example.com/a/b"));
}

#[test]
fn scheme_must_match() {
    assert!(!url_covers("http://example.com/", "https://example.com/"));
}

#[test]
fn root_and_trailing_slash_paths() {
    assert!(url_covers("https://example.com", "https://example.com/anything/at/all"));
    assert!(url_covers("https://example.com/api/", "https://example.com/api/v1"));
    assert!(url_covers("https://example.com/api", "https://example.com/api"));
    assert!(url_covers("https://example.com/api", "https://example.com/api?x=1"));
}

#[test]
fn malformed_coverer_covers_nothing() {
    assert!(!url_covers("::::", "https://example.com/"));
}

#[test]
fn url_coverage_reflexive_and_transitive_on_examples() {
    let a = "https://h.org/a";
    let b = "https://h.org/a/b";
    let c = "https://h.org/a/b/c";
    assert!(url_covers(b, b));
    assert!(url_covers(a, b) && url_covers(b, c) && url_covers(a, c));
}

fn parts(scheme: &str, host: Option<&str>, port: Option<u16>, path: &str) -> sapphillon_core::check_url::UrlParts {
    sapphillon_core::check_url::UrlParts {
        scheme: scheme.to_string(),
        host: host.map(|h| h.to_string()),
        port,
        path: path.to_string(),
    }
}

#[test]
fn parts_cover_on_given_values() {
    let a = parts("https", Some("h.org"), Some(443), "/api//");
    assert!(url_parts_cover(&a, &parts("https", Some("h.org"), Some(443), "/api/v1")));
    assert!(url_parts_cover(&a, &parts("https", Some("h.org"), Some(443), "/api")));
    assert!(!url_parts_cover(&a, &parts("https", Some("h.org"), Some(443), "/apiv2")));
    assert!(!url_parts_cover(&a, &parts("https", Some("h.org"), Some(80), "/api/v1")));
    assert!(!url_parts_cover(&a, &parts("https", None, Some(443), "/api/v1")));
    assert!(!url_parts_cover(&a, &parts("http", Some("h.org"), Some(443), "/api/v1")));
    let root = parts("file", None, None, "/");
    assert!(url_parts_cover(&root, &parts("file", None, None, "/etc/hosts")));
}
