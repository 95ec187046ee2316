use flagseed::urls::{environment_enable_url, features_url, strategies_url, BaseUrl};

#[test]
fn builds_the_three_documented_endpoints() {
    let base = BaseUrl::new("http://localhost:4242").expect("base URL should parse");
    let fu = features_url(&base, "default");
    assert_eq!(fu, "http://localhost:4242/api/admin/projects/default/features");
    let su = strategies_url(&fu, "abc", "development");
    assert_eq!(
        su,
        "http://localhost:4242/api/admin/projects/default/features/abc/environments/development/strategies"
    );
    let eu = environment_enable_url(&fu, "abc", "development");
    assert_eq!(
        eu,
        "http://localhost:4242/api/admin/projects/default/features/abc/environments/development/on"
    );
}

#[test]
fn base_url_with_trailing_slash_is_normalized() {
    let base = BaseUrl::new("http://localhost:4242/").expect("base URL should parse");
    let fu = features_url(&base, "default");
    assert_eq!(fu, "http://localhost:4242/api/admin/projects/default/features");
}

#[test]
fn malformed_base_url_is_a_configuration_error() {
    assert!(BaseUrl::new("not a url").is_err());
    assert!(BaseUrl::new("http//missing-scheme").is_err());
    assert!(BaseUrl::new("").is_err());
}

#[test]
fn path_segments_are_percent_escaped() {
    let base = BaseUrl::new("http://localhost:4242").unwrap();
    let fu = features_url(&base, "my project/x");
    assert_eq!(
        fu,
        "http://localhost:4242/api/admin/projects/my%20project%2Fx/features"
    );
    let su = strategies_url("http://h/f", "a%b", "dev?x");
    assert_eq!(su, "http://h/f/a%25b/environments/dev%3Fx/strategies");
}

#[test]
fn escaping_matches_the_url_crate() {
    // The builders must escape exactly as the reference parser does when
    // segments are pushed onto a parsed URL.
    let mut u = url::Url::parse("http://localhost:4242").unwrap();
    u.path_segments_mut()
        .unwrap()
        .push("api")
        .push("admin")
        .push("projects")
        .push("my project/x\u{00e9}")
        .push("features");
    let base = BaseUrl::new("http://localhost:4242").unwrap();
    let fu = features_url(&base, "my project/x\u{00e9}");
    assert_eq!(fu, u.as_str());
}
