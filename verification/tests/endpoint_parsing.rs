use mochi::compile::{extract_rule, CompileError};
use mochi::endpoint::parse_endpoint;
use mochi::model::yaml::{Response, RuleYaml};

fn inline_rule(matches: &str) -> RuleYaml {
    RuleYaml {
        matches: matches.to_string(),
        headers: None,
        latency: None,
        response: Response::Inline(200, None, None),
    }
}

#[test]
fn parses_method_and_path() {
    let e = parse_endpoint("POST /system/mvp/route1").unwrap();
    assert_eq!(e.method, "POST");
    assert_eq!(e.route, "/system/mvp/route1");
}

#[test]
fn parse_allows_extra_whitespace_between_method_and_path() {
    let e = parse_endpoint("GET \t /a").unwrap();
    assert_eq!(e.method, "GET");
    assert_eq!(e.route, "/a");
}

#[test]
fn parse_allows_query_in_path() {
    let e = parse_endpoint("GET /a/b?x=1&y=2").unwrap();
    assert_eq!(e.method, "GET");
    assert_eq!(e.route, "/a/b?x=1&y=2");
}

#[test]
fn round_trip_preserves_the_pair() {
    let e = parse_endpoint("PATCH /system/mvp/route2").unwrap();
    let s = e.matches_string();
    assert_eq!(s, "PATCH /system/mvp/route2");
    let e2 = parse_endpoint(s.as_str()).unwrap();
    assert_eq!(e2.method, e.method);
    assert_eq!(e2.route, e.route);
}

#[test]
fn rejects_missing_method() {
    assert!(parse_endpoint(" /path").is_none());
    assert!(parse_endpoint("/path").is_none());
}

#[test]
fn rejects_lowercase_method() {
    assert!(parse_endpoint("get /path").is_none());
    assert!(parse_endpoint("Get /path").is_none());
}

#[test]
fn rejects_missing_path() {
    assert!(parse_endpoint("GET").is_none());
    assert!(parse_endpoint("GET   ").is_none());
    assert!(parse_endpoint("GET x/y").is_none());
}

#[test]
fn rejects_path_with_forbidden_characters() {
    assert!(parse_endpoint("GET /a b").is_none());
    assert!(parse_endpoint("GET /a\"b").is_none());
}

#[test]
fn compilation_error_names_the_offending_string() {
    let rule = inline_rule("get /path");
    let err = extract_rule(&rule, None, &Vec::new(), &Vec::new()).unwrap_err();
    match err {
        CompileError::MalformedEndpoint(s) => assert_eq!(s, "get /path"),
        _ => panic!("expected a malformed-endpoint error"),
    }
}
