use mochi::compile::{build_all_api_sets, CompileError};
use mochi::model::compiled::LatencyCore;
use mochi::model::yaml::{
    ApiShapeYaml, ApiYaml, ConfFolder, LatencyYaml, Response, ResponseDataYaml, RuleYaml,
    SystemFolder,
};

fn rule(matches: &str, response: Response) -> RuleYaml {
    RuleYaml { matches: matches.to_string(), headers: None, latency: None, response }
}

fn api(name: &str, rules: Vec<RuleYaml>) -> ApiYaml {
    ApiYaml { name: name.to_string(), headers: Vec::new(), latency: None, rules }
}

#[test]
fn compiles_an_inline_rule() {
    let apis = vec![api(
        "a",
        vec![rule("POST /r", Response::Inline(201, Some("body".to_string()), None))],
    )];
    let sets = build_all_api_sets(&Vec::new(), &apis, &Vec::new()).unwrap();
    assert_eq!(sets.len(), 1);
    assert_eq!(sets[0].name, "a");
    assert!(sets[0].shape.is_none());
    assert_eq!(sets[0].apis.len(), 1);
    let rc = &sets[0].apis[0].0[0];
    assert_eq!(rc.endpoint.method, "POST");
    assert_eq!(rc.endpoint.route, "/r");
    assert_eq!(rc.status, 201);
    assert_eq!(rc.body, Some("body".to_string()));
    assert_eq!(rc.format, "text/plain");
    assert!(rc.latency.is_none());
}

#[test]
fn resolves_a_response_fragment_by_name() {
    let apis = vec![api("a", vec![rule("GET /r", Response::File("frag".to_string()))])];
    let data = vec![(
        "frag".to_string(),
        ResponseDataYaml {
            status: 303,
            data: Some("{\n  \"test\": \"2\"\n}".to_string()),
            format: Some("application/json".to_string()),
        },
    )];
    let sets = build_all_api_sets(&Vec::new(), &apis, &data).unwrap();
    let rc = &sets[0].apis[0].0[0];
    assert_eq!(rc.status, 303);
    assert_eq!(rc.body, Some("{\n  \"test\": \"2\"\n}".to_string()));
    assert_eq!(rc.format, "application/json");
}

#[test]
fn missing_fragment_fails_compilation_with_the_reference_name() {
    let apis = vec![api("a", vec![rule("GET /r", Response::File("absent".to_string()))])];
    let err = build_all_api_sets(&Vec::new(), &apis, &Vec::new()).unwrap_err();
    match err {
        CompileError::MissingResponseData(name) => assert_eq!(name, "absent"),
        _ => panic!("expected a missing-response-data error"),
    }
}

#[test]
fn invalid_status_fails_compilation_with_the_value() {
    let apis = vec![api("a", vec![rule("GET /r", Response::Inline(99, None, None))])];
    match build_all_api_sets(&Vec::new(), &apis, &Vec::new()).unwrap_err() {
        CompileError::InvalidStatus(v) => assert_eq!(v, 99),
        _ => panic!("expected an invalid-status error"),
    }
    let apis = vec![api("a", vec![rule("GET /r", Response::Inline(1000, None, None))])];
    match build_all_api_sets(&Vec::new(), &apis, &Vec::new()).unwrap_err() {
        CompileError::InvalidStatus(v) => assert_eq!(v, 1000),
        _ => panic!("expected an invalid-status error"),
    }
}

#[test]
fn empty_body_compiles_to_no_body() {
    let apis = vec![api(
        "a",
        vec![rule("GET /r", Response::Inline(204, Some(String::new()), None))],
    )];
    let sets = build_all_api_sets(&Vec::new(), &apis, &Vec::new()).unwrap();
    assert_eq!(sets[0].apis[0].0[0].body, None);
}

#[test]
fn api_headers_and_latency_are_rule_defaults() {
    let mut a = api("a", vec![rule("GET /r", Response::Inline(200, None, None))]);
    a.headers = vec![("x-k".to_string(), "v".to_string())];
    a.latency = Some(LatencyYaml::Constant(50));
    let sets = build_all_api_sets(&Vec::new(), &vec![a], &Vec::new()).unwrap();
    let rc = &sets[0].apis[0].0[0];
    assert_eq!(rc.headers, vec![("x-k".to_string(), "v".to_string())]);
    assert_eq!(rc.latency, Some(LatencyCore::Constant(50)));
}

#[test]
fn rule_level_values_override_api_defaults() {
    let mut r = rule("GET /r", Response::Inline(200, None, None));
    r.headers = Some(vec![("x-rule".to_string(), "1".to_string())]);
    r.latency = Some(LatencyYaml::Constant(10));
    let mut a = api("a", vec![r]);
    a.headers = vec![("x-api".to_string(), "0".to_string())];
    a.latency = Some(LatencyYaml::Constant(50));
    let sets = build_all_api_sets(&Vec::new(), &vec![a], &Vec::new()).unwrap();
    let rc = &sets[0].apis[0].0[0];
    assert_eq!(rc.headers, vec![("x-rule".to_string(), "1".to_string())]);
    assert_eq!(rc.latency, Some(LatencyCore::Constant(10)));
}

#[test]
fn same_named_apis_merge_into_one_set_in_declaration_order() {
    let apis = vec![
        api("a", vec![rule("GET /one", Response::Inline(200, None, None))]),
        api("b", vec![rule("GET /b", Response::Inline(200, None, None))]),
        api("a", vec![rule("GET /two", Response::Inline(200, None, None))]),
    ];
    let sets = build_all_api_sets(&Vec::new(), &apis, &Vec::new()).unwrap();
    assert_eq!(sets.len(), 2);
    assert_eq!(sets[0].name, "a");
    assert_eq!(sets[0].apis.len(), 2);
    assert_eq!(sets[0].apis[0].0[0].endpoint.route, "/one");
    assert_eq!(sets[0].apis[1].0[0].endpoint.route, "/two");
    assert_eq!(sets[1].name, "b");
    assert_eq!(sets[1].apis.len(), 1);
}

#[test]
fn matching_shape_is_attached_to_the_set() {
    let shapes = vec![ApiShapeYaml {
        name: "a".to_string(),
        shape: vec!["GET /r".to_string()],
    }];
    let apis = vec![api("a", vec![rule("GET /r", Response::Inline(200, None, None))])];
    let sets = build_all_api_sets(&shapes, &apis, &Vec::new()).unwrap();
    let shape = sets[0].shape.as_ref().unwrap();
    assert_eq!(shape.len(), 1);
    assert_eq!(shape[0].method, "GET");
    assert_eq!(shape[0].route, "/r");
}

#[test]
fn malformed_shape_is_dropped_without_failing_compilation() {
    let shapes = vec![ApiShapeYaml {
        name: "a".to_string(),
        shape: vec!["bad entry".to_string()],
    }];
    let apis = vec![api("a", vec![rule("GET /r", Response::Inline(200, None, None))])];
    let sets = build_all_api_sets(&shapes, &apis, &Vec::new()).unwrap();
    assert!(sets[0].shape.is_none());
}

#[test]
fn compilation_reports_the_first_error_in_declaration_order() {
    let apis = vec![api(
        "a",
        vec![
            rule("broken", Response::Inline(200, None, None)),
            rule("GET /r", Response::Inline(9999, None, None)),
        ],
    )];
    match build_all_api_sets(&Vec::new(), &apis, &Vec::new()).unwrap_err() {
        CompileError::MalformedEndpoint(s) => assert_eq!(s, "broken"),
        _ => panic!("the first error should be the malformed endpoint"),
    }
}

#[test]
fn extract_compiles_every_system() {
    let conf = ConfFolder {
        systems: vec![
            SystemFolder {
                name: "mvp".to_string(),
                shapes: Vec::new(),
                apis: vec![api(
                    "a",
                    vec![rule("GET /system/mvp/route1", Response::Inline(200, None, None))],
                )],
                data: Vec::new(),
            },
            SystemFolder {
                name: "mvp2".to_string(),
                shapes: Vec::new(),
                apis: vec![api(
                    "a",
                    vec![rule("GET /system/mvp2/route1", Response::Inline(200, None, None))],
                )],
                data: Vec::new(),
            },
        ],
    };
    assert!(conf.wf_check());
    let core = conf.extract().unwrap();
    assert_eq!(core.systems.len(), 2);
    assert_eq!(core.systems[0].name, "mvp");
    assert_eq!(core.systems[1].name, "mvp2");
}

#[test]
fn wf_check_rejects_duplicate_header_keys() {
    let mut a = api("a", Vec::new());
    a.headers = vec![
        ("x-k".to_string(), "1".to_string()),
        ("x-k".to_string(), "2".to_string()),
    ];
    let conf = ConfFolder {
        systems: vec![SystemFolder {
            name: "s".to_string(),
            shapes: Vec::new(),
            apis: vec![a],
            data: Vec::new(),
        }],
    };
    assert!(!conf.wf_check());
}
