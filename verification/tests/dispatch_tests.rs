use mochi::compile::build_all_api_sets;
use mochi::dispatch::DispatchTable;
use mochi::model::compiled::{LatencyCore, SystemCore};
use mochi::model::yaml::{ApiYaml, LatencyYaml, Response, ResponseDataYaml, RuleYaml, SystemFolder};

fn rule(matches: &str, response: Response) -> RuleYaml {
    RuleYaml { matches: matches.to_string(), headers: None, latency: None, response }
}

fn api(name: &str, rules: Vec<RuleYaml>) -> ApiYaml {
    ApiYaml { name: name.to_string(), headers: Vec::new(), latency: None, rules }
}

fn compile_system(folder: &SystemFolder) -> SystemCore {
    SystemCore {
        name: folder.name.clone(),
        api_sets: build_all_api_sets(&folder.shapes, &folder.apis, &folder.data).unwrap(),
    }
}

fn mvp_folder() -> SystemFolder {
    SystemFolder {
        name: "mvp".to_string(),
        shapes: Vec::new(),
        apis: vec![api(
            "routes",
            vec![
                rule(
                    "POST /system/mvp/route1",
                    Response::Inline(200, Some("content".to_string()), None),
                ),
                rule("PATCH /system/mvp/route2", Response::File("route2".to_string())),
            ],
        )],
        data: vec![(
            "route2".to_string(),
            ResponseDataYaml {
                status: 303,
                data: Some("{\n  \"test\": \"2\"\n}".to_string()),
                format: None,
            },
        )],
    }
}

#[test]
fn dispatches_the_declared_response() {
    let system = compile_system(&mvp_folder());
    let mut table = system.generate_rules_map();
    let r = table.dispatch("POST", "/system/mvp/route1").unwrap();
    assert_eq!(r.status, 200);
    assert_eq!(r.body, Some("content".to_string()));
    assert_eq!(r.format, "text/plain");
}

#[test]
fn dispatches_a_fragment_backed_response() {
    let system = compile_system(&mvp_folder());
    let mut table = system.generate_rules_map();
    let r = table.dispatch("PATCH", "/system/mvp/route2").unwrap();
    assert_eq!(r.status, 303);
    assert_eq!(r.body, Some("{\n  \"test\": \"2\"\n}".to_string()));
}

#[test]
fn unknown_method_or_path_matches_no_rule() {
    let system = compile_system(&mvp_folder());
    let mut table = system.generate_rules_map();
    assert!(table.dispatch("GET", "/system/mvp/route1").is_none());
    assert!(table.dispatch("POST", "/system/mvp/other").is_none());
}

#[test]
fn disjoint_systems_never_answer_each_other() {
    let mvp = compile_system(&mvp_folder());
    let mvp2 = compile_system(&SystemFolder {
        name: "mvp2".to_string(),
        shapes: Vec::new(),
        apis: vec![api(
            "routes",
            vec![rule(
                "GET /system/mvp2/route1",
                Response::Inline(200, Some("content".to_string()), None),
            )],
        )],
        data: Vec::new(),
    });
    let mut mvp_table = mvp.generate_rules_map();
    let mut mvp2_table = mvp2.generate_rules_map();
    assert!(mvp_table.dispatch("GET", "/system/mvp2/route1").is_none());
    let r = mvp2_table.dispatch("GET", "/system/mvp2/route1").unwrap();
    assert_eq!(r.body, Some("content".to_string()));
    assert!(mvp2_table.dispatch("POST", "/system/mvp/route1").is_none());
}

fn three_variant_folder() -> SystemFolder {
    SystemFolder {
        name: "mvp".to_string(),
        shapes: Vec::new(),
        apis: vec![
            api(
                "scenario",
                vec![rule("GET /r", Response::Inline(200, Some("first".to_string()), None))],
            ),
            api(
                "scenario",
                vec![
                    rule("GET /r", Response::Inline(200, Some("second".to_string()), None)),
                    rule("GET /r", Response::Inline(200, Some("third".to_string()), None)),
                ],
            ),
        ],
        data: Vec::new(),
    }
}

#[test]
fn round_robin_cycles_through_variants_in_declaration_order() {
    let system = compile_system(&three_variant_folder());
    let mut table = system.generate_rules_map();
    let bodies: Vec<String> = (0..7)
        .map(|_| table.dispatch("GET", "/r").unwrap().body.unwrap())
        .collect();
    assert_eq!(bodies, vec!["first", "second", "third", "first", "second", "third", "first"]);
}

#[test]
fn cursors_are_per_endpoint() {
    let mut folder = three_variant_folder();
    folder.apis.push(api(
        "other",
        vec![rule("GET /s", Response::Inline(200, Some("only".to_string()), None))],
    ));
    let system = compile_system(&folder);
    let mut table = system.generate_rules_map();
    assert_eq!(table.dispatch("GET", "/r").unwrap().body.unwrap(), "first");
    assert_eq!(table.dispatch("GET", "/s").unwrap().body.unwrap(), "only");
    assert_eq!(table.dispatch("GET", "/r").unwrap().body.unwrap(), "second");
    assert_eq!(table.dispatch("GET", "/s").unwrap().body.unwrap(), "only");
    assert_eq!(table.dispatch("GET", "/r").unwrap().body.unwrap(), "third");
}

#[test]
fn compiling_twice_answers_identical_request_sequences_identically() {
    let folder = three_variant_folder();
    let mut t1 = compile_system(&folder).generate_rules_map();
    let mut t2 = compile_system(&folder).generate_rules_map();
    let requests = [
        ("GET", "/r"),
        ("GET", "/r"),
        ("GET", "/missing"),
        ("GET", "/r"),
        ("GET", "/r"),
        ("GET", "/r"),
    ];
    for (method, path) in requests {
        let a = t1.dispatch(method, path);
        let b = t2.dispatch(method, path);
        match (a, b) {
            (Some(x), Some(y)) => {
                assert_eq!(x.status, y.status);
                assert_eq!(x.body, y.body);
                assert_eq!(x.format, y.format);
                assert_eq!(x.headers, y.headers);
            },
            (None, None) => {},
            _ => panic!("the two tables disagreed"),
        }
    }
}

#[test]
fn dispatched_rule_carries_its_latency() {
    let mut folder = mvp_folder();
    folder.apis[0].latency = Some(LatencyYaml::Constant(50));
    let system = compile_system(&folder);
    let mut table = system.generate_rules_map();
    let r = table.dispatch("POST", "/system/mvp/route1").unwrap();
    assert_eq!(r.latency, Some(LatencyCore::Constant(50)));
}

#[test]
fn a_system_without_rules_yields_an_empty_table() {
    let system = compile_system(&SystemFolder {
        name: "empty".to_string(),
        shapes: Vec::new(),
        apis: Vec::new(),
        data: Vec::new(),
    });
    let mut table: DispatchTable = system.generate_rules_map();
    assert_eq!(table.entries.len(), 0);
    assert!(table.dispatch("GET", "/anything").is_none());
}

#[test]
fn duplicate_rules_stay_distinct_variants() {
    let system = compile_system(&SystemFolder {
        name: "dup".to_string(),
        shapes: Vec::new(),
        apis: vec![api(
            "a",
            vec![
                rule("GET /r", Response::Inline(200, Some("same".to_string()), None)),
                rule("GET /r", Response::Inline(200, Some("same".to_string()), None)),
            ],
        )],
        data: Vec::new(),
    });
    assert_eq!(system.api_sets[0].apis[0].0.len(), 2);
    let table = system.generate_rules_map();
    assert_eq!(table.entries.len(), 1);
    assert_eq!(table.entries[0].rules.len(), 2);
    assert_eq!(table.entries[0].cursor, 0);
}
