use apisnip::assemble::process_spec_for_output;
use apisnip::catalog::{fetch_endpoints_from_spec, Endpoint, Status, StructuralError};
use apisnip::refs::{fetch_all_references, parse_component_ref, strip_path_from_references};
use apisnip::resolve::{collect_transitive_references, extract_security_schemes};
use apisnip::value::Value;

fn s(x: &str) -> Value {
    Value::Str(x.to_string())
}

fn map(entries: Vec<(&str, Value)>) -> Value {
    Value::Mapping(entries.into_iter().map(|(k, v)| (s(k), v)).collect())
}

fn entries(v: Value) -> Vec<(Value, Value)> {
    match v {
        Value::Mapping(m) => m,
        _ => panic!("not a mapping"),
    }
}

fn show(v: &Value) -> String {
    match v {
        Value::Null => "~".to_string(),
        Value::Bool(b) => b.to_string(),
        Value::Number(n) => n.clone(),
        Value::Str(t) => format!("{:?}", t),
        Value::Sequence(items) => {
            let parts: Vec<String> = items.iter().map(show).collect();
            format!("[{}]", parts.join(","))
        }
        Value::Mapping(m) => {
            let parts: Vec<String> = m.iter().map(|(k, v)| format!("{}:{}", show(k), show(v))).collect();
            format!("{{{}}}", parts.join(","))
        }
    }
}

fn show_doc(d: &[(Value, Value)]) -> String {
    show(&Value::Mapping(d.iter().map(|(k, v)| (copy(k), copy(v))).collect()))
}

fn copy(v: &Value) -> Value {
    match v {
        Value::Null => Value::Null,
        Value::Bool(b) => Value::Bool(*b),
        Value::Number(n) => Value::Number(n.clone()),
        Value::Str(t) => Value::Str(t.clone()),
        Value::Sequence(items) => Value::Sequence(items.iter().map(copy).collect()),
        Value::Mapping(m) => Value::Mapping(m.iter().map(|(k, v)| (copy(k), copy(v))).collect()),
    }
}

fn reference(target: &str) -> Value {
    map(vec![("$ref", s(target))])
}

fn select<'a>(items: &'a [Endpoint], paths: &[&str]) -> Vec<&'a Endpoint> {
    items.iter().filter(|e| paths.contains(&e.path.as_str())).collect()
}

/// The document of the concrete scenario: `/a` needs basic auth, `/b` posts a Widget.
fn scenario() -> Vec<(Value, Value)> {
    entries(map(vec![
        ("openapi", s("3.0.0")),
        (
            "paths",
            map(vec![
                (
                    "/a",
                    map(vec![(
                        "get",
                        map(vec![("security", Value::Sequence(vec![map(vec![("basicAuth", Value::Sequence(vec![]))])]))]),
                    )]),
                ),
                (
                    "/b",
                    map(vec![("post", map(vec![("requestBody", reference("#/components/schemas/Widget"))]))]),
                ),
            ]),
        ),
        (
            "components",
            map(vec![
                (
                    "schemas",
                    map(vec![
                        ("Widget", map(vec![("properties", map(vec![("part", reference("#/components/schemas/Part"))]))])),
                        ("Part", map(vec![("type", s("string"))])),
                        ("Unrelated", map(vec![("type", s("integer"))])),
                    ]),
                ),
                ("securitySchemes", map(vec![("basicAuth", map(vec![("type", s("http"))]))])),
            ]),
        ),
    ]))
}

#[test]
fn scenario_selecting_b_keeps_widget_and_part() {
    let doc = scenario();
    let items = fetch_endpoints_from_spec(&doc).ok().unwrap();
    let chosen = select(&items, &["/b"]);
    let out = process_spec_for_output(scenario(), &chosen).ok().unwrap();
    assert_eq!(
        show_doc(&out),
        [
            "{\"openapi\":\"3.0.0\",",
            "\"paths\":{\"/b\":{\"post\":{\"requestBody\":{\"$ref\":\"#/components/schemas/Widget\"}}}},",
            "\"components\":{\"schemas\":{\"Widget\":{\"properties\":{\"part\":{\"$ref\":\"#/components/schemas/Part\"}}},",
            "\"Part\":{\"type\":\"string\"}}}}",
        ]
        .concat()
    );
}

#[test]
fn scenario_selecting_a_keeps_only_basic_auth() {
    let doc = scenario();
    let items = fetch_endpoints_from_spec(&doc).ok().unwrap();
    let chosen = select(&items, &["/a"]);
    let out = process_spec_for_output(scenario(), &chosen).ok().unwrap();
    let text = show_doc(&out);
    assert!(text.contains("\"components\":{\"securitySchemes\":{\"basicAuth\":{\"type\":\"http\"}}}"));
    assert!(!text.contains("Widget"));
    assert!(text.contains("\"paths\":{\"/a\":"));
}

#[test]
fn empty_selection_gives_empty_paths_and_components() {
    let out = process_spec_for_output(scenario(), &[]).ok().unwrap();
    assert_eq!(show_doc(&out), "{\"openapi\":\"3.0.0\",\"paths\":{},\"components\":{}}");
}

#[test]
fn full_selection_keeps_key_order_and_used_members() {
    let doc = scenario();
    let items = fetch_endpoints_from_spec(&doc).ok().unwrap();
    let chosen: Vec<&Endpoint> = items.iter().collect();
    let out = process_spec_for_output(scenario(), &chosen).ok().unwrap();
    let keys: Vec<String> = out.iter().map(|(k, _)| show(k)).collect();
    assert_eq!(keys, vec!["\"openapi\"", "\"paths\"", "\"components\""]);
    let text = show_doc(&out);
    assert!(text.contains("\"Widget\""));
    assert!(text.contains("\"Part\""));
    assert!(text.contains("\"basicAuth\":{\"type\":\"http\"}"));
    assert!(!text.contains("Unrelated"));
    assert!(text.contains("\"paths\":{\"/a\":"));
}

#[test]
fn selection_order_sets_path_order() {
    let doc = scenario();
    let items = fetch_endpoints_from_spec(&doc).ok().unwrap();
    let chosen = vec![&items[1], &items[0]];
    let out = process_spec_for_output(scenario(), &chosen).ok().unwrap();
    let paths = entries(copy(&out[1].1));
    let keys: Vec<String> = paths.iter().map(|(k, _)| show(k)).collect();
    assert_eq!(keys, vec!["\"/b\"", "\"/a\""]);
}

#[test]
fn document_wide_security_keeps_its_scheme() {
    let mut doc = scenario();
    doc.push((s("security"), Value::Sequence(vec![map(vec![("basicAuth", Value::Sequence(vec![]))])])));
    let out = process_spec_for_output(doc, &[]).ok().unwrap();
    assert!(show_doc(&out).contains("\"components\":{\"securitySchemes\":{\"basicAuth\""));
}

#[test]
fn output_without_paths_is_refused() {
    let doc = entries(map(vec![("openapi", s("3.0.0"))]));
    assert!(matches!(process_spec_for_output(doc, &[]), Err(StructuralError::MissingPaths)));
}

#[test]
fn closure_follows_chain_and_drops_unreferenced() {
    let comps = entries(map(vec![(
        "schemas",
        map(vec![
            ("A", reference("#/components/schemas/B")),
            ("B", map(vec![("items", reference("#/components/schemas/C"))])),
            ("C", map(vec![("type", s("string"))])),
            ("D", map(vec![("type", s("string"))])),
        ]),
    )]));
    let seeds = vec!["#/components/schemas/A".to_string()];
    let mut got = collect_transitive_references(&comps, &seeds);
    got.sort();
    assert_eq!(
        got,
        vec![
            ("schemas".to_string(), "A".to_string()),
            ("schemas".to_string(), "B".to_string()),
            ("schemas".to_string(), "C".to_string()),
        ]
    );
}

#[test]
fn closure_handles_cycles_and_missing_targets() {
    let comps = entries(map(vec![(
        "schemas",
        map(vec![
            ("Node", map(vec![("next", reference("#/components/schemas/Node")), ("x", reference("#/components/schemas/Gone"))])),
        ]),
    )]));
    let seeds = vec!["#/components/schemas/Node".to_string(), "other.yaml#/Thing".to_string()];
    let mut got = collect_transitive_references(&comps, &seeds);
    got.sort();
    assert_eq!(
        got,
        vec![
            ("schemas".to_string(), "Gone".to_string()),
            ("schemas".to_string(), "Node".to_string()),
        ]
    );
}

#[test]
fn component_pointers_are_parsed() {
    assert_eq!(
        parse_component_ref("#/components/schemas/Pet"),
        Some(("schemas".to_string(), "Pet".to_string()))
    );
    assert_eq!(
        parse_component_ref("#/components/schemas/a/b"),
        Some(("schemas".to_string(), "a/b".to_string()))
    );
    assert_eq!(parse_component_ref("#/components/schemas"), None);
    assert_eq!(parse_component_ref("#/definitions/Pet"), None);
    assert_eq!(parse_component_ref("other.yaml#/components/schemas/Pet"), None);
}

#[test]
fn references_are_stripped_to_names() {
    let refs = vec![
        "#/components/schemas/Pet".to_string(),
        "Plain".to_string(),
        "#/components/responses/".to_string(),
    ];
    assert_eq!(strip_path_from_references(&refs), vec!["Pet".to_string(), "Plain".to_string(), String::new()]);
}

#[test]
fn references_are_found_in_document_order() {
    let v = map(vec![
        ("$ref", s("#/x/First")),
        ("list", Value::Sequence(vec![reference("#/x/Second"), s("$ref"), reference("#/x/Third")])),
        ("deep", map(vec![("more", map(vec![("$ref", Value::Bool(true))]))])),
    ]);
    assert_eq!(
        fetch_all_references(&v),
        vec!["#/x/First".to_string(), "#/x/Second".to_string(), "#/x/Third".to_string()]
    );
}

#[test]
fn security_requirements_in_both_forms() {
    let list = Value::Sequence(vec![
        map(vec![("basicAuth", Value::Sequence(vec![])), ("apiKey", Value::Sequence(vec![]))]),
        s("ignored"),
        map(vec![("oauth", Value::Sequence(vec![]))]),
    ]);
    assert_eq!(
        extract_security_schemes(&list),
        vec!["basicAuth".to_string(), "apiKey".to_string(), "oauth".to_string()]
    );
    assert_eq!(extract_security_schemes(&map(vec![("token", Value::Null)])), vec!["token".to_string()]);
    assert!(extract_security_schemes(&s("none")).is_empty());
}

fn catalog_doc() -> Vec<(Value, Value)> {
    entries(map(vec![(
        "paths",
        map(vec![
            (
                "/pets",
                map(vec![
                    ("summary", s("All pets")),
                    ("description", s("ignored, summary wins")),
                    (
                        "get",
                        map(vec![
                            ("summary", s("")),
                            ("description", s("List pets")),
                            (
                                "parameters",
                                Value::Sequence(vec![
                                    map(vec![("name", s("limit")), ("in", s("query"))]),
                                    map(vec![("name", s("id")), ("in", s("path"))]),
                                    map(vec![("name", s("pet")), ("in", s("body"))]),
                                    map(vec![("name", s("trace")), ("in", s("header"))]),
                                    map(vec![("in", s("query"))]),
                                ]),
                            ),
                            ("responses", map(vec![("200", reference("#/components/schemas/Pet")), ("404", reference("#/components/schemas/Pet"))])),
                        ]),
                    ),
                    ("post", map(vec![("summary", s("Add pet")), ("requestBody", reference("#/components/requestBodies/NewPet"))])),
                ]),
            ),
            (
                "/a",
                map(vec![
                    ("description", s("first")),
                    ("description", s("second")),
                    ("parameters", Value::Sequence(vec![])),
                    ("delete", s("not a mapping")),
                ]),
            ),
        ]),
    )]))
}

#[test]
fn catalog_is_sorted_with_methods_and_descriptions() {
    let items = fetch_endpoints_from_spec(&catalog_doc()).ok().unwrap();
    assert_eq!(items.len(), 2);
    assert_eq!(items[0].path, "/a");
    assert_eq!(items[1].path, "/pets");
    assert_eq!(items[0].description, "first");
    assert_eq!(items[1].description, "All pets");
    assert_eq!(items[0].methods.len(), 1);
    assert_eq!(items[0].methods[0].method, "delete");
    assert_eq!(items[0].methods[0].description, "No description");
    let pets = &items[1];
    let verbs: Vec<&str> = pets.methods.iter().map(|m| m.method.as_str()).collect();
    assert_eq!(verbs, vec!["get", "post"]);
    assert_eq!(pets.methods[0].description, "List pets");
    assert_eq!(pets.methods[1].description, "Add pet");
    assert_eq!(pets.parameters, vec!["?limit", "/id", "body:pet", "trace"]);
    assert_eq!(pets.refs, vec!["Pet", "NewPet"]);
    assert!(items.iter().all(|e| e.status == Status::Unselected));
}

#[test]
fn catalog_orders_paths_bytewise() {
    let doc = entries(map(vec![(
        "paths",
        map(vec![
            ("/b", map(vec![])),
            ("/B", map(vec![])),
            ("/a/b", map(vec![])),
            ("/a", map(vec![])),
            ("/é", map(vec![])),
            ("/z", map(vec![])),
        ]),
    )]));
    let items = fetch_endpoints_from_spec(&doc).ok().unwrap();
    let paths: Vec<&str> = items.iter().map(|e| e.path.as_str()).collect();
    assert_eq!(paths, vec!["/B", "/a", "/a/b", "/b", "/z", "/é"]);
}

#[test]
fn catalog_errors() {
    let no_paths = entries(map(vec![("info", s("x"))]));
    assert!(matches!(fetch_endpoints_from_spec(&no_paths), Err(StructuralError::MissingPaths)));
    let paths_not_mapping = entries(map(vec![("paths", s("x"))]));
    assert!(matches!(fetch_endpoints_from_spec(&paths_not_mapping), Err(StructuralError::MissingPaths)));
    let item_not_mapping = entries(map(vec![("paths", map(vec![("/a", s("x"))]))]));
    assert!(matches!(fetch_endpoints_from_spec(&item_not_mapping), Err(StructuralError::InvalidPathItem)));
    let key_not_string = entries(map(vec![(
        "paths",
        Value::Mapping(vec![(Value::Number("1".to_string()), map(vec![]))]),
    )]));
    assert!(matches!(fetch_endpoints_from_spec(&key_not_string), Err(StructuralError::InvalidPathItem)));
    let method_not_string = entries(map(vec![(
        "paths",
        map(vec![("/a", Value::Mapping(vec![(Value::Bool(true), map(vec![]))]))]),
    )]));
    assert!(matches!(fetch_endpoints_from_spec(&method_not_string), Err(StructuralError::InvalidMethodKey)));
}
