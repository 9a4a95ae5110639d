use hff_rs::builder;
use hff_rs::errors::HffError;
use hff_rs::friendly::friendly;
use hff_rs::mapping::{load_mapping_from_str, process_mapping};
use hff_rs::node::Node;
use hff_rs::reformatting::{check_ref_safe, json_to_huff, traverse_fhir};
use hff_rs::registry::Registry;
use hff_rs::template::{apply_format, xjsonp_first};

fn s(x: &str) -> Node {
    Node::Str(x.to_string())
}

fn obj(fields: Vec<(&str, Node)>) -> Node {
    Node::Obj(fields.into_iter().map(|(k, v)| (k.to_string(), v)).collect())
}

fn arr(elems: Vec<Node>) -> Node {
    Node::Arr(elems)
}

fn empty_registry() -> Registry {
    Registry::new()
}

#[test]
fn lone_reference_collapses_to_marker_string() {
    let reg = empty_registry();
    let v = obj(vec![("reference", s("Patient/example"))]);
    let r = traverse_fhir(&v, Some("subject"), &reg).unwrap();
    assert_eq!(r, s("Reference(Patient/example)"));
}

#[test]
fn reference_under_subject_renders_as_yaml_field() {
    let reg = empty_registry();
    let v = obj(vec![("subject", obj(vec![("reference", s("Patient/example"))]))]);
    let yaml = json_to_huff(v, &reg).unwrap();
    assert_eq!(yaml, "subject: Reference(Patient/example)\n");
}

#[test]
fn reference_beside_siblings_replaces_only_the_reference() {
    let reg = empty_registry();
    let v = obj(vec![("reference", s("Patient/a")), ("display", s("Ann"))]);
    let r = traverse_fhir(&v, Some("subject"), &reg).unwrap();
    assert_eq!(
        r,
        obj(vec![("reference", s("Reference(Patient/a)")), ("display", s("Ann"))])
    );
}

#[test]
fn sibling_fields_are_not_walked_in_the_reference_branch() {
    let reg = empty_registry();
    // the sibling holds a lone-element array, which a walk would unwrap
    let v = obj(vec![
        ("reference", s("Patient/a")),
        ("extra", obj(vec![("status", arr(vec![s("one")]))])),
    ]);
    let r = traverse_fhir(&v, Some("subject"), &reg).unwrap();
    assert_eq!(
        r,
        obj(vec![
            ("reference", s("Reference(Patient/a)")),
            ("extra", obj(vec![("status", arr(vec![s("one")]))])),
        ])
    );
}

#[test]
fn doubly_nested_reference_is_unnested() {
    let reg = empty_registry();
    let v = obj(vec![
        ("reference", obj(vec![("reference", s("Patient/x"))])),
        ("type", s("Patient")),
    ]);
    let r = traverse_fhir(&v, Some("actor"), &reg).unwrap();
    assert_eq!(
        r,
        obj(vec![("reference", s("Reference(Patient/x)")), ("type", s("Patient"))])
    );
}

#[test]
fn lone_field_nested_reference_is_unnested() {
    let reg = empty_registry();
    let v = obj(vec![("reference", obj(vec![("reference", s("Patient/x"))]))]);
    let r = traverse_fhir(&v, Some("actor"), &reg).unwrap();
    assert_eq!(r, obj(vec![("reference", s("Reference(Patient/x)"))]));
}

#[test]
fn filter_queries_render_as_nothing() {
    let v = obj(vec![("x", Node::Num("1".to_string()))]);
    assert_eq!(xjsonp_first(&v, "$[?(@.x == 1e999)]"), "");
    assert_eq!(apply_format(&v, "<{$[?(@.x == 1e999)]}>"), "<>");
}

#[test]
fn slice_queries_render_as_nothing() {
    let v = obj(vec![("a", arr(vec![s("x"), s("y"), s("z")]))]);
    assert_eq!(xjsonp_first(&v, "$.a[0:2:0]"), "");
    assert_eq!(apply_format(&v, "<{$.a[0:2:0]}>"), "<>");
    assert_eq!(xjsonp_first(&v, "$.a[-9223372036854775808]"), "");
}

#[test]
fn reference_trees_are_screened_before_the_walk() {
    assert!(check_ref_safe(&obj(vec![("reference", s("Patient/a"))])));
    assert!(check_ref_safe(&obj(vec![(
        "reference",
        obj(vec![("reference", s("Patient/x"))]),
    )])));
    assert!(!check_ref_safe(&obj(vec![("reference", Node::Null)])));
    assert!(!check_ref_safe(&obj(vec![
        ("reference", arr(vec![s("a")])),
        ("display", s("Ann")),
    ])));
    assert!(check_ref_safe(&obj(vec![("status", arr(vec![s("one")]))])));
}

#[test]
fn lone_element_array_unwraps() {
    let reg = empty_registry();
    let v = obj(vec![("status", arr(vec![s("in-progress")]))]);
    let r = traverse_fhir(&v, None, &reg).unwrap();
    assert_eq!(r, obj(vec![("status", s("in-progress"))]));
}

#[test]
fn lone_element_array_renders_unwrapped_in_yaml() {
    let reg = empty_registry();
    let v = obj(vec![("status", arr(vec![s("in-progress")]))]);
    let yaml = json_to_huff(v, &reg).unwrap();
    assert_eq!(yaml, "status: in-progress\n");
}

#[test]
fn three_element_array_stays_a_sequence() {
    let reg = empty_registry();
    let v = obj(vec![(
        "given",
        arr(vec![s("Anna-Maria"), s("Magdalena"), s("Luisa")]),
    )]);
    let r = traverse_fhir(&v, None, &reg).unwrap();
    assert_eq!(
        r,
        obj(vec![(
            "given",
            arr(vec![s("Anna-Maria"), s("Magdalena"), s("Luisa")]),
        )])
    );
}

#[test]
fn scalar_fields_pass_through_unchanged() {
    let reg = empty_registry();
    let v = obj(vec![
        ("id", s("example")),
        ("active", Node::Bool(true)),
        ("count", Node::Num("3".to_string())),
        ("note", Node::Null),
    ]);
    let r = traverse_fhir(&v, None, &reg).unwrap();
    assert_eq!(
        r,
        obj(vec![
            ("id", s("example")),
            ("active", Node::Bool(true)),
            ("count", Node::Num("3".to_string())),
            ("note", Node::Null),
        ])
    );
}

#[test]
fn root_array_is_a_shape_error() {
    let reg = empty_registry();
    let r = json_to_huff(arr(vec![s("a")]), &reg);
    assert_eq!(r.err(), Some(HffError::Shape));
}

#[test]
fn root_scalar_is_a_shape_error() {
    let reg = empty_registry();
    let r = json_to_huff(s("just a string"), &reg);
    assert_eq!(r.err(), Some(HffError::Shape));
}

#[test]
fn matching_rule_renders_the_template() {
    let lines = load_mapping_from_str("#[system, value]\n{$.value} | {$.system}\n").unwrap();
    let reg = process_mapping(&lines).unwrap();
    let v = obj(vec![("system", s("S")), ("value", s("V"))]);
    let r = traverse_fhir(&v, Some("identifier"), &reg).unwrap();
    assert_eq!(r, s("V | S"));
}

#[test]
fn rule_matching_is_exact_set_not_subset() {
    let lines = load_mapping_from_str("#[system, value]\n{$.value} | {$.system}\n").unwrap();
    let reg = process_mapping(&lines).unwrap();
    // one extra field: no rule applies, the object recurses structurally
    let v = obj(vec![("system", s("S")), ("value", s("V")), ("use", s("official"))]);
    let r = traverse_fhir(&v, Some("identifier"), &reg).unwrap();
    assert_eq!(
        r,
        obj(vec![("system", s("S")), ("value", s("V")), ("use", s("official"))])
    );
}

#[test]
fn template_query_against_missing_field_renders_empty() {
    let lines = load_mapping_from_str("#[system, value]\n<{$.missing}>\n").unwrap();
    let reg = process_mapping(&lines).unwrap();
    let v = obj(vec![("system", s("S")), ("value", s("V"))]);
    let r = traverse_fhir(&v, Some("identifier"), &reg).unwrap();
    assert_eq!(r, s("<>"));
}

#[test]
fn xjsonp_first_finds_a_nested_code() {
    let v = obj(vec![
        ("use", s("usual")),
        (
            "type",
            obj(vec![(
                "coding",
                arr(vec![obj(vec![
                    ("system", s("http://terminology.hl7.org/CodeSystem/v2-0203")),
                    ("code", s("MR")),
                ])]),
            )]),
        ),
        ("system", s("urn:oid:")),
    ]);
    assert_eq!(xjsonp_first(&v, "$..code"), "MR");
    assert_eq!(xjsonp_first(&v, "$..notthere"), "");
    assert_eq!(xjsonp_first(&v, "$..type"), "");
}

#[test]
fn xjsonp_first_joins_string_arrays() {
    let v = obj(vec![(
        "given",
        arr(vec![s("Anna-Maria"), s("Magdalena"), s("Luisa")]),
    )]);
    assert_eq!(xjsonp_first(&v, "$.given"), "Anna-Maria Magdalena Luisa");
}

#[test]
fn xjsonp_first_renders_numbers_and_booleans() {
    let v = obj(vec![
        ("count", Node::Num("42".to_string())),
        ("active", Node::Bool(true)),
    ]);
    assert_eq!(xjsonp_first(&v, "$.count"), "42");
    assert_eq!(xjsonp_first(&v, "$.active"), "true");
}

#[test]
fn apply_format_substitutes_each_placeholder() {
    let v = obj(vec![("system", s("S")), ("value", s("V"))]);
    assert_eq!(apply_format(&v, "{$.value} | {$.system}"), "V | S");
    assert_eq!(apply_format(&v, "no placeholders"), "no placeholders");
    assert_eq!(apply_format(&v, "{$.value}{$.system}"), "VS");
}

#[test]
fn builder_runs_with_inline_rules() {
    let v = obj(vec![(
        "identifier",
        obj(vec![("system", s("S")), ("value", s("V"))]),
    )]);
    let yaml = builder()
        .with_string("#[system, value]\n{$.value} | {$.system}\n")
        .run(v)
        .unwrap();
    assert_eq!(yaml, "identifier: V | S\n");
}

#[test]
fn builder_with_default_rules_collapses_references() {
    let v = obj(vec![("subject", obj(vec![("reference", s("Patient/example"))]))]);
    let yaml = builder().run(v).unwrap();
    assert_eq!(yaml, "subject: Reference(Patient/example)\n");
}

#[test]
fn friendly_builder_matches_plain_builder() {
    let make = || obj(vec![("subject", obj(vec![("reference", s("Patient/example"))]))]);
    let a = builder().run(make()).unwrap();
    let b = friendly().run(make()).unwrap();
    assert_eq!(a, b);
}

#[test]
fn friendly_inline_rules_fail_on_odd_sources() {
    let v = obj(vec![("id", s("x"))]);
    let r = friendly().with_string("#[a]\n").run(v);
    assert_eq!(r.err(), Some(HffError::RuleSourceFormat));
}

#[test]
fn with_file_holds_the_path_for_the_caller() {
    let b = builder().with_file("rules.hfc");
    assert_eq!(b.mapping_file, "rules.hfc");
    let f = friendly().with_file("rules.hfc");
    assert_eq!(f.mapping_file, "rules.hfc");
}

#[test]
fn field_order_survives_reformatting() {
    let reg = empty_registry();
    let v = obj(vec![
        ("zeta", s("1")),
        ("alpha", s("2")),
        ("mid", s("3")),
    ]);
    let yaml = json_to_huff(v, &reg).unwrap();
    assert_eq!(yaml, "zeta: '1'\nalpha: '2'\nmid: '3'\n");
}
