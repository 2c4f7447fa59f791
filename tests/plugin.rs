use protosearch_plugin::{
    is_valid_field_name, process, target_parameters, Diagnostic, DiagnosticKind, Error,
    FieldDescriptor, FieldMapping, FieldOptions, FileDescriptor, GeneratedFile, IndexOptions,
    IndexPrefixes, MessageDescriptor, Parameters, Property, RuntimeFieldType, RuntimeType,
    Severity, SourceLocation, Target,
};

fn s(v: &str) -> String {
    v.to_string()
}

fn mapping(typ: Option<&str>) -> FieldMapping {
    FieldMapping {
        typ: typ.map(s),
        ignore_above: None,
        position_increment_gap: None,
        index_prefixes: None,
        params: Vec::new(),
    }
}

fn annotated(name: &str, number: i32, t: RuntimeFieldType, options: FieldOptions) -> FieldDescriptor {
    FieldDescriptor {
        name: s(name),
        number,
        field_type: t,
        annotation: Some(options),
    }
}

fn plain_field(name: &str, number: i32, t: RuntimeFieldType) -> FieldDescriptor {
    FieldDescriptor {
        name: s(name),
        number,
        field_type: t,
        annotation: None,
    }
}

fn options(name: Option<&str>, m: Option<FieldMapping>, targets: &[(&str, &str)]) -> FieldOptions {
    FieldOptions {
        name: name.map(s),
        mapping: m,
        target: targets
            .iter()
            .map(|(l, j)| Target { label: s(l), json: s(j) })
            .collect(),
    }
}

fn message(package: &str, name: &str, parent: Option<(usize, &str)>, fields: Vec<FieldDescriptor>) -> MessageDescriptor {
    let full_name = match parent {
        Some((_, p)) => format!("{p}.{name}"),
        None => format!("{package}.{name}"),
    };
    MessageDescriptor {
        name: s(name),
        full_name,
        parent: parent.map(|(i, _)| i),
        fields,
        index_annotation: None,
    }
}

fn singular(t: RuntimeType) -> RuntimeFieldType {
    RuntimeFieldType::Singular(t)
}

fn annotation_file() -> FileDescriptor {
    FileDescriptor {
        name: s("protosearch/protosearch.proto"),
        package: s("protosearch"),
        messages: vec![
            message("protosearch", "Field", None, Vec::new()),
            message("protosearch", "Index", None, Vec::new()),
        ],
        locations: Vec::new(),
    }
}

fn with_ignore_above(v: Option<i64>) -> FieldOptions {
    let mut m = mapping(Some("keyword"));
    m.ignore_above = v;
    options(None, Some(m), &[])
}

/// The message list of the test schema, in declaration order.
fn test_messages() -> Vec<MessageDescriptor> {
    let field_case = message(
        "tests",
        "FieldTestCase",
        None,
        vec![
            annotated(
                "output_target",
                1,
                singular(RuntimeType::String),
                options(None, Some(mapping(None)), &[("foo", "{\"type\":\"text\"}")]),
            ),
            annotated("renamed", 2, singular(RuntimeType::I64), options(Some("title_text"), None, &[])),
            plain_field("ignored", 3, singular(RuntimeType::String)),
        ],
    );
    let infer_case = message(
        "tests",
        "InferTypeTestCase",
        None,
        vec![
            annotated("i32", 1, singular(RuntimeType::I32), options(None, None, &[])),
            annotated("i64", 2, singular(RuntimeType::I64), options(None, None, &[])),
            annotated("u32", 3, singular(RuntimeType::U32), options(None, None, &[])),
            annotated("u64", 4, singular(RuntimeType::U64), options(None, None, &[])),
            annotated("f32", 5, singular(RuntimeType::Float), options(None, None, &[])),
            annotated("f64", 6, singular(RuntimeType::Double), options(None, None, &[])),
            annotated("flag", 7, singular(RuntimeType::Bool), options(None, None, &[])),
            annotated("text", 8, RuntimeFieldType::Repeated(RuntimeType::String), options(None, None, &[])),
            annotated("data", 9, singular(RuntimeType::Bytes), options(None, None, &[])),
            annotated("kind", 10, singular(RuntimeType::Enum), options(None, None, &[])),
            annotated("labels", 11, RuntimeFieldType::MapEntries, options(None, None, &[])),
            annotated("explicit", 12, singular(RuntimeType::I32), options(None, Some(mapping(Some("short"))), &[])),
        ],
    );
    let json_case = message(
        "tests",
        "InvalidTargetJsonTestCase",
        None,
        vec![annotated(
            "invalid_json",
            1,
            singular(RuntimeType::String),
            options(
                None,
                None,
                &[("invalid-json-string", "not json"), ("invalid-json-array", "[1,2]")],
            ),
        )],
    );
    let nested_case = message(
        "tests",
        "NestedValidationTestCase",
        None,
        vec![annotated(
            "inner",
            1,
            singular(RuntimeType::Message(s("tests.NestedValidationTestCase.Inner"))),
            options(None, None, &[]),
        )],
    );
    let inner = message(
        "tests",
        "Inner",
        Some((4, "tests.NestedValidationTestCase")),
        vec![annotated("bad", 1, singular(RuntimeType::String), options(Some("BadField"), None, &[]))],
    );
    let names_case = message(
        "tests",
        "NameTestCase",
        None,
        ["valid", "valid_name", "field1", "@timestamp", "object.field", "Title", "1field", "field-name"]
            .iter()
            .enumerate()
            .map(|(i, n)| {
                annotated(
                    &format!("f{i}"),
                    i as i32 + 1,
                    singular(RuntimeType::String),
                    options(Some(n), None, &[]),
                )
            })
            .collect(),
    );
    let mut prefixes_invalid = mapping(Some("text"));
    prefixes_invalid.index_prefixes = Some(IndexPrefixes { min_chars: Some(-1), max_chars: Some(21) });
    let mut gap_negative = mapping(Some("text"));
    gap_negative.position_increment_gap = Some(-1);
    let mut gap_zero = mapping(Some("text"));
    gap_zero.position_increment_gap = Some(0);
    let index_case = message(
        "tests",
        "IndexTestCase",
        None,
        vec![
            annotated("valid", 1, singular(RuntimeType::String), with_ignore_above(Some(1))),
            annotated("zero", 2, singular(RuntimeType::String), with_ignore_above(Some(0))),
            annotated("negative", 3, singular(RuntimeType::String), with_ignore_above(Some(-5))),
            annotated("unset", 4, singular(RuntimeType::String), with_ignore_above(None)),
            annotated("prefixes", 5, singular(RuntimeType::String), options(None, Some(prefixes_invalid), &[])),
            annotated("gap_negative", 6, singular(RuntimeType::String), options(None, Some(gap_negative), &[])),
            annotated("gap_zero", 7, singular(RuntimeType::String), options(None, Some(gap_zero), &[])),
        ],
    );
    let empty_embedded = message(
        "tests",
        "EmptyEmbeddedTestCase",
        None,
        vec![annotated(
            "meta",
            1,
            singular(RuntimeType::Message(s("tests.Unannotated"))),
            options(None, Some(mapping(Some("flattened"))), &[]),
        )],
    );
    let unannotated = message(
        "tests",
        "Unannotated",
        None,
        vec![plain_field("x", 1, singular(RuntimeType::String))],
    );
    let mut indexed = message("tests", "IndexOptionsTestCase", None, Vec::new());
    indexed.index_annotation = Some(IndexOptions {
        params: vec![(s("dynamic"), s("\"strict\""))],
    });
    let collision = message(
        "tests",
        "CollisionTestCase",
        None,
        vec![
            annotated("zeta", 1, singular(RuntimeType::String), options(Some("same"), None, &[])),
            annotated("alpha", 2, singular(RuntimeType::Bool), options(None, None, &[])),
            annotated("later", 3, singular(RuntimeType::I32), options(Some("same"), Some(mapping(Some("text"))), &[])),
        ],
    );
    vec![
        collision,
        field_case,
        infer_case,
        json_case,
        nested_case,
        inner,
        names_case,
        index_case,
        empty_embedded,
        unannotated,
        indexed,
    ]
}

fn test_file() -> FileDescriptor {
    FileDescriptor {
        name: s("tests/tests.proto"),
        package: s("tests"),
        messages: test_messages(),
        locations: vec![
            // NestedValidationTestCase.Inner, field `bad`: message 3, nested 0, field 0.
            SourceLocation { path: vec![4, 4, 3, 0, 2, 0], span: vec![20, 4, 40] },
            // FieldTestCase.output_target.
            SourceLocation { path: vec![4, 1, 2, 0], span: vec![5, 2, 6, 30] },
        ],
    }
}

fn run(target: Option<&str>) -> (Vec<GeneratedFile>, Vec<Diagnostic>) {
    let parameter = match target {
        Some(t) => format!("target={t}"),
        None => String::new(),
    };
    process(
        vec![annotation_file(), test_file()],
        vec![s("tests/tests.proto")],
        &parameter,
    )
    .unwrap()
}

fn output<'a>(out: &'a [GeneratedFile], name: &str) -> Option<&'a GeneratedFile> {
    out.iter().find(|g| g.name == name)
}

fn property<'a>(g: &'a GeneratedFile, name: &str) -> &'a Property {
    &g.mapping
        .properties
        .iter()
        .find(|(n, _)| n == name)
        .unwrap_or_else(|| panic!("no property {name}"))
        .1
}

fn inferred(p: &Property) -> Option<String> {
    match p {
        Property::Leaf(Parameters::Typed { inferred_type, .. }) => inferred_type.clone(),
        _ => panic!("expected a typed leaf"),
    }
}

fn has_name_diagnostic(diagnostics: &[Diagnostic], wanted: &str) -> bool {
    diagnostics.iter().any(|d| {
        matches!(&d.kind, DiagnosticKind::InvalidFieldName { name, .. } if name == wanted)
    })
}

fn has_parameter_diagnostic(diagnostics: &[Diagnostic], wanted_field: &str, wanted: &str) -> bool {
    diagnostics.iter().any(|d| {
        matches!(&d.kind, DiagnosticKind::InvalidParameterValue { field, parameter, .. }
            if field == wanted_field && parameter == wanted)
    })
}

#[test]
fn test_invalid_json_target_string() {
    let (_out, diagnostics) = run(Some("invalid-json-string"));
    let expected = DiagnosticKind::InvalidTargetJson {
        message: "InvalidTargetJsonTestCase".to_string(),
        field: "invalid_json".to_string(),
        label: "invalid-json-string".to_string(),
    };
    assert!(diagnostics.iter().any(|d| d.kind == expected));
}

#[test]
fn test_non_object_json_target() {
    let (_out, diagnostics) = run(Some("invalid-json-array"));
    let expected = DiagnosticKind::InvalidTargetJsonType {
        message: "InvalidTargetJsonTestCase".to_string(),
        field: "invalid_json".to_string(),
        label: "invalid-json-array".to_string(),
    };
    assert!(diagnostics.iter().any(|d| d.kind == expected));
}

#[test]
fn test_unknown_target() {
    let (_out, diagnostics) = run(Some("bar"));
    let expected = DiagnosticKind::UnknownTarget {
        message: "FieldTestCase".to_string(),
        field: "output_target".to_string(),
        label: "bar".to_string(),
    };
    assert!(diagnostics.iter().any(|d| d.kind == expected));
}

#[test]
fn test_nested_field_location() {
    let (_out, diagnostics) = run(None);
    let diagnostic = diagnostics.iter().find(|d| {
        matches!(
            &d.kind,
            DiagnosticKind::InvalidFieldName { message, name, .. }
                if message == "tests.NestedValidationTestCase.Inner" && name == "BadField"
        )
    });
    assert!(
        diagnostic.is_some(),
        "expected InvalidFieldName for nested field"
    );
    assert!(
        diagnostic
            .unwrap()
            .location
            .as_ref()
            .and_then(|l| l.span.as_ref())
            .is_some(),
        "diagnostic has no span",
    );
}

#[test]
fn test_missing_descriptor() {
    let r = process(vec![annotation_file(), test_file()], vec![s("missing.proto")], "");
    assert!(matches!(r.unwrap_err(), Error::InvalidRequest(_)));
}

#[test]
fn nested_field_span_is_one_based() {
    let (_out, diagnostics) = run(None);
    let d = diagnostics
        .iter()
        .find(|d| matches!(&d.kind, DiagnosticKind::InvalidFieldName { name, .. } if name == "BadField"))
        .unwrap();
    let location = d.location.as_ref().unwrap();
    assert_eq!(location.file, "tests/tests.proto");
    let span = location.span.unwrap();
    assert_eq!((span.start.line, span.start.column), (21, 5));
    assert_eq!((span.end.line, span.end.column), (21, 41));
    assert_eq!(d.severity, Severity::Warning);
}

#[test]
fn missing_annotation_message_is_invalid_request() {
    let r = process(vec![test_file()], vec![s("tests/tests.proto")], "");
    assert!(matches!(r.unwrap_err(), Error::InvalidRequest(_)));
}

#[test]
fn unknown_parameter_key_is_invalid_request() {
    let r = process(vec![annotation_file(), test_file()], vec![s("tests/tests.proto")], "foo=bar");
    assert!(matches!(r.unwrap_err(), Error::InvalidRequest(_)));
}

#[test]
fn unannotated_fields_have_no_entry() {
    let (out, diagnostics) = run(None);
    let g = output(&out, "tests.FieldTestCase.json").unwrap();
    let names: Vec<&str> = g.mapping.properties.iter().map(|(n, _)| n.as_str()).collect();
    assert_eq!(names, vec!["output_target", "title_text"]);
    assert!(!diagnostics.iter().any(|d| format!("{:?}", d.kind).contains("ignored")));
    assert!(output(&out, "tests.Unannotated.json").is_none());
}

#[test]
fn inferred_types_follow_the_table() {
    let (out, _) = run(None);
    let g = output(&out, "tests.InferTypeTestCase.json").unwrap();
    let expected = [
        ("i32", Some("integer")),
        ("i64", Some("long")),
        ("u32", Some("long")),
        ("u64", Some("unsigned_long")),
        ("f32", Some("float")),
        ("f64", Some("double")),
        ("flag", Some("boolean")),
        ("text", Some("keyword")),
        ("data", Some("binary")),
        ("kind", Some("keyword")),
        ("labels", Some("object")),
        ("explicit", None),
    ];
    for (name, t) in expected {
        assert_eq!(inferred(property(g, name)).as_deref(), t, "{name}");
    }
}

#[test]
fn empty_embedded_message_collapses_to_leaf() {
    let (out, _) = run(None);
    let g = output(&out, "tests.EmptyEmbeddedTestCase.json").unwrap();
    match property(g, "meta") {
        Property::Leaf(Parameters::Typed { field_mapping, inferred_type }) => {
            assert_eq!(field_mapping.typ.as_deref(), Some("flattened"));
            assert_eq!(inferred_type, &None);
        }
        _ => panic!("expected a leaf"),
    }
}

#[test]
fn embedded_message_with_properties_is_object() {
    let (out, diagnostics) = run(None);
    // The nested message has an invalid name (a warning only), so it is emitted.
    assert!(!diagnostics.iter().any(|d| matches!(&d.kind,
        DiagnosticKind::InvalidFieldName { message, .. } if message == "tests.NestedValidationTestCase")));
    let g = output(&out, "tests.NestedValidationTestCase.json").unwrap();
    match property(g, "inner") {
        Property::Object { parameters, properties } => {
            assert!(matches!(parameters, Parameters::Typed { inferred_type: Some(t), .. } if t == "object"));
            assert_eq!(properties.properties.len(), 1);
            assert_eq!(properties.properties[0].0, "BadField");
        }
        _ => panic!("expected an object"),
    }
}

#[test]
fn target_override_replaces_parameters() {
    let (out, _) = run(Some("foo"));
    let g = output(&out, "tests.FieldTestCase.json").unwrap();
    match property(g, "output_target") {
        Property::Leaf(Parameters::Raw(members)) => {
            assert_eq!(members, &vec![(s("type"), s("\"text\""))]);
        }
        _ => panic!("expected raw parameters"),
    }
    // A field with no overrides keeps its default rule silently.
    assert_eq!(inferred(property(g, "title_text")).as_deref(), Some("long"));
}

#[test]
fn unknown_target_keeps_default_rule() {
    let (out, diagnostics) = run(Some("bar"));
    let g = output(&out, "tests.FieldTestCase.json").unwrap();
    assert_eq!(inferred(property(g, "output_target")).as_deref(), Some("keyword"));
    let warnings: Vec<&Diagnostic> = diagnostics
        .iter()
        .filter(|d| matches!(d.kind, DiagnosticKind::UnknownTarget { .. }))
        .collect();
    // Only fields that declare overrides warn.
    assert_eq!(warnings.len(), 2);
    assert!(warnings.iter().all(|d| d.severity == Severity::Warning));
    let located = warnings
        .iter()
        .find(|d| matches!(&d.kind, DiagnosticKind::UnknownTarget { field, .. } if field == "output_target"))
        .unwrap();
    let span = located.location.as_ref().unwrap().span.unwrap();
    assert_eq!((span.start.line, span.start.column, span.end.line, span.end.column), (6, 3, 7, 31));
}

#[test]
fn invalid_target_json_drops_property_and_output() {
    let (out, diagnostics) = run(Some("invalid-json-string"));
    assert!(output(&out, "tests.InvalidTargetJsonTestCase.json").is_none());
    let d = diagnostics
        .iter()
        .find(|d| matches!(d.kind, DiagnosticKind::InvalidTargetJson { .. }))
        .unwrap();
    assert!(d.is_error());
    assert_eq!(d.kind.number(), 2);
    // Other messages still produce their output.
    assert!(output(&out, "tests.FieldTestCase.json").is_some());
}

#[test]
fn non_object_target_json_drops_property() {
    let (out, diagnostics) = run(Some("invalid-json-array"));
    assert!(output(&out, "tests.InvalidTargetJsonTestCase.json").is_none());
    let d = diagnostics
        .iter()
        .find(|d| matches!(d.kind, DiagnosticKind::InvalidTargetJsonType { .. }))
        .unwrap();
    assert_eq!(d.kind.number(), 3);
    assert_eq!(d.severity.prefix(), 'E');
}

#[test]
fn test_field_name_valid() {
    assert!(!has_name_diagnostic(&run(None).1, "valid"));
}

#[test]
fn test_field_name_with_underscore() {
    assert!(!has_name_diagnostic(&run(None).1, "valid_name"));
}

#[test]
fn test_field_name_with_digit() {
    assert!(!has_name_diagnostic(&run(None).1, "field1"));
}

#[test]
fn test_field_name_at_prefix() {
    assert!(!has_name_diagnostic(&run(None).1, "@timestamp"));
}

#[test]
fn test_field_name_dotted() {
    assert!(!has_name_diagnostic(&run(None).1, "object.field"));
}

#[test]
fn test_field_name_empty() {
    assert!(!is_valid_field_name(""));
}

#[test]
fn test_field_name_uppercase() {
    assert!(has_name_diagnostic(&run(None).1, "Title"));
}

#[test]
fn test_field_name_leading_digit() {
    assert!(has_name_diagnostic(&run(None).1, "1field"));
}

#[test]
fn test_field_name_hyphen() {
    assert!(has_name_diagnostic(&run(None).1, "field-name"));
}

#[test]
fn field_name_pattern_edges() {
    assert!(is_valid_field_name("a.b.c"));
    assert!(is_valid_field_name("@.a"));
    assert!(!is_valid_field_name("a."));
    assert!(!is_valid_field_name("a..b"));
    assert!(!is_valid_field_name("a@b"));
    assert!(!is_valid_field_name(".a"));
}

#[test]
fn invalid_name_is_a_warning_and_does_not_block_output() {
    let (out, diagnostics) = run(None);
    let d = diagnostics
        .iter()
        .find(|d| matches!(&d.kind, DiagnosticKind::InvalidFieldName { name, .. } if name == "Title"))
        .unwrap();
    assert!(d.is_warning());
    assert_eq!(d.kind.number(), 1);
    assert!(matches!(&d.kind, DiagnosticKind::InvalidFieldName { field, .. } if field == "f5"));
    assert!(output(&out, "tests.NameTestCase.json").is_some());
}

#[test]
fn test_ignore_above_valid() {
    assert!(!has_parameter_diagnostic(&run(None).1, "valid", "ignore_above"));
}

#[test]
fn test_ignore_above_zero() {
    assert!(has_parameter_diagnostic(&run(None).1, "zero", "ignore_above"));
}

#[test]
fn test_ignore_above_negative() {
    assert!(has_parameter_diagnostic(&run(None).1, "negative", "ignore_above"));
}

#[test]
fn ignore_above_unset_is_fine() {
    assert!(!has_parameter_diagnostic(&run(None).1, "unset", "ignore_above"));
}

#[test]
fn test_position_increment_gap_zero() {
    assert!(!has_parameter_diagnostic(&run(None).1, "gap_zero", "position_increment_gap"));
}

#[test]
fn test_position_increment_gap_negative() {
    assert!(has_parameter_diagnostic(&run(None).1, "gap_negative", "position_increment_gap"));
}

#[test]
fn index_prefixes_out_of_range() {
    let diagnostics = run(None).1;
    assert!(has_parameter_diagnostic(&diagnostics, "prefixes", "index_prefixes.min_chars"));
    assert!(has_parameter_diagnostic(&diagnostics, "prefixes", "index_prefixes.max_chars"));
    let d = diagnostics
        .iter()
        .find(|d| matches!(&d.kind, DiagnosticKind::InvalidParameterValue { parameter, .. } if parameter == "index_prefixes.max_chars"))
        .unwrap();
    assert!(matches!(&d.kind, DiagnosticKind::InvalidParameterValue { reason, message, .. }
        if reason == "must be less than or equal to 20" && message == "tests.IndexTestCase"));
    assert_eq!(d.kind.number(), 100);
}

#[test]
fn message_with_error_is_not_emitted() {
    let (out, _) = run(None);
    assert!(output(&out, "tests.IndexTestCase.json").is_none());
    assert!(output(&out, "tests.InferTypeTestCase.json").is_some());
}

#[test]
fn index_options_alone_make_an_output() {
    let (out, _) = run(None);
    let g = output(&out, "tests.IndexOptionsTestCase.json").unwrap();
    assert!(g.mapping.properties.is_empty());
    let index = g.mapping.index.as_ref().unwrap();
    assert_eq!(index.params, vec![(s("dynamic"), s("\"strict\""))]);
}

#[test]
fn compiling_twice_gives_the_same_result() {
    let (a_out, a_diags) = run(Some("foo"));
    let (b_out, b_diags) = run(Some("foo"));
    assert_eq!(format!("{a_out:?}"), format!("{b_out:?}"));
    assert_eq!(a_diags, b_diags);
}

#[test]
fn field_options_are_copied_whole() {
    let mut o = options(Some("first"), Some(mapping(Some("text"))), &[("a", "{}"), ("b", "[]")]);
    o.mapping.as_mut().unwrap().params = vec![(s("store"), s("true"))];
    o.mapping.as_mut().unwrap().ignore_above = Some(7);
    let field = annotated("f", 1, singular(RuntimeType::String), o.clone());
    assert_eq!(protosearch_plugin::get_field_options(&field), Some(o));
    assert!(protosearch_plugin::get_field_options(&plain_field("g", 2, singular(RuntimeType::Bool))).is_none());
}

#[test]
fn empty_name_override_falls_back_to_field_name() {
    let field = annotated("declared", 1, singular(RuntimeType::Bool), options(Some(""), None, &[]));
    let o = protosearch_plugin::get_field_options(&field).unwrap();
    assert_eq!(protosearch_plugin::property_name(&field, &o), "declared");
}

#[test]
fn target_parameters_from_parsed_json() {
    let m = s("M");
    let f = s("f");
    let l = s("x");
    assert!(matches!(
        target_parameters(None, &m, &f, &l),
        Err(DiagnosticKind::InvalidTargetJson { .. })
    ));
    assert!(matches!(
        target_parameters(Some(None), &m, &f, &l),
        Err(DiagnosticKind::InvalidTargetJsonType { .. })
    ));
    let members = vec![(s("type"), s("\"text\""))];
    match target_parameters(Some(Some(members.clone())), &m, &f, &l) {
        Ok(Parameters::Raw(p)) => assert_eq!(p, members),
        _ => panic!("expected raw parameters"),
    }
}

#[test]
fn properties_are_ordered_by_name() {
    let (out, _) = run(None);
    let g = output(&out, "tests.InferTypeTestCase.json").unwrap();
    let names: Vec<&str> = g.mapping.properties.iter().map(|(n, _)| n.as_str()).collect();
    let mut sorted = names.clone();
    sorted.sort();
    assert_eq!(names, sorted);
    assert_eq!(names[0], "data");
}

#[test]
fn later_field_wins_a_name_collision() {
    let (out, diagnostics) = run(None);
    let g = output(&out, "tests.CollisionTestCase.json").unwrap();
    let names: Vec<&str> = g.mapping.properties.iter().map(|(n, _)| n.as_str()).collect();
    assert_eq!(names, vec!["alpha", "same"]);
    match property(g, "same") {
        Property::Leaf(Parameters::Typed { field_mapping, inferred_type }) => {
            assert_eq!(field_mapping.typ.as_deref(), Some("text"));
            assert_eq!(inferred_type, &None);
        }
        _ => panic!("expected a typed leaf"),
    }
    assert!(!diagnostics.iter().any(|d| format!("{:?}", d.kind).contains("CollisionTestCase")));
}
