use protosearch_plugin::mapping_spec::{ScalarType, ValueType};
use protosearch_plugin::{
    infer_field_type, infer_type, message_name, message_path, schema_name, Dialect, File,
    FileDescriptor, MessageDescriptor, Parameter, Point, RuntimeFieldType, RuntimeType, Span,
};

fn msg(name: &str, parent: Option<usize>) -> MessageDescriptor {
    MessageDescriptor {
        name: name.to_string(),
        full_name: name.to_string(),
        parent,
        fields: Vec::new(),
        index_annotation: None,
    }
}

#[test]
fn message_name_takes_last_piece() {
    assert_eq!(message_name("a.b.Name"), "Name");
    assert_eq!(message_name("Plain"), "Plain");
    assert_eq!(message_name("trailing."), "");
    assert_eq!(message_name(""), "");
}

#[test]
fn schema_name_strips_reference_prefix() {
    assert_eq!(schema_name("#/components/schemas/Mapping"), "Mapping");
    assert_eq!(schema_name("Mapping"), "Mapping");
    assert_eq!(schema_name("#/components/other/X"), "#/components/other/X");
}

#[test]
fn definition_name_of_parameters() {
    let d = ValueType::Definition("fielddata".to_string());
    assert_eq!(Parameter::Value(d.clone()).definition_name(), Some("fielddata"));
    assert_eq!(Parameter::Repeated(d.clone()).definition_name(), Some("fielddata"));
    assert_eq!(Parameter::MapOf(ScalarType::String, d).definition_name(), Some("fielddata"));
    assert_eq!(Parameter::Value(ValueType::Object).definition_name(), None);
}

#[test]
fn new_file_is_empty() {
    let f = File::new("pkg");
    assert_eq!(f.package, "pkg");
    assert!(f.messages.is_empty() && f.extensions.is_empty());
}

#[test]
fn dialect_suffix() {
    let d = Dialect::new("protosearch.elasticsearch".to_string());
    assert_eq!(d.package(), "protosearch.elasticsearch");
    assert_eq!(d.suffix(), "elasticsearch");
    assert_eq!(Dialect::new("other".to_string()).suffix(), "other");
}

#[test]
fn span_from_recorded_positions() {
    assert_eq!(
        Span::from_proto(&vec![0, 4, 9]),
        Some(Span::new(Point::new(1, 5), Point::new(1, 10)))
    );
    assert_eq!(
        Span::from_proto(&vec![2, 0, 3, 1]),
        Some(Span::new(Point::new(3, 1), Point::new(4, 2)))
    );
    assert_eq!(Span::from_proto(&vec![1, 2]), None);
    assert_eq!(Span::from_proto(&vec![1, 2, 3, 4, 5]), None);
    assert_eq!(Span::from_proto(&vec![-1, 0, 0]), None);
}

#[test]
fn message_paths_follow_nesting() {
    // Foo, Bar, Bar.Baz, Bar.Qux, Bar.Qux.Deep
    let file = FileDescriptor {
        name: "f.proto".to_string(),
        package: String::new(),
        messages: vec![
            msg("Foo", None),
            msg("Bar", None),
            msg("Bar.Baz", Some(1)),
            msg("Bar.Qux", Some(1)),
            msg("Bar.Qux.Deep", Some(3)),
        ],
        locations: Vec::new(),
    };
    assert_eq!(message_path(&file, 0), vec![4, 0]);
    assert_eq!(message_path(&file, 1), vec![4, 1]);
    assert_eq!(message_path(&file, 2), vec![4, 1, 3, 0]);
    assert_eq!(message_path(&file, 3), vec![4, 1, 3, 1]);
    assert_eq!(message_path(&file, 4), vec![4, 1, 3, 1, 3, 0]);
}

#[test]
fn inference_table() {
    assert_eq!(infer_type(&RuntimeType::I32), "integer");
    assert_eq!(infer_type(&RuntimeType::U64), "unsigned_long");
    assert_eq!(infer_type(&RuntimeType::Message("x.Y".to_string())), "object");
    assert_eq!(infer_field_type(&RuntimeFieldType::MapEntries), "object");
    assert_eq!(infer_field_type(&RuntimeFieldType::Repeated(RuntimeType::Double)), "double");
}
