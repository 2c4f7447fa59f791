//! Compiles annotated protobuf descriptors into search-engine document mappings, and
//! validates the result with source-accurate diagnostics.
mod compile;
mod context;
mod descriptor;
mod diagnostic;
mod dialect;
mod mapping;
pub mod mapping_spec;
mod options;
mod plugin;
mod schema;
mod span;
mod validator;

pub use compile::{compile_field, compile_message, default_property, target_parameters};
pub use context::{Config, Context, Error};
pub use descriptor::{
    FieldDescriptor, FieldMapping, FieldOptions, FileDescriptor, IndexOptions, IndexPrefixes,
    MessageDescriptor, RuntimeFieldType, RuntimeType, SourceLocation, Target,
};
pub use diagnostic::{Diagnostic, DiagnosticKind, Location, Severity};
pub use dialect::Dialect;
pub use mapping::{Mapping, Parameters, Property};
pub use options::{get_field_options, get_index_options, infer_field_type, infer_type, property_name};
pub use mapping_spec::{schema_name, Parameter};
pub use plugin::{
    compile_and_validate, generate, has_errors, lemma_generate_deterministic, process, should_emit,
    GeneratedFile,
};
pub use schema::{message_name, Field, FieldType, File, Message, ScalarType, ValueType};
pub use span::{message_path, Point, Span};
pub use validator::{
    check_ignore_above, check_index_prefixes, check_name, check_position_increment_gap,
    is_valid_field_name, validate, walk, ValidationContext,
};
