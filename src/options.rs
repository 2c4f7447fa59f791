//! Option accessors: the annotation and index options of fields and messages, the
//! output name of a field, and the default mapping type of a field's shape.
use vstd::prelude::*;

use crate::descriptor::{
    FieldDescriptor, FieldOptions, FieldOptionsView, IndexOptions, MessageDescriptor, ParamsView,
    RuntimeFieldType, RuntimeType,
};

verus! {

/// The annotation of a field, or `None` when it has none.
pub open spec fn field_options_spec(f: FieldDescriptor) -> Option<FieldOptionsView> {
    match f.annotation {
        Some(o) => Some(o@),
        None => None,
    }
}

/// The index options of a message, or `None` when it has none.
pub open spec fn index_options_spec(m: MessageDescriptor) -> Option<ParamsView> {
    match m.index_annotation {
        Some(o) => Some(o@),
        None => None,
    }
}

/// The output name: the override when it is set and not empty, else the field's name.
pub open spec fn property_name_spec(f: FieldDescriptor, o: FieldOptionsView) -> Seq<char> {
    match o.name {
        Some(n) => if n.len() > 0 {
            n
        } else {
            f.name@
        },
        None => f.name@,
    }
}

pub open spec fn infer_type_spec(t: RuntimeType) -> Seq<char> {
    match t {
        RuntimeType::I32 => "integer"@,
        RuntimeType::I64 => "long"@,
        RuntimeType::U32 => "long"@,
        RuntimeType::U64 => "unsigned_long"@,
        RuntimeType::Float => "float"@,
        RuntimeType::Double => "double"@,
        RuntimeType::Bool => "boolean"@,
        RuntimeType::String => "keyword"@,
        RuntimeType::Bytes => "binary"@,
        RuntimeType::Enum => "keyword"@,
        RuntimeType::Message(_) => "object"@,
    }
}

pub open spec fn field_type_name(t: RuntimeFieldType) -> Seq<char> {
    match t {
        RuntimeFieldType::Singular(v) => infer_type_spec(v),
        RuntimeFieldType::Repeated(v) => infer_type_spec(v),
        RuntimeFieldType::MapEntries => "object"@,
    }
}

/// The field's annotation, or `None` when it has none.
pub fn get_field_options(field: &FieldDescriptor) -> (r: Option<FieldOptions>)
    ensures
        match r {
            Some(o) => field_options_spec(*field) == Some(o@),
            None => field_options_spec(*field) is None,
        },
{
    match &field.annotation {
        Some(o) => Some(o.duplicate()),
        None => None,
    }
}

/// The message's index options, or `None` when it has none.
pub fn get_index_options(message: &MessageDescriptor) -> (r: Option<IndexOptions>)
    ensures
        match r {
            Some(o) => index_options_spec(*message) == Some(o@),
            None => index_options_spec(*message) is None,
        },
{
    match &message.index_annotation {
        Some(o) => Some(o.duplicate()),
        None => None,
    }
}

/// The output name of an annotated field: the override if it is set and not empty,
/// otherwise the field's own name.
pub fn property_name(field: &FieldDescriptor, options: &FieldOptions) -> (r: String)
    ensures
        r@ == property_name_spec(*field, options@),
{
    match &options.name {
        Some(n) => {
            if n.unicode_len() > 0 {
                n.clone()
            } else {
                field.name.clone()
            }
        },
        None => field.name.clone(),
    }
}

/// The default mapping type of a value of shape `t`.
pub fn infer_type(t: &RuntimeType) -> (r: &'static str)
    ensures
        r@ == infer_type_spec(*t),
{
    match t {
        RuntimeType::I32 => "integer",
        RuntimeType::I64 => "long",
        RuntimeType::U32 => "long",
        RuntimeType::U64 => "unsigned_long",
        RuntimeType::Float => "float",
        RuntimeType::Double => "double",
        RuntimeType::Bool => "boolean",
        RuntimeType::String => "keyword",
        RuntimeType::Bytes => "binary",
        RuntimeType::Enum => "keyword",
        RuntimeType::Message(_) => "object",
    }
}

/// The default mapping type of a field: that of its values, and `object` for a map.
pub fn infer_field_type(t: &RuntimeFieldType) -> (r: &'static str)
    ensures
        r@ == field_type_name(*t),
{
    match t {
        RuntimeFieldType::Singular(v) => infer_type(v),
        RuntimeFieldType::Repeated(v) => infer_type(v),
        RuntimeFieldType::MapEntries => "object",
    }
}

} // verus!
