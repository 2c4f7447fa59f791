//! The abstract description of mapping parameters that schemas are generated from.
use vstd::prelude::*;

verus! {

/// A simple scalar parameter value.
#[derive(Debug, Clone, Copy, PartialEq, Eq, Structural)]
pub enum ScalarType {
    Boolean,
    String,
    Integer,
    Double,
}

/// A parameter value type.
#[derive(Debug, Clone, PartialEq)]
pub enum ValueType {
    /// A scalar value.
    Scalar(ScalarType),
    /// An unstructured object, such as metadata.
    Object,
    /// A named, structured type.
    Definition(String),
}

/// A mapping parameter: one value, a list, or a map (`MapOf`, with its key and value types).
#[derive(Debug, Clone, PartialEq)]
pub enum Parameter {
    Value(ValueType),
    Repeated(ValueType),
    MapOf(ScalarType, ValueType),
}

impl Parameter {
    pub open spec fn value_type(&self) -> ValueType {
        match self {
            Parameter::Value(v) => *v,
            Parameter::Repeated(v) => *v,
            Parameter::MapOf(_, v) => *v,
        }
    }

    /// The name of the structured type that the parameter's values have, if any.
    pub fn definition_name(&self) -> (r: Option<&str>)
        ensures
            match self.value_type() {
                ValueType::Definition(t) => r matches Some(n) && n@ == t@,
                _ => r is None,
            },
    {
        match self {
            Parameter::Value(ValueType::Definition(t)) => Some(t.as_str()),
            Parameter::Repeated(ValueType::Definition(t)) => Some(t.as_str()),
            Parameter::MapOf(_, ValueType::Definition(t)) => Some(t.as_str()),
            _ => None,
        }
    }
}

pub open spec fn schema_ref_prefix() -> Seq<char> {
    "#/components/schemas/"@
}

/// The schema name of a reference: the reference with `#/components/schemas/` removed
/// when it starts with it.
pub fn schema_name(reference: &str) -> (r: &str)
    ensures
        r@ == (if reference@.len() >= 21 && reference@.take(21) == schema_ref_prefix() {
            reference@.skip(21)
        } else {
            reference@
        }),
{
    let n = reference.unicode_len();
    if n >= 21 {
        let head = String::from_str(reference.substring_char(0, 21));
        let prefix = String::from_str("#/components/schemas/");
        if head == prefix {
            return reference.substring_char(21, n);
        }
    }
    reference
}

} // verus!
