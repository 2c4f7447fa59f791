//! The model of a generated schema file: a package with extensions and messages whose
//! fields keep stable numbers across regenerations.
use vstd::prelude::*;

verus! {

/// A scalar field type of a generated schema.
#[derive(Debug, Clone, Copy, PartialEq, Eq, Structural)]
pub enum ScalarType {
    Bool,
    String,
    Int64,
    Double,
}

/// A field value type: a scalar, or a message by name.
#[derive(Debug, Clone, PartialEq)]
pub enum ValueType {
    Scalar(ScalarType),
    Message(String),
}

/// A field type of a generated schema; `MapOf` is a map field with its key and value types.
#[derive(Debug, Clone, PartialEq)]
pub enum FieldType {
    Optional(ValueType),
    Repeated(ValueType),
    MapOf(ScalarType, ValueType),
}

/// A field of a generated message, with its number.
#[derive(Debug, Clone, PartialEq)]
pub struct Field {
    pub name: String,
    pub typ: FieldType,
    pub tag: u32,
}

/// A generated message (or extension block): its fields and the numbers it reserves.
#[derive(Debug, Clone, PartialEq)]
pub struct Message {
    pub name: String,
    pub fields: Vec<Field>,
    pub reserved: Vec<u32>,
}

/// A generated schema file.
#[derive(Debug, Clone, PartialEq)]
pub struct File {
    pub package: String,
    pub extensions: Vec<Message>,
    pub messages: Vec<Message>,
}

impl File {
    /// An empty file of package `package`.
    pub fn new(package: &str) -> (r: Self)
        ensures
            r.package@ == package@,
            r.extensions@.len() == 0,
            r.messages@.len() == 0,
    {
        File { package: String::from_str(package), extensions: Vec::new(), messages: Vec::new() }
    }
}

/// The last dot-separated piece of `s`.
pub open spec fn last_piece(s: Seq<char>) -> Seq<char>
    decreases s.len(),
{
    if s.len() == 0 {
        s
    } else if s.last() == '.' {
        Seq::empty()
    } else {
        last_piece(s.drop_last()).push(s.last())
    }
}

/// The message name generated for a schema name: the part after its last dot.
pub fn message_name(schema_name: &str) -> (r: &str)
    ensures
        r@ == last_piece(schema_name@),
{
    let n = schema_name.unicode_len();
    let mut i: usize = n;
    let mut found = false;
    while i > 0 && !found
        invariant
            i <= n == schema_name@.len(),
            forall|k: int| i <= k < n ==> schema_name@[k] != '.',
            found ==> i > 0 && schema_name@[i - 1] == '.',
        decreases i + if found { 0int } else { 1int },
    {
        if schema_name.get_char(i - 1) == '.' {
            found = true;
        } else {
            i = i - 1;
        }
    }
    proof {
        lemma_last_piece(schema_name@, i as int);
    }
    schema_name.substring_char(i, n)
}

proof fn lemma_last_piece(s: Seq<char>, i: int)
    requires
        0 <= i <= s.len(),
        forall|k: int| i <= k < s.len() ==> s[k] != '.',
        i == 0 || s[i - 1] == '.',
    ensures
        last_piece(s) == s.subrange(i, s.len() as int),
    decreases s.len(),
{
    if s.len() == i {
        if s.len() > 0 {
            assert(s.last() == s[i - 1]);
        }
        assert(s.subrange(i, s.len() as int) =~= Seq::<char>::empty());
    } else {
        let t = s.drop_last();
        assert forall|k: int| i <= k < t.len() implies t[k] != '.' by {
            assert(t[k] == s[k]);
        }
        if i > 0 {
            assert(t[i - 1] == s[i - 1]);
        }
        lemma_last_piece(t, i);
        assert(s.subrange(i, s.len() as int) =~= t.subrange(i, t.len() as int).push(s.last()));
    }
}

} // verus!
