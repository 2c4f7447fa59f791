//! The descriptor graph as plain values: files hold messages, messages hold fields, and
//! fields and messages carry the decoded annotation payloads found in their options.
use vstd::prelude::*;

verus! {

/// The runtime shape of a single value of a field.
#[derive(Debug, Clone, PartialEq)]
pub enum RuntimeType {
    I32,
    I64,
    U32,
    U64,
    Float,
    Double,
    Bool,
    String,
    Bytes,
    Enum,
    /// An embedded message, by its full name (without a leading dot).
    Message(String),
}

/// The runtime shape of a field: one value, a repeated value or a map (`MapEntries`).
#[derive(Debug, Clone, PartialEq)]
pub enum RuntimeFieldType {
    Singular(RuntimeType),
    Repeated(RuntimeType),
    MapEntries,
}

/// A labelled alternate mapping of a field, as JSON text.
#[derive(Debug, Clone, PartialEq)]
pub struct Target {
    pub label: String,
    pub json: String,
}

#[derive(Debug, Clone, Copy, PartialEq, Eq, Structural)]
pub struct IndexPrefixes {
    pub min_chars: Option<i64>,
    pub max_chars: Option<i64>,
}

/// Mapping parameters of a field. The parameters that validation reads have fields of
/// their own; every other set parameter is in `params`, as `(name, JSON text)`, where a
/// later entry with the same name wins.
#[derive(Debug, Clone, PartialEq)]
pub struct FieldMapping {
    pub typ: Option<String>,
    pub ignore_above: Option<i64>,
    pub position_increment_gap: Option<i64>,
    pub index_prefixes: Option<IndexPrefixes>,
    pub params: Vec<(String, String)>,
}

/// The field-level annotation.
#[derive(Debug, Clone, PartialEq)]
pub struct FieldOptions {
    pub name: Option<String>,
    pub mapping: Option<FieldMapping>,
    pub target: Vec<Target>,
}

/// The message-level annotation: index settings as `(name, JSON text)`, a later entry
/// with the same name winning.
#[derive(Debug, Clone, PartialEq)]
pub struct IndexOptions {
    pub params: Vec<(String, String)>,
}

/// A field. `annotation` holds its annotation: the payloads of all annotation entries
/// of the field's options, spliced and decoded as one message; `None` when there is no
/// such entry.
#[derive(Debug, Clone, PartialEq)]
pub struct FieldDescriptor {
    pub name: String,
    pub number: i32,
    pub field_type: RuntimeFieldType,
    pub annotation: Option<FieldOptions>,
}

/// A message. `index_annotation` holds its index options, decoded like a field's
/// annotation. `parent` is the index of the enclosing message in the file's message
/// list, `None` for a top-level message.
#[derive(Debug, Clone, PartialEq)]
pub struct MessageDescriptor {
    pub name: String,
    pub full_name: String,
    pub parent: Option<usize>,
    pub fields: Vec<FieldDescriptor>,
    pub index_annotation: Option<IndexOptions>,
}

/// One entry of a file's source table: a descriptor path and its 0-based span.
#[derive(Debug, Clone, PartialEq)]
pub struct SourceLocation {
    pub path: Vec<i32>,
    pub span: Vec<i32>,
}

/// A file. `messages` lists every message of the file, nested ones included, each
/// after its enclosing message.
#[derive(Debug, Clone, PartialEq)]
pub struct FileDescriptor {
    pub name: String,
    pub package: String,
    pub messages: Vec<MessageDescriptor>,
    pub locations: Vec<SourceLocation>,
}

pub type ParamsView = Seq<(Seq<char>, Seq<char>)>;

pub open spec fn params_view(ps: Seq<(String, String)>) -> ParamsView {
    ps.map_values(|p: (String, String)| (p.0@, p.1@))
}

pub struct FieldMappingView {
    pub typ: Option<Seq<char>>,
    pub ignore_above: Option<i64>,
    pub position_increment_gap: Option<i64>,
    pub index_prefixes: Option<IndexPrefixes>,
    pub params: ParamsView,
}

pub struct FieldOptionsView {
    pub name: Option<Seq<char>>,
    pub mapping: Option<FieldMappingView>,
    pub target: Seq<(Seq<char>, Seq<char>)>,
}

pub open spec fn opt_str_view(s: Option<String>) -> Option<Seq<char>> {
    match s {
        Some(x) => Some(x@),
        None => None,
    }
}

impl View for FieldMapping {
    type V = FieldMappingView;

    open spec fn view(&self) -> FieldMappingView {
        FieldMappingView {
            typ: opt_str_view(self.typ),
            ignore_above: self.ignore_above,
            position_increment_gap: self.position_increment_gap,
            index_prefixes: self.index_prefixes,
            params: params_view(self.params@),
        }
    }
}

impl View for FieldOptions {
    type V = FieldOptionsView;

    open spec fn view(&self) -> FieldOptionsView {
        FieldOptionsView {
            name: opt_str_view(self.name),
            mapping: match self.mapping {
                Some(m) => Some(m@),
                None => None,
            },
            target: self.target@.map_values(|t: Target| (t.label@, t.json@)),
        }
    }
}

impl View for IndexOptions {
    type V = ParamsView;

    open spec fn view(&self) -> ParamsView {
        params_view(self.params@)
    }
}

pub fn copy_string_opt(s: &Option<String>) -> (r: Option<String>)
    ensures
        opt_str_view(r) == opt_str_view(*s),
{
    match s {
        Some(x) => Some(x.clone()),
        None => None,
    }
}

/// Appends a copy of each entry of `src` to `dst`.
pub fn extend_params(dst: &mut Vec<(String, String)>, src: &Vec<(String, String)>)
    ensures
        params_view(final(dst)@) == params_view(old(dst)@) + params_view(src@),
{
    let ghost start = dst@;
    let mut i: usize = 0;
    while i < src.len()
        invariant
            i <= src.len(),
            params_view(dst@) == params_view(start) + params_view(src@.take(i as int)),
        decreases src.len() - i,
    {
        let ghost before = dst@;
        let entry = (src[i].0.clone(), src[i].1.clone());
        dst.push(entry);
        proof {
            assert(src@.take(i + 1 as int) =~= src@.take(i as int).push(src@[i as int]));
            assert(params_view(dst@) =~= params_view(before).push((src@[i as int].0@, src@[i as int].1@)));
            assert(params_view(src@.take(i + 1 as int)) =~= params_view(src@.take(i as int)).push(
                (src@[i as int].0@, src@[i as int].1@),
            ));
        }
        i = i + 1;
    }
    proof {
        assert(src@.take(i as int) == src@);
    }
}

impl FieldMapping {
    /// A copy of this value.
    pub fn duplicate(&self) -> (r: Self)
        ensures
            r@ == self@,
    {
        let mut params: Vec<(String, String)> = Vec::new();
        extend_params(&mut params, &self.params);
        proof {
            assert(params_view(Seq::<(String, String)>::empty()) =~= Seq::empty());
            assert(params_view(params@) =~= params_view(self.params@));
        }
        FieldMapping {
            typ: copy_string_opt(&self.typ),
            ignore_above: self.ignore_above,
            position_increment_gap: self.position_increment_gap,
            index_prefixes: self.index_prefixes,
            params,
        }
    }
}

fn copy_targets(src: &Vec<Target>) -> (r: Vec<Target>)
    ensures
        r@.map_values(|t: Target| (t.label@, t.json@)) == src@.map_values(|t: Target| (t.label@, t.json@)),
{
    let mut dst: Vec<Target> = Vec::new();
    let mut i: usize = 0;
    while i < src.len()
        invariant
            i <= src.len(),
            dst@.map_values(|t: Target| (t.label@, t.json@)) == src@.take(i as int).map_values(|t: Target| (t.label@, t.json@)),
        decreases src.len() - i,
    {
        let ghost before = dst@;
        dst.push(Target { label: src[i].label.clone(), json: src[i].json.clone() });
        proof {
            assert(src@.take(i + 1 as int) =~= src@.take(i as int).push(src@[i as int]));
            assert(dst@.map_values(|t: Target| (t.label@, t.json@)) =~= before.map_values(|t: Target| (t.label@, t.json@)).push(
                (src@[i as int].label@, src@[i as int].json@),
            ));
            assert(src@.take(i + 1 as int).map_values(|t: Target| (t.label@, t.json@)) =~= src@.take(i as int).map_values(
                |t: Target| (t.label@, t.json@),
            ).push((src@[i as int].label@, src@[i as int].json@)));
        }
        i = i + 1;
    }
    proof {
        assert(src@.take(i as int) == src@);
    }
    dst
}

impl FieldOptions {
    /// A copy of this value.
    pub fn duplicate(&self) -> (r: Self)
        ensures
            r@ == self@,
    {
        let mapping = match &self.mapping {
            Some(m) => Some(m.duplicate()),
            None => None,
        };
        FieldOptions { name: copy_string_opt(&self.name), mapping, target: copy_targets(&self.target) }
    }
}

impl IndexOptions {
    /// A copy of this value.
    pub fn duplicate(&self) -> (r: Self)
        ensures
            r@ == self@,
    {
        let mut params: Vec<(String, String)> = Vec::new();
        extend_params(&mut params, &self.params);
        proof {
            assert(params_view(Seq::<(String, String)>::empty()) =~= Seq::empty());
            assert(params_view(params@) =~= params_view(self.params@));
        }
        IndexOptions { params }
    }
}

} // verus!
