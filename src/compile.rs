//! The mapping compiler: walks a message's fields, resolves each annotated field to a
//! property, and descends into embedded messages.
use vstd::prelude::*;

use crate::context::Context;
use crate::descriptor::{
    params_view, FieldDescriptor, FieldMapping, FieldMappingView, FieldOptions, FieldOptionsView,
    ParamsView, RuntimeFieldType, RuntimeType, Target,
};
use crate::context::find_message_spec;
use crate::diagnostic::{diag_view, diags_view, Diagnostic, DiagnosticKind, DiagnosticView, Location, Severity};
use crate::mapping::{lemma_str_lt_irreflexive, sorted_pos, str_lt, Mapping, Parameters, ParametersView, Property};
use crate::options::{
    field_options_spec, field_type_name, get_field_options, get_index_options, index_options_spec,
    infer_field_type, property_name, property_name_spec,
};
use crate::span::{field_span_spec, Span};

verus! {

/// What JSON text `text` holds: `None` when it is not JSON, `Some(None)` when it is JSON
/// but not an object, and otherwise the object's members, each value written as JSON text.
pub uninterp spec fn json_object_members(text: Seq<char>) -> Option<Option<ParamsView>>;

pub open spec fn parsed_view(p: Option<Option<Vec<(String, String)>>>) -> Option<Option<ParamsView>> {
    match p {
        None => None,
        Some(None) => Some(None),
        Some(Some(ms)) => Some(Some(params_view(ms@))),
    }
}

/// Relies on `serde_json::from_str::<serde_json::Value>` to parse a target override, and
/// on `Value`'s `to_string` to write each member's value back as JSON text.
#[verifier::external_body]
fn parse_json_object(text: &str) -> (r: Option<Option<Vec<(String, String)>>>)
    ensures
        parsed_view(r) == json_object_members(text@),
{
    match serde_json::from_str::<serde_json::Value>(text) {
        Err(_) => None,
        Ok(serde_json::Value::Object(members)) => Some(
            Some(members.into_iter().map(|(k, v)| (k, v.to_string())).collect()),
        ),
        Ok(_) => Some(None),
    }
}

/// The index of the first target labelled `label`.
pub open spec fn selected_target(ts: Seq<(Seq<char>, Seq<char>)>, label: Seq<char>) -> Option<int> {
    if exists|i: int| #![trigger ts[i]] 0 <= i < ts.len() && ts[i].0 == label && forall|k: int| 0 <= k < i ==> ts[k].0 != label {
        Some(choose|i: int| #![trigger ts[i]] 0 <= i < ts.len() && ts[i].0 == label && forall|k: int| 0 <= k < i ==> ts[k].0 != label)
    } else {
        None
    }
}

pub open spec fn empty_mapping_view() -> FieldMappingView {
    FieldMappingView {
        typ: None,
        ignore_above: None,
        position_increment_gap: None,
        index_prefixes: None,
        params: Seq::empty(),
    }
}

/// The default-rule parameters: the annotation's own, with the inferred type when none
/// is set explicitly.
pub open spec fn default_params(f: FieldDescriptor, o: FieldOptionsView) -> ParametersView {
    let m = match o.mapping {
        Some(m) => m,
        None => empty_mapping_view(),
    };
    ParametersView::Typed {
        mapping: m,
        inferred_type: if m.typ is Some {
            None
        } else {
            Some(field_type_name(f.field_type))
        },
    }
}

pub open spec fn embedded_message(t: RuntimeFieldType) -> bool {
    match t {
        RuntimeFieldType::Singular(RuntimeType::Message(_)) => true,
        RuntimeFieldType::Repeated(RuntimeType::Message(_)) => true,
        _ => false,
    }
}

/// Resolves the parsed JSON text of a selected target override: an object gives its
/// members as the parameters; anything else is `InvalidTargetJson` (not JSON) or
/// `InvalidTargetJsonType` (not an object) about `field` of `message` and `label`.
pub fn target_parameters(
    parsed: Option<Option<Vec<(String, String)>>>,
    message: &String,
    field: &String,
    label: &String,
) -> (r: Result<Parameters, DiagnosticKind>)
    ensures
        match parsed {
            None => r matches Err(DiagnosticKind::InvalidTargetJson { message: m, field: f, label: l })
                && m@ == message@ && f@ == field@ && l@ == label@,
            Some(None) => r matches Err(DiagnosticKind::InvalidTargetJsonType { message: m, field: f, label: l })
                && m@ == message@ && f@ == field@ && l@ == label@,
            Some(Some(ms)) => r matches Ok(p) && p@ == ParametersView::Raw(params_view(ms@)),
        },
{
    match parsed {
        None => Err(
            DiagnosticKind::InvalidTargetJson { message: message.clone(), field: field.clone(), label: label.clone() },
        ),
        Some(None) => Err(
            DiagnosticKind::InvalidTargetJsonType {
                message: message.clone(),
                field: field.clone(),
                label: label.clone(),
            },
        ),
        Some(Some(ms)) => Ok(Parameters::Raw(ms)),
    }
}

/// The index of the first target labelled `label`.
fn find_target(targets: &Vec<Target>, label: &String) -> (r: Option<usize>)
    ensures
        match r {
            Some(i) => selected_target(targets@.map_values(|t: Target| (t.label@, t.json@)), label@)
                == Some(i as int) && i < targets@.len(),
            None => selected_target(targets@.map_values(|t: Target| (t.label@, t.json@)), label@) is None,
        },
{
    let ghost ts = targets@.map_values(|t: Target| (t.label@, t.json@));
    let mut i: usize = 0;
    while i < targets.len()
        invariant
            i <= targets@.len(),
            ts == targets@.map_values(|t: Target| (t.label@, t.json@)),
            forall|k: int| 0 <= k < i ==> ts[k].0 != label@,
        decreases targets.len() - i,
    {
        if targets[i].label == *label {
            proof {
                assert(ts[i as int].0 == label@);
                let j = choose|j: int| #![trigger ts[j]] 0 <= j < ts.len() && ts[j].0 == label@ && forall|k: int| 0 <= k < j ==> ts[k].0 != label@;
                if j < i {
                    assert(ts[j].0 != label@);
                }
                if i < j {
                    assert(ts[i as int].0 != label@);
                }
            }
            return Some(i);
        }
        i = i + 1;
    }
    None
}

/// The default-rule property of an annotated field.
pub fn default_property(field: &FieldDescriptor, options: &FieldOptions) -> (r: Property)
    ensures
        r matches Property::Leaf(_),
        r.params() == default_params(*field, options@),
{
    let field_mapping = match &options.mapping {
        Some(m) => m.duplicate(),
        None => FieldMapping {
            typ: None,
            ignore_above: None,
            position_increment_gap: None,
            index_prefixes: None,
            params: Vec::new(),
        },
    };
    proof {
        assert(params_view(Seq::<(String, String)>::empty()) =~= Seq::empty());
    }
    let inferred_type = if field_mapping.typ.is_some() {
        None
    } else {
        Some(String::from_str(infer_field_type(&field.field_type)))
    };
    Property::Leaf(Parameters::Typed { field_mapping, inferred_type })
}

/// The full name of the message that a field embeds, if it embeds one.
fn embedded_message_name(t: &RuntimeFieldType) -> (r: Option<&String>)
    ensures
        r is Some <==> embedded_message(*t),
        r matches Some(n) ==> n@ == embedded_name(*t),
{
    match t {
        RuntimeFieldType::Singular(RuntimeType::Message(n)) => Some(n),
        RuntimeFieldType::Repeated(RuntimeType::Message(n)) => Some(n),
        _ => None,
    }
}

pub open spec fn field_at(ctx: Context, fi: int, mi: int, k: int) -> FieldDescriptor {
    ctx.files@[fi].messages@[mi].fields@[k]
}

/// The active target selects an override of field `f` whose JSON text is not an object,
/// so that the field gives no property.
pub open spec fn target_fails(ctx: Context, f: FieldDescriptor) -> bool {
    match (field_options_spec(f), ctx.target) {
        (Some(o), Some(l)) => match selected_target(o.target, l@) {
            Some(i) => !(json_object_members(o.target[i].1) matches Some(Some(_))),
            None => false,
        },
        _ => false,
    }
}

pub open spec fn valid_message(ctx: Context, fi: int, mi: int) -> bool {
    &&& ctx.wf()
    &&& 0 <= fi < ctx.files@.len()
    &&& 0 <= mi < ctx.files@[fi].messages@.len()
}

/// Whether `v` holds the message `x`.
fn contains_pair(v: &Vec<(usize, usize)>, x: (usize, usize)) -> (r: bool)
    ensures
        r == v@.contains(x),
{
    let mut i: usize = 0;
    while i < v.len()
        invariant
            i <= v@.len(),
            forall|k: int| 0 <= k < i ==> v@[k] != x,
        decreases v.len() - i,
    {
        if v[i].0 == x.0 && v[i].1 == x.1 {
            proof {
                assert(v@[i as int] == x);
            }
            return true;
        }
        i = i + 1;
    }
    false
}

/// A copy of `v` with the message `x` added.
fn with_pair(v: &Vec<(usize, usize)>, x: (usize, usize)) -> (r: Vec<(usize, usize)>)
    ensures
        r@ == v@.push(x),
{
    let mut out: Vec<(usize, usize)> = Vec::new();
    let mut i: usize = 0;
    while i < v.len()
        invariant
            i <= v@.len(),
            out@ == v@.take(i as int),
        decreases v.len() - i,
    {
        out.push(v[i]);
        proof {
            assert(v@.take(i + 1 as int) =~= v@.take(i as int).push(v@[i as int]));
        }
        i = i + 1;
    }
    proof {
        assert(v@.take(i as int) =~= v@);
    }
    out.push(x);
    out
}

/// Field `f` is annotated and its target override, if one is selected, does not fail:
/// it gives a property.
pub open spec fn kept(ctx: Context, f: FieldDescriptor) -> bool {
    field_options_spec(f) is Some && !target_fails(ctx, f)
}

/// The output name of an annotated field.
pub open spec fn output_name(f: FieldDescriptor) -> Seq<char> {
    match field_options_spec(f) {
        Some(o) => property_name_spec(f, o),
        None => f.name@,
    }
}

/// The parameters of a kept field: the members of its selected override, else the
/// default rule.
pub open spec fn field_params(ctx: Context, f: FieldDescriptor) -> ParametersView {
    let o = field_options_spec(f)->0;
    match ctx.target {
        Some(l) => match selected_target(o.target, l@) {
            Some(i) => match json_object_members(o.target[i].1) {
                Some(Some(ms)) => ParametersView::Raw(ms),
                _ => default_params(f, o),
            },
            None => default_params(f, o),
        },
        None => default_params(f, o),
    }
}

pub open spec fn embedded_name(t: RuntimeFieldType) -> Seq<char> {
    match t {
        RuntimeFieldType::Singular(RuntimeType::Message(n)) => n@,
        RuntimeFieldType::Repeated(RuntimeType::Message(n)) => n@,
        _ => Seq::empty(),
    }
}

/// The message that field `f` is compiled into: its embedded message, when there is
/// `fuel` left, the message exists, and it is not among `ancestors`.
pub open spec fn sub_message(ctx: Context, f: FieldDescriptor, ancestors: Seq<(usize, usize)>, fuel: nat) -> Option<(usize, usize)> {
    if embedded_message(f.field_type) && fuel > 0 {
        match find_message_spec(ctx.files@, embedded_name(f.field_type)) {
            Some(x) => if ancestors.contains(x) {
                None
            } else {
                Some(x)
            },
            None => None,
        }
    } else {
        None
    }
}

pub open spec fn field_count(ctx: Context, fi: int, mi: int) -> int {
    ctx.files@[fi].messages@[mi].fields@.len() as int
}

/// The diagnostics that field `k` itself gives: an error for a selected override that is
/// not a JSON object, a warning for a target that none of its overrides carries.
pub open spec fn own_diags(ctx: Context, fi: int, mi: int, k: int, file: Seq<char>) -> Seq<DiagnosticView> {
    let f = field_at(ctx, fi, mi, k);
    let message = ctx.files@[fi].messages@[mi].name@;
    let span = field_span_spec(ctx.files@[fi], mi, k);
    match (field_options_spec(f), ctx.target) {
        (Some(o), Some(l)) => match selected_target(o.target, l@) {
            Some(i) => match json_object_members(o.target[i].1) {
                None => seq![diag_view(Severity::Error, 2, message, f.name@, l@, Seq::empty(), file, span)],
                Some(None) => seq![diag_view(Severity::Error, 3, message, f.name@, l@, Seq::empty(), file, span)],
                Some(Some(_)) => Seq::empty(),
            },
            None => if o.target.len() > 0 {
                seq![diag_view(Severity::Warning, 4, message, f.name@, l@, Seq::empty(), file, span)]
            } else {
                Seq::empty()
            },
        },
        _ => Seq::empty(),
    }
}

/// The diagnostics of compiling the first `upto` fields of message `mi` of file `fi`.
pub open spec fn compile_diags(
    ctx: Context,
    fi: int,
    mi: int,
    ancestors: Seq<(usize, usize)>,
    fuel: nat,
    file: Seq<char>,
    upto: int,
) -> Seq<DiagnosticView>
    decreases fuel, 1int, upto,
{
    if upto <= 0 {
        Seq::empty()
    } else {
        compile_diags(ctx, fi, mi, ancestors, fuel, file, upto - 1) + field_diags(
            ctx,
            fi,
            mi,
            upto - 1,
            ancestors,
            fuel,
            file,
        )
    }
}

/// The diagnostics of compiling field `k`: its own, then those of its embedded message.
pub open spec fn field_diags(
    ctx: Context,
    fi: int,
    mi: int,
    k: int,
    ancestors: Seq<(usize, usize)>,
    fuel: nat,
    file: Seq<char>,
) -> Seq<DiagnosticView>
    decreases fuel, 0int, 0int,
{
    let f = field_at(ctx, fi, mi, k);
    own_diags(ctx, fi, mi, k, file) + if kept(ctx, f) && fuel > 0 {
        match sub_message(ctx, f, ancestors, fuel) {
            Some((a, b)) => compile_diags(
                ctx,
                a as int,
                b as int,
                ancestors.push((a, b)),
                (fuel - 1) as nat,
                file,
                field_count(ctx, a as int, b as int),
            ),
            None => Seq::empty(),
        }
    } else {
        Seq::empty()
    }
}

/// The output names of the kept fields among the first `upto`, in order of name.
pub open spec fn kept_names(ctx: Context, fi: int, mi: int, upto: int) -> Seq<Seq<char>>
    decreases upto,
{
    if upto <= 0 {
        Seq::empty()
    } else {
        let p = kept_names(ctx, fi, mi, upto - 1);
        let f = field_at(ctx, fi, mi, upto - 1);
        if kept(ctx, f) && !p.contains(output_name(f)) {
            p.insert(sorted_pos(p, output_name(f)), output_name(f))
        } else {
            p
        }
    }
}

/// The last kept field among the first `upto` whose output name is `name`, or -1.
pub open spec fn last_kept(ctx: Context, fi: int, mi: int, name: Seq<char>, upto: int) -> int
    decreases upto,
{
    if upto <= 0 {
        -1
    } else {
        let f = field_at(ctx, fi, mi, upto - 1);
        if kept(ctx, f) && output_name(f) == name {
            upto - 1
        } else {
            last_kept(ctx, fi, mi, name, upto - 1)
        }
    }
}

/// Message `mi` of file `fi` compiles to some property.
pub open spec fn sub_nonempty(ctx: Context, fi: int, mi: int) -> bool {
    kept_names(ctx, fi, mi, field_count(ctx, fi, mi)).len() > 0
}

/// `p` is the property that kept field `f` compiles to: the field's parameters, as an
/// object holding the compiled mapping of its embedded message when that has a property,
/// else as a leaf.
pub open spec fn property_ok(ctx: Context, f: FieldDescriptor, ancestors: Seq<(usize, usize)>, fuel: nat, p: Property) -> bool
    decreases fuel, 0int, 0int,
{
    &&& p.params() == field_params(ctx, f)
    &&& match sub_message(ctx, f, ancestors, fuel) {
        Some((a, b)) => if sub_nonempty(ctx, a as int, b as int) && fuel > 0 {
            match p {
                Property::Object { properties, .. } => compiled(
                    ctx,
                    a as int,
                    b as int,
                    ancestors.push((a, b)),
                    (fuel - 1) as nat,
                    properties,
                ),
                Property::Leaf(_) => false,
            }
        } else {
            p is Leaf
        },
        None => p is Leaf,
    }
}

/// `m` holds, for the first `upto` fields, one property per kept output name, in order of
/// name, each the property of the last kept field of that name.
pub open spec fn prefix_ok(ctx: Context, fi: int, mi: int, ancestors: Seq<(usize, usize)>, fuel: nat, m: Mapping, upto: int) -> bool
    decreases fuel, 0int, 1int,
{
    &&& m.wf()
    &&& m.names() == kept_names(ctx, fi, mi, upto)
    &&& forall|n: int|
        0 <= n < m.properties@.len() ==> {
            let k = #[trigger] last_kept(ctx, fi, mi, m.properties@[n].0@, upto);
            0 <= k && property_ok(ctx, field_at(ctx, fi, mi, k), ancestors, fuel, m.properties@[n].1)
        }
}

/// `m` is the compiled mapping of message `mi` of file `fi`.
pub open spec fn compiled(ctx: Context, fi: int, mi: int, ancestors: Seq<(usize, usize)>, fuel: nat, m: Mapping) -> bool
    decreases fuel, 1int, 0int,
{
    &&& m.descriptor == Some((fi as usize, mi as usize))
    &&& match m.index {
        Some(ix) => index_options_spec(ctx.files@[fi].messages@[mi]) == Some(ix@),
        None => index_options_spec(ctx.files@[fi].messages@[mi]) is None,
    }
    &&& prefix_ok(ctx, fi, mi, ancestors, fuel, m, field_count(ctx, fi, mi))
}

/// Compiles field `k` of message `mi` of file `fi` to a named property, or to nothing.
///
/// A field gives a property when it is annotated and the active target does not select
/// an override whose JSON text fails to be an object; the property is named after the
/// field's output name, carries `field_params`, and is an object holding the compiled
/// mapping of the embedded message exactly when that message compiles to some property.
/// The diagnostics pushed are the field's own, then those of its embedded message.
/// `ancestors` lists the messages being compiled around this one; an embedded message
/// among them, or one reached with no `fuel` left, is not descended into.
pub fn compile_field(
    ctx: &Context,
    fi: usize,
    mi: usize,
    k: usize,
    file: &String,
    ancestors: &Vec<(usize, usize)>,
    fuel: usize,
    diagnostics: &mut Vec<Diagnostic>,
) -> (r: Option<(String, Property)>)
    requires
        valid_message(*ctx, fi as int, mi as int),
        k < ctx.files@[fi as int].messages@[mi as int].fields@.len(),
    ensures
        diags_view(final(diagnostics)@) == diags_view(old(diagnostics)@) + field_diags(
            *ctx,
            fi as int,
            mi as int,
            k as int,
            ancestors@,
            fuel as nat,
            file@,
        ),
        r is Some <==> kept(*ctx, field_at(*ctx, fi as int, mi as int, k as int)),
        match r {
            Some((n, p)) => n@ == output_name(field_at(*ctx, fi as int, mi as int, k as int))
                && property_ok(*ctx, field_at(*ctx, fi as int, mi as int, k as int), ancestors@, fuel as nat, p),
            None => true,
        },
    decreases fuel, 0nat,
{
    let ghost f = field_at(*ctx, fi as int, mi as int, k as int);
    let ghost start = diagnostics@;
    let field = &ctx.files[fi].messages[mi].fields[k];
    let options = match get_field_options(field) {
        Some(o) => o,
        None => {
            proof {
                assert(diags_view(diagnostics@) =~= diags_view(start) + field_diags(*ctx, fi as int, mi as int, k as int, ancestors@, fuel as nat, file@));
            }
            return None;
        },
    };
    let name = property_name(field, &options);
    let location = Location { file: file.clone(), span: Span::from_field(&ctx.files[fi], mi, k) };
    let message_name = &ctx.files[fi].messages[mi].name;
    let parameters = match ctx.target() {
        Some(label) => match find_target(&options.target, label) {
            Some(i) => {
                let parsed = parse_json_object(&options.target[i].json);
                match target_parameters(parsed, message_name, &field.name, label) {
                    Ok(p) => p,
                    Err(kind) => {
                        let d = Diagnostic::error(kind).at(location);
                        diagnostics.push(d);
                        proof {
                            assert(diags_view(diagnostics@) =~= diags_view(start).push(d@));
                            assert(diags_view(diagnostics@) =~= diags_view(start) + field_diags(*ctx, fi as int, mi as int, k as int, ancestors@, fuel as nat, file@));
                        }
                        return None;
                    },
                }
            },
            None => {
                if options.target.len() > 0 {
                    let kind = DiagnosticKind::UnknownTarget {
                        message: message_name.clone(),
                        field: field.name.clone(),
                        label: label.clone(),
                    };
                    let d = Diagnostic::warning(kind).at(location);
                    diagnostics.push(d);
                    proof {
                        assert(diags_view(diagnostics@) =~= diags_view(start).push(d@));
                    }
                }
                match default_property(field, &options) {
                    Property::Leaf(p) => p,
                    Property::Object { parameters, .. } => parameters,
                }
            },
        },
        None => match default_property(field, &options) {
            Property::Leaf(p) => p,
            Property::Object { parameters, .. } => parameters,
        },
    };
    let ghost own = diagnostics@;
    proof {
        assert(diags_view(own) =~= diags_view(start) + own_diags(*ctx, fi as int, mi as int, k as int, file@));
        assert(kept(*ctx, f));
        assert(parameters@ == field_params(*ctx, f));
    }
    let sub = match embedded_message_name(&field.field_type) {
        Some(full_name) => {
            if fuel == 0 {
                None
            } else {
                match ctx.find_message(full_name) {
                    Some((sfi, smi)) => {
                        if contains_pair(ancestors, (sfi, smi)) {
                            None
                        } else {
                            let chain = with_pair(ancestors, (sfi, smi));
                            let m = compile_message(ctx, sfi, smi, file, &chain, fuel - 1, diagnostics);
                            Some(m)
                        }
                    },
                    None => None,
                }
            }
        },
        None => None,
    };
    proof {
        assert(diags_view(diagnostics@) =~= diags_view(start) + field_diags(*ctx, fi as int, mi as int, k as int, ancestors@, fuel as nat, file@));
    }
    let property = match sub {
        Some(m) => {
            if m.properties.len() > 0 {
                Property::Object { parameters, properties: m }
            } else {
                Property::Leaf(parameters)
            }
        },
        None => Property::Leaf(parameters),
    };
    Some((name, property))
}

/// Compiles message `mi` of file `fi` to its mapping: its index options, and one
/// property per output name of its kept fields, in order of name, each that of the last
/// such field. The diagnostics pushed are those of each field in declaration order.
pub fn compile_message(
    ctx: &Context,
    fi: usize,
    mi: usize,
    file: &String,
    ancestors: &Vec<(usize, usize)>,
    fuel: usize,
    diagnostics: &mut Vec<Diagnostic>,
) -> (r: Mapping)
    requires
        valid_message(*ctx, fi as int, mi as int),
    ensures
        compiled(*ctx, fi as int, mi as int, ancestors@, fuel as nat, r),
        diags_view(final(diagnostics)@) == diags_view(old(diagnostics)@) + compile_diags(
            *ctx,
            fi as int,
            mi as int,
            ancestors@,
            fuel as nat,
            file@,
            field_count(*ctx, fi as int, mi as int),
        ),
    decreases fuel, 1nat,
{
    let message = &ctx.files[fi].messages[mi];
    let mut mapping = Mapping::with_descriptor(fi, mi);
    mapping.index = get_index_options(message);
    let ghost start = diagnostics@;
    let mut k: usize = 0;
    proof {
        assert(mapping.names() =~= kept_names(*ctx, fi as int, mi as int, 0));
        assert(diags_view(diagnostics@) =~= diags_view(start) + compile_diags(*ctx, fi as int, mi as int, ancestors@, fuel as nat, file@, 0));
    }
    while k < message.fields.len()
        invariant
            valid_message(*ctx, fi as int, mi as int),
            *message == ctx.files@[fi as int].messages@[mi as int],
            k <= message.fields@.len(),
            mapping.descriptor == Some((fi, mi)),
            match mapping.index {
                Some(ix) => index_options_spec(*message) == Some(ix@),
                None => index_options_spec(*message) is None,
            },
            prefix_ok(*ctx, fi as int, mi as int, ancestors@, fuel as nat, mapping, k as int),
            diags_view(diagnostics@) == diags_view(start) + compile_diags(
                *ctx,
                fi as int,
                mi as int,
                ancestors@,
                fuel as nat,
                file@,
                k as int,
            ),
        decreases message.fields.len() - k,
    {
        let ghost before = mapping;
        let ghost bd = diagnostics@;
        let compiled_field = compile_field(ctx, fi, mi, k, file, ancestors, fuel, diagnostics);
        let ghost fk = field_at(*ctx, fi as int, mi as int, k as int);
        proof {
            assert(diags_view(diagnostics@) =~= diags_view(start) + compile_diags(*ctx, fi as int, mi as int, ancestors@, fuel as nat, file@, k + 1));
        }
        match compiled_field {
            Some((name, property)) => {
                let ghost nm = name@;
                let ghost entry = (name, property);
                mapping.insert(name, property);
                proof {
                    lemma_names_contains(before, nm);
                    if before.has_name(nm) {
                        let i = before.name_index(nm)->0;
                        assert(mapping.names() =~= before.names());
                        assert forall|n: int| 0 <= n < mapping.properties@.len() implies {
                            let j = #[trigger] last_kept(*ctx, fi as int, mi as int, mapping.properties@[n].0@, k + 1);
                            0 <= j && property_ok(*ctx, field_at(*ctx, fi as int, mi as int, j), ancestors@, fuel as nat, mapping.properties@[n].1)
                        } by {
                            if n != i {
                                assert(mapping.properties@[n] == before.properties@[n]);
                                lemma_str_lt_irreflexive(before.properties@[n].0@);
                                if n < i {
                                    assert(str_lt(before.properties@[n].0@, before.properties@[i].0@));
                                } else {
                                    assert(str_lt(before.properties@[i].0@, before.properties@[n].0@));
                                }
                                assert(before.properties@[n].0@ != before.properties@[i].0@);
                                assert(last_kept(*ctx, fi as int, mi as int, before.properties@[n].0@, k as int) >= 0);
                            }
                        }
                    } else {
                        let pos = sorted_pos(before.names(), nm);
                        assert(0 <= pos <= before.properties@.len());
                        assert(mapping.names() =~= before.names().insert(pos, nm));
                        assert forall|n: int| 0 <= n < mapping.properties@.len() implies {
                            let j = #[trigger] last_kept(*ctx, fi as int, mi as int, mapping.properties@[n].0@, k + 1);
                            0 <= j && property_ok(*ctx, field_at(*ctx, fi as int, mi as int, j), ancestors@, fuel as nat, mapping.properties@[n].1)
                        } by {
                            if n != pos {
                                let o = if n < pos { n } else { n - 1 };
                                assert(mapping.properties@[n] == before.properties@[o]);
                                assert(before.has_name(before.properties@[o].0@));
                                assert(before.properties@[o].0@ != nm);
                                assert(last_kept(*ctx, fi as int, mi as int, before.properties@[o].0@, k as int) >= 0);
                            }
                        }
                    }
                }
            },
            None => {
                proof {
                    assert(!kept(*ctx, fk));
                    assert(kept_names(*ctx, fi as int, mi as int, k + 1) == kept_names(*ctx, fi as int, mi as int, k as int));
                    assert forall|n: int| 0 <= n < mapping.properties@.len() implies {
                        let j = #[trigger] last_kept(*ctx, fi as int, mi as int, mapping.properties@[n].0@, k + 1);
                        0 <= j && property_ok(*ctx, field_at(*ctx, fi as int, mi as int, j), ancestors@, fuel as nat, mapping.properties@[n].1)
                    } by {
                        assert(last_kept(*ctx, fi as int, mi as int, mapping.properties@[n].0@, k as int) >= 0);
                    }
                }
            },
        }
        k = k + 1;
    }
    mapping
}

/// A mapping has a property named `name` exactly when `name` is among its names.
proof fn lemma_names_contains(m: Mapping, name: Seq<char>)
    ensures
        m.has_name(name) <==> m.names().contains(name),
{
    if m.has_name(name) {
        let k = choose|k: int| 0 <= k < m.properties@.len() && #[trigger] m.properties@[k].0@ == name;
        assert(m.names()[k] == name);
    }
    if m.names().contains(name) {
        let k = choose|k: int| 0 <= k < m.names().len() && m.names()[k] == name;
        assert(m.properties@[k].0@ == name);
    }
}

/// `a` and `b` agree as mappings down to `fuel` levels of nesting: the same source
/// message, index options and names, and properties that agree pairwise.
pub open spec fn same_mapping(a: Mapping, b: Mapping, fuel: nat) -> bool
    decreases fuel, 1int,
{
    &&& a.descriptor == b.descriptor
    &&& match (a.index, b.index) {
        (Some(x), Some(y)) => x@ == y@,
        (None, None) => true,
        _ => false,
    }
    &&& a.names() == b.names()
    &&& forall|n: int| 0 <= n < a.properties@.len() ==> same_property(#[trigger] a.properties@[n].1, b.properties@[n].1, fuel)
}

/// `p` and `q` have the same parameters and are both leaves, or both objects whose
/// mappings agree.
pub open spec fn same_property(p: Property, q: Property, fuel: nat) -> bool
    decreases fuel, 0int,
{
    &&& p.params() == q.params()
    &&& match (p, q) {
        (Property::Object { properties: a, .. }, Property::Object { properties: b, .. }) => fuel > 0 && same_mapping(
            a,
            b,
            (fuel - 1) as nat,
        ),
        (Property::Leaf(_), Property::Leaf(_)) => true,
        _ => false,
    }
}

/// The compiled mapping of a message is unique up to `same_mapping`.
pub proof fn lemma_compiled_unique(ctx: Context, fi: int, mi: int, ancestors: Seq<(usize, usize)>, fuel: nat, m1: Mapping, m2: Mapping)
    requires
        compiled(ctx, fi, mi, ancestors, fuel, m1),
        compiled(ctx, fi, mi, ancestors, fuel, m2),
    ensures
        same_mapping(m1, m2, fuel),
    decreases fuel,
{
    let upto = field_count(ctx, fi, mi);
    assert(m1.names() == m2.names());
    assert(m1.properties@.len() == m1.names().len());
    assert(m2.properties@.len() == m2.names().len());
    assert forall|n: int| 0 <= n < m1.properties@.len() implies same_property(#[trigger] m1.properties@[n].1, m2.properties@[n].1, fuel) by {
        assert(m1.names()[n] == m2.names()[n]);
        assert(m1.properties@[n].0@ == m2.properties@[n].0@);
        let k = last_kept(ctx, fi, mi, m1.properties@[n].0@, upto);
        assert(k == last_kept(ctx, fi, mi, m2.properties@[n].0@, upto));
        let f = field_at(ctx, fi, mi, k);
        let p = m1.properties@[n].1;
        let q = m2.properties@[n].1;
        assert(property_ok(ctx, f, ancestors, fuel, p));
        assert(property_ok(ctx, f, ancestors, fuel, q));
        match sub_message(ctx, f, ancestors, fuel) {
            Some((a, b)) => {
                if sub_nonempty(ctx, a as int, b as int) && fuel > 0 {
                    match (p, q) {
                        (Property::Object { properties: x, .. }, Property::Object { properties: y, .. }) => {
                            lemma_compiled_unique(ctx, a as int, b as int, ancestors.push((a, b)), (fuel - 1) as nat, x, y);
                        },
                        _ => {},
                    }
                }
            },
            None => {},
        }
    }
}

} // verus!
