//! The validator: a fixed battery of independent checks over each compiled property,
//! descending into object properties with the context of their own message.
use vstd::prelude::*;

use crate::compile::valid_message;
use crate::context::Context;
use crate::diagnostic::{diag_view, diags_view, Diagnostic, DiagnosticKind, DiagnosticView, Location, Severity};
use crate::mapping::{Mapping, ParametersView, Property};
use crate::compile::same_property;
use crate::options::{field_options_spec, get_field_options, property_name, property_name_spec};
use crate::span::{field_span_spec, Span};

verus! {

pub open spec fn is_name_char(c: char) -> bool {
    ('a' <= c && c <= 'z') || ('0' <= c && c <= '9') || c == '_'
}

/// Whether `s` matches `^[@a-z][a-z0-9_]*(\.[a-z0-9_]+)*$`: a lowercase letter or `@`,
/// then name characters, where each dot is followed by a name character.
pub open spec fn valid_field_name(s: Seq<char>) -> bool {
    &&& s.len() > 0
    &&& (s[0] == '@' || ('a' <= s[0] && s[0] <= 'z'))
    &&& forall|i: int|
        1 <= i < s.len() ==> is_name_char(#[trigger] s[i]) || (s[i] == '.' && i + 1 < s.len() && is_name_char(s[i + 1]))
}

pub open spec fn field_name_pattern() -> Seq<char> {
    "^[@a-z][a-z0-9_]*(\\.[a-z0-9_]+)*$"@
}

/// Relies on `regex::Regex::new`, which accepts the field-name pattern, and on
/// `Regex::is_match`, which tells whether `text` matches it.
#[verifier::external_body]
fn regex_is_match(pattern: &str, text: &str) -> (r: bool)
    requires
        pattern@ == field_name_pattern(),
    ensures
        r == valid_field_name(text@),
{
    regex::Regex::new(pattern).map(|re| re.is_match(text)).unwrap_or(false)
}

/// Whether `name` is a valid property name.
pub fn is_valid_field_name(name: &str) -> (r: bool)
    ensures
        r == valid_field_name(name@),
{
    regex_is_match("^[@a-z][a-z0-9_]*(\\.[a-z0-9_]+)*$", name)
}

/// The schema field name of output name `n`: that of the last annotated field named
/// `n`, else `n` itself.
pub open spec fn proto_name_spec(names: Seq<(Seq<char>, Seq<char>)>, n: Seq<char>) -> Seq<char>
    decreases names.len(),
{
    if names.len() == 0 {
        n
    } else if names.last().0 == n {
        names.last().1
    } else {
        proto_name_spec(names.drop_last(), n)
    }
}

/// `(output name, field name)` of each annotated field of `fields`, in order.
pub open spec fn proto_names_of(ctx: Context, fi: int, mi: int, upto: int) -> Seq<(Seq<char>, Seq<char>)>
    decreases upto,
{
    if upto <= 0 {
        Seq::empty()
    } else {
        let f = ctx.files@[fi].messages@[mi].fields@[upto - 1];
        let rest = proto_names_of(ctx, fi, mi, upto - 1);
        match field_options_spec(f) {
            Some(o) => rest.push((property_name_spec(f, o), f.name@)),
            None => rest,
        }
    }
}

/// The index of the first field of message `mi` named `name`.
pub open spec fn field_named(ctx: Context, fi: int, mi: int, name: Seq<char>) -> Option<int> {
    let fs = ctx.files@[fi].messages@[mi].fields@;
    if exists|i: int| #![trigger fs[i]] 0 <= i < fs.len() && fs[i].name@ == name && forall|k: int| 0 <= k < i ==> fs[k].name@ != name {
        Some(choose|i: int| #![trigger fs[i]] 0 <= i < fs.len() && fs[i].name@ == name && forall|k: int| 0 <= k < i ==> fs[k].name@ != name)
    } else {
        None
    }
}

/// Where validation stands: the requested file, one message, and the reverse index from
/// output names to field names of that message.
pub struct ValidationContext {
    pub file: String,
    pub fi: usize,
    pub mi: usize,
    pub proto_names: Vec<(String, String)>,
}

impl ValidationContext {
    pub open spec fn names(&self) -> Seq<(Seq<char>, Seq<char>)> {
        self.proto_names@.map_values(|e: (String, String)| (e.0@, e.1@))
    }

    pub open spec fn wf(&self, ctx: Context) -> bool {
        &&& valid_message(ctx, self.fi as int, self.mi as int)
        &&& self.names() == proto_names_of(
            ctx,
            self.fi as int,
            self.mi as int,
            ctx.files@[self.fi as int].messages@[self.mi as int].fields@.len() as int,
        )
    }

    /// The span of the first field named `proto_name`.
    pub open spec fn field_span_of(&self, ctx: Context, proto_name: Seq<char>) -> Option<Span> {
        match field_named(ctx, self.fi as int, self.mi as int, proto_name) {
            Some(k) => field_span_spec(ctx.files@[self.fi as int], self.mi as int, k),
            None => None,
        }
    }

    /// The context of message `mi` of file `fi`, reporting locations in `file`.
    pub fn new(ctx: &Context, file: &String, fi: usize, mi: usize) -> (r: Self)
        requires
            valid_message(*ctx, fi as int, mi as int),
        ensures
            r.wf(*ctx),
            r.file@ == file@,
            r.fi == fi,
            r.mi == mi,
    {
        let fields = &ctx.files[fi].messages[mi].fields;
        let mut proto_names: Vec<(String, String)> = Vec::new();
        let mut k: usize = 0;
        proof {
            assert(proto_names@.map_values(|e: (String, String)| (e.0@, e.1@)) =~= proto_names_of(*ctx, fi as int, mi as int, 0));
        }
        while k < fields.len()
            invariant
                valid_message(*ctx, fi as int, mi as int),
                *fields == ctx.files@[fi as int].messages@[mi as int].fields,
                k <= fields@.len(),
                proto_names@.map_values(|e: (String, String)| (e.0@, e.1@)) == proto_names_of(*ctx, fi as int, mi as int, k as int),
            decreases fields.len() - k,
        {
            match get_field_options(&fields[k]) {
                Some(opts) => {
                    let ghost before = proto_names@;
                    let output = property_name(&fields[k], &opts);
                    proto_names.push((output, fields[k].name.clone()));
                    proof {
                        assert(proto_names@.map_values(|e: (String, String)| (e.0@, e.1@)) =~= before.map_values(
                            |e: (String, String)| (e.0@, e.1@),
                        ).push((proto_names@.last().0@, proto_names@.last().1@)));
                    }
                },
                None => {},
            }
            k = k + 1;
        }
        ValidationContext { file: file.clone(), fi, mi, proto_names }
    }

    /// The schema field name behind output name `mapping_name`; the name itself when no
    /// annotated field has it.
    pub fn proto_name(&self, mapping_name: &String) -> (r: String)
        ensures
            r@ == proto_name_spec(self.names(), mapping_name@),
    {
        let mut i: usize = self.proto_names.len();
        proof {
            assert(self.names().take(i as int) =~= self.names());
        }
        while i > 0
            invariant
                i <= self.proto_names@.len(),
                proto_name_spec(self.names(), mapping_name@) == proto_name_spec(self.names().take(i as int), mapping_name@),
            decreases i,
        {
            proof {
                assert(self.names().take(i as int).drop_last() =~= self.names().take(i - 1));
            }
            if self.proto_names[i - 1].0 == *mapping_name {
                return self.proto_names[i - 1].1.clone();
            }
            i = i - 1;
        }
        mapping_name.clone()
    }

    /// The span of the first field of this context's message named `proto_name`.
    pub fn field_span(&self, ctx: &Context, proto_name: &String) -> (r: Option<Span>)
        requires
            self.wf(*ctx),
        ensures
            r == self.field_span_of(*ctx, proto_name@),
    {
        let fields = &ctx.files[self.fi].messages[self.mi].fields;
        let ghost fs = fields@;
        let mut i: usize = 0;
        while i < fields.len()
            invariant
                self.wf(*ctx),
                *fields == ctx.files@[self.fi as int].messages@[self.mi as int].fields,
                fs == fields@,
                i <= fields@.len(),
                forall|k: int| 0 <= k < i ==> fs[k].name@ != proto_name@,
            decreases fields.len() - i,
        {
            if fields[i].name == *proto_name {
                proof {
                    let j = choose|j: int| #![trigger fs[j]] 0 <= j < fs.len() && fs[j].name@ == proto_name@ && forall|k: int| 0 <= k < j ==> fs[k].name@ != proto_name@;
                    if j < i {
                        assert(fs[j].name@ != proto_name@);
                    }
                    if i < j {
                        assert(fs[i as int].name@ != proto_name@);
                    }
                }
                return Span::from_field(&ctx.files[self.fi], self.mi, i);
            }
            i = i + 1;
        }
        None
    }

    /// The location of the first field named `proto_name`, in this context's file.
    pub fn location(&self, ctx: &Context, proto_name: &String) -> (r: Location)
        requires
            self.wf(*ctx),
        ensures
            r.file@ == self.file@,
            r.span == self.field_span_of(*ctx, proto_name@),
    {
        Location { file: self.file.clone(), span: self.field_span(ctx, proto_name) }
    }
}

/// The span of the first field named `proto_name` of message `mi` of file `fi`.
pub open spec fn span_for(ctx: Context, fi: int, mi: int, proto_name: Seq<char>) -> Option<Span> {
    match field_named(ctx, fi, mi, proto_name) {
        Some(k) => field_span_spec(ctx.files@[fi], mi, k),
        None => None,
    }
}

/// The schema field name behind output name `name` in message `mi` of file `fi`.
pub open spec fn schema_field(ctx: Context, fi: int, mi: int, name: Seq<char>) -> Seq<char> {
    proto_name_spec(proto_names_of(ctx, fi, mi, ctx.files@[fi].messages@[mi].fields@.len() as int), name)
}

/// What the name check reports for property `name`.
pub open spec fn name_check(ctx: Context, file: Seq<char>, fi: int, mi: int, name: Seq<char>) -> Seq<DiagnosticView> {
    let field = schema_field(ctx, fi, mi, name);
    if valid_field_name(name) {
        Seq::empty()
    } else {
        seq![diag_view(
            Severity::Warning,
            1,
            ctx.files@[fi].messages@[mi].full_name@,
            field,
            name,
            Seq::empty(),
            file,
            span_for(ctx, fi, mi, field),
        )]
    }
}

/// What a parameter check reports for property `name` when its value is `bad`.
pub open spec fn param_check(
    ctx: Context,
    file: Seq<char>,
    fi: int,
    mi: int,
    name: Seq<char>,
    bad: bool,
    parameter: Seq<char>,
    reason: Seq<char>,
) -> Seq<DiagnosticView> {
    let field = schema_field(ctx, fi, mi, name);
    if bad {
        seq![diag_view(
            Severity::Error,
            100,
            ctx.files@[fi].messages@[mi].full_name@,
            field,
            parameter,
            reason,
            file,
            span_for(ctx, fi, mi, field),
        )]
    } else {
        Seq::empty()
    }
}

/// What every check reports for property `name`, in check order.
pub open spec fn checks_of(ctx: Context, file: Seq<char>, fi: int, mi: int, name: Seq<char>, p: Property) -> Seq<DiagnosticView> {
    name_check(ctx, file, fi, mi, name)
        + param_check(ctx, file, fi, mi, name, ignore_above_invalid(p), "ignore_above"@, "must be greater than 0"@)
        + param_check(ctx, file, fi, mi, name, position_increment_gap_invalid(p), "position_increment_gap"@, "must be greater than or equal to 0"@)
        + param_check(ctx, file, fi, mi, name, min_chars_invalid(p), "index_prefixes.min_chars"@, "must be greater than or equal to 0"@)
        + param_check(ctx, file, fi, mi, name, max_chars_invalid(p), "index_prefixes.max_chars"@, "must be less than or equal to 20"@)
}

/// The message whose context checks the properties of `m`: the one it was compiled from
/// when that is a message of `ctx`, else `(fi, mi)`.
pub open spec fn nested_context(ctx: Context, fi: int, mi: int, m: Mapping) -> (int, int) {
    match m.descriptor {
        Some((a, b)) => if a < ctx.files@.len() && b < ctx.files@[a as int].messages@.len() {
            (a as int, b as int)
        } else {
            (fi, mi)
        },
        None => (fi, mi),
    }
}

/// What validating property `name` reports: its checks, then, for an object, those of
/// its properties in the context of their own message.
pub open spec fn walk_diags(ctx: Context, file: Seq<char>, fi: int, mi: int, name: Seq<char>, p: Property) -> Seq<DiagnosticView>
    decreases p, 0int,
{
    checks_of(ctx, file, fi, mi, name, p) + match p {
        Property::Object { properties, .. } => {
            let (a, b) = nested_context(ctx, fi, mi, properties);
            entries_diags(ctx, file, a, b, properties.properties@, properties.properties@.len() as int)
        },
        Property::Leaf(_) => Seq::empty(),
    }
}

/// What validating the first `upto` properties of `es` reports, in order.
pub open spec fn entries_diags(ctx: Context, file: Seq<char>, fi: int, mi: int, es: Seq<(String, Property)>, upto: int) -> Seq<DiagnosticView>
    decreases es, upto,
{
    if upto <= 0 || upto > es.len() {
        Seq::empty()
    } else {
        entries_diags(ctx, file, fi, mi, es, upto - 1) + walk_diags(ctx, file, fi, mi, es[upto - 1].0@, es[upto - 1].1)
    }
}

/// `d` reports invalid output name `name` of `field` in `message`, located at `loc`.
pub open spec fn name_diag(d: Diagnostic, message: Seq<char>, field: Seq<char>, name: Seq<char>, loc_file: Seq<char>, span: Option<Span>) -> bool {
    &&& d.severity == Severity::Warning
    &&& d.kind matches DiagnosticKind::InvalidFieldName { message: m, field: f, name: n } && m@ == message && f@ == field && n@ == name
    &&& d.location matches Some(loc) && loc.file@ == loc_file && loc.span == span
}

/// `d` reports an out-of-range `parameter` of `field` in `message`, for `reason`,
/// located at `loc`.
pub open spec fn param_diag(
    d: Diagnostic,
    message: Seq<char>,
    field: Seq<char>,
    parameter: Seq<char>,
    reason: Seq<char>,
    loc_file: Seq<char>,
    span: Option<Span>,
) -> bool {
    &&& d.severity == Severity::Error
    &&& d.kind matches DiagnosticKind::InvalidParameterValue { message: m, field: f, parameter: p, reason: r }
        && m@ == message && f@ == field && p@ == parameter && r@ == reason
    &&& d.location matches Some(loc) && loc.file@ == loc_file && loc.span == span
}

/// What a validation diagnostic can be: an invalid name, or an error on a parameter.
pub open spec fn justified(d: Diagnostic) -> bool {
    match d.kind {
        DiagnosticKind::InvalidFieldName { name, .. } => !valid_field_name(name@) && d.severity == Severity::Warning,
        DiagnosticKind::InvalidParameterValue { .. } => d.severity == Severity::Error,
        _ => false,
    }
}

pub open spec fn ignore_above_invalid(p: Property) -> bool {
    p.params() matches ParametersView::Typed { mapping, .. } && mapping.ignore_above matches Some(v) && v <= 0
}

pub open spec fn position_increment_gap_invalid(p: Property) -> bool {
    p.params() matches ParametersView::Typed { mapping, .. } && mapping.position_increment_gap matches Some(v) && v < 0
}

pub open spec fn min_chars_invalid(p: Property) -> bool {
    p.params() matches ParametersView::Typed { mapping, .. } && mapping.index_prefixes matches Some(ip)
        && ip.min_chars matches Some(v) && v < 0
}

pub open spec fn max_chars_invalid(p: Property) -> bool {
    p.params() matches ParametersView::Typed { mapping, .. } && mapping.index_prefixes matches Some(ip)
        && ip.max_chars matches Some(v) && (v < 0 || v > 20)
}

pub open spec fn appended(before: Seq<Diagnostic>, after: Seq<Diagnostic>) -> bool {
    &&& after.len() >= before.len()
    &&& after.take(before.len() as int) == before
    &&& forall|i: int| before.len() <= i < after.len() ==> justified(#[trigger] after[i])
}

/// Checks the output name of a property.
pub fn check_name(ctx: &Context, vctx: &ValidationContext, name: &String, diagnostics: &mut Vec<Diagnostic>)
    requires
        vctx.wf(*ctx),
    ensures
        appended(old(diagnostics)@, final(diagnostics)@),
        diags_view(final(diagnostics)@) == diags_view(old(diagnostics)@) + name_check(
            *ctx,
            vctx.file@,
            vctx.fi as int,
            vctx.mi as int,
            name@,
        ),
        valid_field_name(name@) ==> final(diagnostics)@ == old(diagnostics)@,
        !valid_field_name(name@) ==> final(diagnostics)@.len() == old(diagnostics)@.len() + 1 && name_diag(
            final(diagnostics)@.last(),
            ctx.files@[vctx.fi as int].messages@[vctx.mi as int].full_name@,
            proto_name_spec(vctx.names(), name@),
            name@,
            vctx.file@,
            vctx.field_span_of(*ctx, proto_name_spec(vctx.names(), name@)),
        ),
{
    proof {
        assert(old(diagnostics)@.take(old(diagnostics)@.len() as int) =~= old(diagnostics)@);
    }
    if !is_valid_field_name(name.as_str()) {
        let proto_name = vctx.proto_name(name);
        let location = vctx.location(ctx, &proto_name);
        let kind = DiagnosticKind::InvalidFieldName {
            message: ctx.files[vctx.fi].messages[vctx.mi].full_name.clone(),
            field: proto_name,
            name: name.clone(),
        };
        diagnostics.push(Diagnostic::warning(kind).at(location));
        proof {
            assert(final(diagnostics)@.take(old(diagnostics)@.len() as int) =~= old(diagnostics)@);
        }
    }
    proof {
        assert(diags_view(diagnostics@) =~= diags_view(old(diagnostics)@) + name_check(*ctx, vctx.file@, vctx.fi as int, vctx.mi as int, name@));
    }
}

fn push_param_error(
    ctx: &Context,
    vctx: &ValidationContext,
    name: &String,
    parameter: &str,
    reason: &str,
    diagnostics: &mut Vec<Diagnostic>,
)
    requires
        vctx.wf(*ctx),
    ensures
        appended(old(diagnostics)@, final(diagnostics)@),
        diags_view(final(diagnostics)@) == diags_view(old(diagnostics)@) + param_check(
            *ctx,
            vctx.file@,
            vctx.fi as int,
            vctx.mi as int,
            name@,
            true,
            parameter@,
            reason@,
        ),
        final(diagnostics)@.len() == old(diagnostics)@.len() + 1,
        param_diag(
            final(diagnostics)@.last(),
            ctx.files@[vctx.fi as int].messages@[vctx.mi as int].full_name@,
            proto_name_spec(vctx.names(), name@),
            parameter@,
            reason@,
            vctx.file@,
            vctx.field_span_of(*ctx, proto_name_spec(vctx.names(), name@)),
        ),
{
    let proto_name = vctx.proto_name(name);
    let location = vctx.location(ctx, &proto_name);
    let kind = DiagnosticKind::InvalidParameterValue {
        message: ctx.files[vctx.fi].messages[vctx.mi].full_name.clone(),
        field: proto_name,
        parameter: String::from_str(parameter),
        reason: String::from_str(reason),
    };
    diagnostics.push(Diagnostic::error(kind).at(location));
    proof {
        assert(final(diagnostics)@.take(old(diagnostics)@.len() as int) =~= old(diagnostics)@);
        assert(diags_view(diagnostics@) =~= diags_view(old(diagnostics)@) + param_check(
            *ctx, vctx.file@, vctx.fi as int, vctx.mi as int, name@, true, parameter@, reason@));
    }
}

/// Checks that `ignore_above`, when set, is greater than 0.
pub fn check_ignore_above(
    ctx: &Context,
    vctx: &ValidationContext,
    name: &String,
    property: &Property,
    diagnostics: &mut Vec<Diagnostic>,
)
    requires
        vctx.wf(*ctx),
    ensures
        diags_view(final(diagnostics)@) == diags_view(old(diagnostics)@) + param_check(
            *ctx,
            vctx.file@,
            vctx.fi as int,
            vctx.mi as int,
            name@,
            ignore_above_invalid(*property),
            "ignore_above"@,
            "must be greater than 0"@,
        ),
        appended(old(diagnostics)@, final(diagnostics)@),
        !ignore_above_invalid(*property) ==> final(diagnostics)@ == old(diagnostics)@,
        ignore_above_invalid(*property) ==> final(diagnostics)@.len() == old(diagnostics)@.len() + 1 && param_diag(
            final(diagnostics)@.last(),
            ctx.files@[vctx.fi as int].messages@[vctx.mi as int].full_name@,
            proto_name_spec(vctx.names(), name@),
            "ignore_above"@,
            "must be greater than 0"@,
            vctx.file@,
            vctx.field_span_of(*ctx, proto_name_spec(vctx.names(), name@)),
        ),
{
    proof {
        assert(old(diagnostics)@.take(old(diagnostics)@.len() as int) =~= old(diagnostics)@);
    }
    if let Some(m) = property.field_mapping() {
        if let Some(v) = m.ignore_above {
            if v <= 0 {
                push_param_error(ctx, vctx, name, "ignore_above", "must be greater than 0", diagnostics);
            }
        }
    }
}

/// Checks that `position_increment_gap`, when set, is at least 0.
pub fn check_position_increment_gap(
    ctx: &Context,
    vctx: &ValidationContext,
    name: &String,
    property: &Property,
    diagnostics: &mut Vec<Diagnostic>,
)
    requires
        vctx.wf(*ctx),
    ensures
        diags_view(final(diagnostics)@) == diags_view(old(diagnostics)@) + param_check(
            *ctx,
            vctx.file@,
            vctx.fi as int,
            vctx.mi as int,
            name@,
            position_increment_gap_invalid(*property),
            "position_increment_gap"@,
            "must be greater than or equal to 0"@,
        ),
        appended(old(diagnostics)@, final(diagnostics)@),
        !position_increment_gap_invalid(*property) ==> final(diagnostics)@ == old(diagnostics)@,
        position_increment_gap_invalid(*property) ==> final(diagnostics)@.len() == old(diagnostics)@.len() + 1
            && param_diag(
            final(diagnostics)@.last(),
            ctx.files@[vctx.fi as int].messages@[vctx.mi as int].full_name@,
            proto_name_spec(vctx.names(), name@),
            "position_increment_gap"@,
            "must be greater than or equal to 0"@,
            vctx.file@,
            vctx.field_span_of(*ctx, proto_name_spec(vctx.names(), name@)),
        ),
{
    proof {
        assert(old(diagnostics)@.take(old(diagnostics)@.len() as int) =~= old(diagnostics)@);
    }
    if let Some(m) = property.field_mapping() {
        if let Some(v) = m.position_increment_gap {
            if v < 0 {
                push_param_error(
                    ctx,
                    vctx,
                    name,
                    "position_increment_gap",
                    "must be greater than or equal to 0",
                    diagnostics,
                );
            }
        }
    }
}

/// Checks that `index_prefixes.min_chars`, when set, is at least 0, and that
/// `index_prefixes.max_chars`, when set, lies in `0..=20`.
pub fn check_index_prefixes(
    ctx: &Context,
    vctx: &ValidationContext,
    name: &String,
    property: &Property,
    diagnostics: &mut Vec<Diagnostic>,
)
    requires
        vctx.wf(*ctx),
    ensures
        diags_view(final(diagnostics)@) == diags_view(old(diagnostics)@) + param_check(
            *ctx,
            vctx.file@,
            vctx.fi as int,
            vctx.mi as int,
            name@,
            min_chars_invalid(*property),
            "index_prefixes.min_chars"@,
            "must be greater than or equal to 0"@,
        ) + param_check(
            *ctx,
            vctx.file@,
            vctx.fi as int,
            vctx.mi as int,
            name@,
            max_chars_invalid(*property),
            "index_prefixes.max_chars"@,
            "must be less than or equal to 20"@,
        ),
        appended(old(diagnostics)@, final(diagnostics)@),
        final(diagnostics)@.len() == old(diagnostics)@.len() + (if min_chars_invalid(*property) { 1int } else { 0 })
            + (if max_chars_invalid(*property) { 1int } else { 0 }),
        min_chars_invalid(*property) ==> param_diag(
            final(diagnostics)@[old(diagnostics)@.len() as int],
            ctx.files@[vctx.fi as int].messages@[vctx.mi as int].full_name@,
            proto_name_spec(vctx.names(), name@),
            "index_prefixes.min_chars"@,
            "must be greater than or equal to 0"@,
            vctx.file@,
            vctx.field_span_of(*ctx, proto_name_spec(vctx.names(), name@)),
        ),
        max_chars_invalid(*property) ==> param_diag(
            final(diagnostics)@.last(),
            ctx.files@[vctx.fi as int].messages@[vctx.mi as int].full_name@,
            proto_name_spec(vctx.names(), name@),
            "index_prefixes.max_chars"@,
            "must be less than or equal to 20"@,
            vctx.file@,
            vctx.field_span_of(*ctx, proto_name_spec(vctx.names(), name@)),
        ),
{
    proof {
        assert(old(diagnostics)@.take(old(diagnostics)@.len() as int) =~= old(diagnostics)@);
    }
    if let Some(m) = property.field_mapping() {
        if let Some(prefixes) = m.index_prefixes {
            let ghost start = diagnostics@;
            if let Some(v) = prefixes.min_chars {
                if v < 0 {
                    push_param_error(
                        ctx,
                        vctx,
                        name,
                        "index_prefixes.min_chars",
                        "must be greater than or equal to 0",
                        diagnostics,
                    );
                }
            }
            let ghost mid = diagnostics@;
            if let Some(v) = prefixes.max_chars {
                if v < 0 || v > 20 {
                    push_param_error(
                        ctx,
                        vctx,
                        name,
                        "index_prefixes.max_chars",
                        "must be less than or equal to 20",
                        diagnostics,
                    );
                }
            }
            proof {
                assert(diagnostics@.take(mid.len() as int) == mid);
                assert(mid.take(start.len() as int) == start);
                assert(diagnostics@.take(start.len() as int) =~= start);
                if mid.len() > start.len() {
                    assert(diagnostics@[start.len() as int] == mid[start.len() as int]);
                }
            }
        }
    }
}

pub open spec fn is_name_report(d: Diagnostic, message: Seq<char>, name: Seq<char>) -> bool {
    d.kind matches DiagnosticKind::InvalidFieldName { message: m, name: n, .. } && m@ == message && n@ == name
}

pub open spec fn is_param_report(d: Diagnostic, message: Seq<char>, field: Seq<char>, parameter: Seq<char>) -> bool {
    &&& d.severity == Severity::Error
    &&& d.kind matches DiagnosticKind::InvalidParameterValue { message: m, field: f, parameter: p, .. } && m@ == message
        && f@ == field && p@ == parameter
}

/// Some diagnostic of `ds` from index `from` on reports invalid output name `name` in `message`.
pub open spec fn reported_name(ds: Seq<Diagnostic>, from: int, message: Seq<char>, name: Seq<char>) -> bool {
    exists|i: int|
        from <= i < ds.len() && is_name_report(#[trigger] ds[i], message, name)
}

/// Some diagnostic of `ds` from index `from` on reports `parameter` of `field` in `message`
/// as an error.
pub open spec fn reported_param(ds: Seq<Diagnostic>, from: int, message: Seq<char>, field: Seq<char>, parameter: Seq<char>) -> bool {
    exists|i: int|
        from <= i < ds.len() && is_param_report(#[trigger] ds[i], message, field, parameter)
}

proof fn lemma_reported_kept(a: Seq<Diagnostic>, b: Seq<Diagnostic>, from: int, message: Seq<char>, field: Seq<char>, name: Seq<char>, parameter: Seq<char>)
    requires
        from >= 0,
        b.len() >= a.len(),
        b.take(a.len() as int) == a,
    ensures
        reported_name(a, from, message, name) ==> reported_name(b, from, message, name),
        reported_param(a, from, message, field, parameter) ==> reported_param(b, from, message, field, parameter),
{
    if reported_name(a, from, message, name) {
        let i = choose|i: int|
            from <= i < a.len() && is_name_report(#[trigger] a[i], message, name);
        assert(b[i] == b.take(a.len() as int)[i]);
    }
    if reported_param(a, from, message, field, parameter) {
        let i = choose|i: int|
            from <= i < a.len() && is_param_report(#[trigger] a[i], message, field, parameter);
        assert(b[i] == b.take(a.len() as int)[i]);
    }
}

proof fn lemma_appended_trans(a: Seq<Diagnostic>, b: Seq<Diagnostic>, c: Seq<Diagnostic>)
    requires
        appended(a, b),
        appended(b, c),
    ensures
        appended(a, c),
{
    assert(c.take(a.len() as int) =~= b.take(a.len() as int));
    assert forall|i: int| a.len() <= i < c.len() implies justified(#[trigger] c[i]) by {
        if i < b.len() {
            assert(c[i] == c.take(b.len() as int)[i]);
        }
    }
}

/// The message whose context checks the properties of `m`: the message it was compiled
/// from when that is a message of `ctx`, else the message of `vctx`.
pub open spec fn nested_message_name(ctx: Context, vctx: ValidationContext, m: Mapping) -> Seq<char> {
    match m.descriptor {
        Some((fi, mi)) => if fi < ctx.files@.len() && mi < ctx.files@[fi as int].messages@.len() {
            ctx.files@[fi as int].messages@[mi as int].full_name@
        } else {
            ctx.files@[vctx.fi as int].messages@[vctx.mi as int].full_name@
        },
        None => ctx.files@[vctx.fi as int].messages@[vctx.mi as int].full_name@,
    }
}

proof fn lemma_reported_from(ds: Seq<Diagnostic>, a: int, b: int, message: Seq<char>, name: Seq<char>)
    requires
        b <= a,
        reported_name(ds, a, message, name),
    ensures
        reported_name(ds, b, message, name),
{
    let i = choose|i: int| a <= i < ds.len() && is_name_report(#[trigger] ds[i], message, name);
    assert(b <= i < ds.len() && is_name_report(ds[i], message, name));
}

/// Runs every check on property `name`, then on the properties of an object, in the
/// context of the object's own message.
#[verifier::rlimit(60)]
pub fn walk(ctx: &Context, vctx: &ValidationContext, name: &String, property: &Property, diagnostics: &mut Vec<Diagnostic>)
    requires
        vctx.wf(*ctx),
    ensures
        diags_view(final(diagnostics)@) == diags_view(old(diagnostics)@) + walk_diags(
            *ctx,
            vctx.file@,
            vctx.fi as int,
            vctx.mi as int,
            name@,
            *property,
        ),
        appended(old(diagnostics)@, final(diagnostics)@),
        !valid_field_name(name@) ==> reported_name(
            final(diagnostics)@,
            old(diagnostics)@.len() as int,
            ctx.files@[vctx.fi as int].messages@[vctx.mi as int].full_name@,
            name@,
        ),
        ignore_above_invalid(*property) ==> reported_param(
            final(diagnostics)@,
            old(diagnostics)@.len() as int,
            ctx.files@[vctx.fi as int].messages@[vctx.mi as int].full_name@,
            proto_name_spec(vctx.names(), name@),
            "ignore_above"@,
        ),
        match property {
            Property::Object { properties, .. } => forall|k: int|
                0 <= k < properties.properties@.len() && !valid_field_name(#[trigger] properties.properties@[k].0@)
                    ==> reported_name(
                    final(diagnostics)@,
                    old(diagnostics)@.len() as int,
                    nested_message_name(*ctx, *vctx, *properties),
                    properties.properties@[k].0@,
                ),
            Property::Leaf(_) => true,
        },
    decreases property,
{
    let ghost s0 = diagnostics@;
    let ghost message = ctx.files@[vctx.fi as int].messages@[vctx.mi as int].full_name@;
    let ghost field = proto_name_spec(vctx.names(), name@);
    check_name(ctx, vctx, name, diagnostics);
    let ghost s1 = diagnostics@;
    proof {
        if !valid_field_name(name@) {
            assert(s1[s0.len() as int] == s1.last());
        }
    }
    check_ignore_above(ctx, vctx, name, property, diagnostics);
    let ghost s2 = diagnostics@;
    proof {
        lemma_appended_trans(s0, s1, s2);
        lemma_reported_kept(s1, s2, s0.len() as int, message, field, name@, "ignore_above"@);
        if ignore_above_invalid(*property) {
            assert(s2[s2.len() - 1] == s2.last());
        }
    }
    check_position_increment_gap(ctx, vctx, name, property, diagnostics);
    let ghost s3 = diagnostics@;
    proof {
        lemma_appended_trans(s0, s2, s3);
        lemma_reported_kept(s2, s3, s0.len() as int, message, field, name@, "ignore_above"@);
    }
    check_index_prefixes(ctx, vctx, name, property, diagnostics);
    let ghost s4 = diagnostics@;
    proof {
        assert(diags_view(s4) =~= diags_view(s0) + checks_of(*ctx, vctx.file@, vctx.fi as int, vctx.mi as int, name@, *property));
    }
    proof {
        lemma_appended_trans(s0, s3, s4);
        lemma_reported_kept(s3, s4, s0.len() as int, message, field, name@, "ignore_above"@);
    }
    proof {
        assert(s4.take(s4.len() as int) =~= s4);
    }
    if let Property::Object { properties, .. } = property {
        let nested = match properties.descriptor {
            Some((fi, mi)) => {
                if fi < ctx.files.len() && mi < ctx.files[fi].messages.len() {
                    Some(ValidationContext::new(ctx, &vctx.file, fi, mi))
                } else {
                    None
                }
            },
            None => None,
        };
        let mut i: usize = 0;
        proof {
            assert(diags_view(diagnostics@) =~= diags_view(s4) + entries_diags(
                *ctx,
                vctx.file@,
                nested_context(*ctx, vctx.fi as int, vctx.mi as int, *properties).0,
                nested_context(*ctx, vctx.fi as int, vctx.mi as int, *properties).1,
                properties.properties@,
                0,
            ));
        }
        while i < properties.properties.len()
            invariant
                vctx.wf(*ctx),
                nested matches Some(n) ==> n.wf(*ctx),
                property is Object,
                property->Object_properties == *properties,
                i <= properties.properties@.len(),
                appended(s0, diagnostics@),
                diagnostics@.len() >= s4.len(),
                diagnostics@.take(s4.len() as int) == s4,
                match nested {
                    Some(n) => properties.descriptor == Some((n.fi, n.mi)),
                    None => nested_message_name(*ctx, *vctx, *properties)
                        == ctx.files@[vctx.fi as int].messages@[vctx.mi as int].full_name@,
                },
                diags_view(diagnostics@) == diags_view(s4) + entries_diags(
                    *ctx,
                    vctx.file@,
                    nested_context(*ctx, vctx.fi as int, vctx.mi as int, *properties).0,
                    nested_context(*ctx, vctx.fi as int, vctx.mi as int, *properties).1,
                    properties.properties@,
                    i as int,
                ),
                match nested {
                    Some(n) => n.fi as int == nested_context(*ctx, vctx.fi as int, vctx.mi as int, *properties).0
                        && n.mi as int == nested_context(*ctx, vctx.fi as int, vctx.mi as int, *properties).1
                        && n.file@ == vctx.file@,
                    None => vctx.fi as int == nested_context(*ctx, vctx.fi as int, vctx.mi as int, *properties).0
                        && vctx.mi as int == nested_context(*ctx, vctx.fi as int, vctx.mi as int, *properties).1,
                },
                forall|q: int|
                    0 <= q < i && !valid_field_name(#[trigger] properties.properties@[q].0@) ==> reported_name(
                        diagnostics@,
                        s0.len() as int,
                        nested_message_name(*ctx, *vctx, *properties),
                        properties.properties@[q].0@,
                    ),
            decreases properties.properties.len() - i,
        {
            let ghost before = diagnostics@;
            let entry = &properties.properties[i];
            proof {
                let pr = properties.properties;
                assert(decreases_to!(*property => property->Object_properties));
                assert(decreases_to!(*properties => pr));
                assert(decreases_to!(pr => pr@));
                assert(decreases_to!(pr@ => pr@[i as int]));
                assert(decreases_to!(pr@[i as int] => pr@[i as int].1));
            }
            match &nested {
                Some(n) => walk(ctx, n, &entry.0, &entry.1, diagnostics),
                None => walk(ctx, vctx, &entry.0, &entry.1, diagnostics),
            }
            proof {
                lemma_appended_trans(s0, before, diagnostics@);
                assert(diagnostics@.take(s4.len() as int) =~= diagnostics@.take(before.len() as int).take(s4.len() as int));
                let nc = nested_context(*ctx, vctx.fi as int, vctx.mi as int, *properties);
                assert(diags_view(diagnostics@) =~= diags_view(s4) + entries_diags(
                    *ctx, vctx.file@, nc.0, nc.1, properties.properties@, i + 1));
                let nm = nested_message_name(*ctx, *vctx, *properties);
                assert forall|q: int|
                    0 <= q <= i && !valid_field_name(#[trigger] properties.properties@[q].0@) implies reported_name(
                        diagnostics@,
                        s0.len() as int,
                        nm,
                        properties.properties@[q].0@,
                    ) by {
                    if q < i {
                        lemma_reported_kept(before, diagnostics@, s0.len() as int, nm, Seq::empty(), properties.properties@[q].0@, Seq::empty());
                    } else {
                        lemma_reported_from(diagnostics@, before.len() as int, s0.len() as int, nm, properties.properties@[q].0@);
                    }
                }
            }
            i = i + 1;
        }
    }
    proof {
        lemma_reported_kept(s4, diagnostics@, s0.len() as int, message, field, name@, "ignore_above"@);
        assert(diags_view(diagnostics@) =~= diags_view(s0) + walk_diags(*ctx, vctx.file@, vctx.fi as int, vctx.mi as int, name@, *property));
    }
}

/// Validates a compiled mapping of the message of `vctx`: every check on every property,
/// recursively. Every diagnostic is an invalid-name warning whose name does not match
/// the pattern, or an error on a parameter; each top-level property with an invalid
/// name, or with `ignore_above` at most 0, is reported.
pub fn validate(ctx: &Context, vctx: &ValidationContext, mapping: &Mapping) -> (r: Vec<Diagnostic>)
    requires
        vctx.wf(*ctx),
    ensures
        diags_view(r@) == entries_diags(
            *ctx,
            vctx.file@,
            vctx.fi as int,
            vctx.mi as int,
            mapping.properties@,
            mapping.properties@.len() as int,
        ),
        forall|i: int| 0 <= i < r@.len() ==> justified(#[trigger] r@[i]),
        forall|k: int|
            0 <= k < mapping.properties@.len() && !valid_field_name(#[trigger] mapping.properties@[k].0@) ==> reported_name(
                r@,
                0,
                ctx.files@[vctx.fi as int].messages@[vctx.mi as int].full_name@,
                mapping.properties@[k].0@,
            ),
        forall|k: int|
            0 <= k < mapping.properties@.len() && ignore_above_invalid(#[trigger] mapping.properties@[k].1) ==> reported_param(
                r@,
                0,
                ctx.files@[vctx.fi as int].messages@[vctx.mi as int].full_name@,
                proto_name_spec(vctx.names(), mapping.properties@[k].0@),
                "ignore_above"@,
            ),
{
    let mut diagnostics: Vec<Diagnostic> = Vec::new();
    let ghost message = ctx.files@[vctx.fi as int].messages@[vctx.mi as int].full_name@;
    let mut i: usize = 0;
    proof {
        assert(diagnostics@.take(0) =~= Seq::<Diagnostic>::empty());
        assert(diags_view(diagnostics@) =~= Seq::<DiagnosticView>::empty());
    }
    while i < mapping.properties.len()
        invariant
            vctx.wf(*ctx),
            diags_view(diagnostics@) == entries_diags(
                *ctx,
                vctx.file@,
                vctx.fi as int,
                vctx.mi as int,
                mapping.properties@,
                i as int,
            ),
            message == ctx.files@[vctx.fi as int].messages@[vctx.mi as int].full_name@,
            i <= mapping.properties@.len(),
            appended(Seq::empty(), diagnostics@),
            forall|k: int|
                0 <= k < i && !valid_field_name(#[trigger] mapping.properties@[k].0@) ==> reported_name(
                    diagnostics@,
                    0,
                    message,
                    mapping.properties@[k].0@,
                ),
            forall|k: int|
                0 <= k < i && ignore_above_invalid(#[trigger] mapping.properties@[k].1) ==> reported_param(
                    diagnostics@,
                    0,
                    message,
                    proto_name_spec(vctx.names(), mapping.properties@[k].0@),
                    "ignore_above"@,
                ),
        decreases mapping.properties.len() - i,
    {
        let ghost before = diagnostics@;
        let entry = &mapping.properties[i];
        walk(ctx, vctx, &entry.0, &entry.1, &mut diagnostics);
        proof {
            assert(diags_view(diagnostics@) =~= entries_diags(*ctx, vctx.file@, vctx.fi as int, vctx.mi as int, mapping.properties@, i + 1));
            lemma_appended_trans(Seq::empty(), before, diagnostics@);
            assert forall|k: int|
                0 <= k <= i && !valid_field_name(#[trigger] mapping.properties@[k].0@) implies reported_name(
                    diagnostics@,
                    0,
                    message,
                    mapping.properties@[k].0@,
                ) by {
                lemma_reported_kept(before, diagnostics@, 0, message, Seq::empty(), mapping.properties@[k].0@, Seq::empty());
                if k == i {
                    let j = choose|j: int|
                        before.len() <= j < diagnostics@.len() && is_name_report(#[trigger] diagnostics@[j], message, mapping.properties@[k].0@);
                    assert(0 <= j);
                }
            }
            assert forall|k: int|
                0 <= k <= i && ignore_above_invalid(#[trigger] mapping.properties@[k].1) implies reported_param(
                    diagnostics@,
                    0,
                    message,
                    proto_name_spec(vctx.names(), mapping.properties@[k].0@),
                    "ignore_above"@,
                ) by {
                let field = proto_name_spec(vctx.names(), mapping.properties@[k].0@);
                lemma_reported_kept(before, diagnostics@, 0, message, field, Seq::empty(), "ignore_above"@);
                if k == i {
                    let j = choose|j: int|
                        before.len() <= j < diagnostics@.len() && is_param_report(#[trigger] diagnostics@[j], message, field, "ignore_above"@);
                    assert(0 <= j);
                }
            }
        }
        i = i + 1;
    }
    diagnostics
}

/// Properties that agree give the same validation diagnostics.
pub proof fn lemma_walk_same(ctx: Context, file: Seq<char>, fi: int, mi: int, name: Seq<char>, p: Property, q: Property, fuel: nat)
    requires
        same_property(p, q, fuel),
    ensures
        walk_diags(ctx, file, fi, mi, name, p) == walk_diags(ctx, file, fi, mi, name, q),
    decreases fuel, 0int, 0int,
{
    match (p, q) {
        (Property::Object { properties: a, .. }, Property::Object { properties: b, .. }) => {
            let (x, y) = nested_context(ctx, fi, mi, a);
            assert(nested_context(ctx, fi, mi, a) == nested_context(ctx, fi, mi, b));
            lemma_entries_same(
                ctx,
                file,
                x,
                y,
                a.properties@,
                b.properties@,
                a.properties@.len() as int,
                (fuel - 1) as nat,
            );
            assert(a.properties@.len() == a.names().len() && b.properties@.len() == b.names().len());
        },
        _ => {},
    }
}

/// Property lists that agree pairwise give the same validation diagnostics.
pub proof fn lemma_entries_same(
    ctx: Context,
    file: Seq<char>,
    fi: int,
    mi: int,
    es1: Seq<(String, Property)>,
    es2: Seq<(String, Property)>,
    upto: int,
    fuel: nat,
)
    requires
        es1.map_values(|e: (String, Property)| e.0@) == es2.map_values(|e: (String, Property)| e.0@),
        forall|n: int| 0 <= n < es1.len() ==> same_property(#[trigger] es1[n].1, es2[n].1, fuel),
        0 <= upto <= es1.len(),
    ensures
        entries_diags(ctx, file, fi, mi, es1, upto) == entries_diags(ctx, file, fi, mi, es2, upto),
    decreases fuel, 1int, upto,
{
    assert(es1.len() == es2.len()) by {
        assert(es1.map_values(|e: (String, Property)| e.0@).len() == es1.len());
    }
    if upto > 0 {
        lemma_entries_same(ctx, file, fi, mi, es1, es2, upto - 1, fuel);
        assert(es1.map_values(|e: (String, Property)| e.0@)[upto - 1] == es2.map_values(|e: (String, Property)| e.0@)[upto - 1]);
        lemma_walk_same(ctx, file, fi, mi, es1[upto - 1].0@, es1[upto - 1].1, es2[upto - 1].1, fuel);
    }
}

} // verus!
