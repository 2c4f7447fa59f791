use vstd::prelude::*;

use crate::span::Span;

verus! {

/// A validation finding, with its severity and where it was found.
#[derive(Debug, Clone, PartialEq)]
pub struct Diagnostic {
    pub severity: Severity,
    pub kind: DiagnosticKind,
    pub location: Option<Location>,
}

#[derive(Debug, Clone, Copy, PartialEq, Eq, Structural)]
pub enum Severity {
    Warning,
    Error,
}

/// What a diagnostic reports. `message` names the owning message and `field` the
/// schema field the finding is about.
#[derive(Debug, Clone, PartialEq)]
pub enum DiagnosticKind {
    InvalidTargetJson { message: String, field: String, label: String },
    InvalidTargetJsonType { message: String, field: String, label: String },
    InvalidFieldName { message: String, field: String, name: String },
    InvalidParameterValue { message: String, field: String, parameter: String, reason: String },
    UnknownTarget { message: String, field: String, label: String },
}

/// A file name, and the span inside it when one could be resolved.
#[derive(Debug, Clone, PartialEq)]
pub struct Location {
    pub file: String,
    pub span: Option<Span>,
}

/// A diagnostic as values: `number` tells the kind apart, `detail` is its label, name or
/// parameter, and `reason` is empty but for an invalid parameter value.
pub struct DiagnosticView {
    pub severity: Severity,
    pub number: u32,
    pub message: Seq<char>,
    pub field: Seq<char>,
    pub detail: Seq<char>,
    pub reason: Seq<char>,
    pub location: Option<(Seq<char>, Option<Span>)>,
}

pub open spec fn diag_view(
    severity: Severity,
    number: u32,
    message: Seq<char>,
    field: Seq<char>,
    detail: Seq<char>,
    reason: Seq<char>,
    file: Seq<char>,
    span: Option<Span>,
) -> DiagnosticView {
    DiagnosticView { severity, number, message, field, detail, reason, location: Some((file, span)) }
}

impl View for Diagnostic {
    type V = DiagnosticView;

    open spec fn view(&self) -> DiagnosticView {
        let (message, field, detail, reason) = match self.kind {
            DiagnosticKind::InvalidTargetJson { message, field, label } => (message@, field@, label@, Seq::empty()),
            DiagnosticKind::InvalidTargetJsonType { message, field, label } => (message@, field@, label@, Seq::empty()),
            DiagnosticKind::InvalidFieldName { message, field, name } => (message@, field@, name@, Seq::empty()),
            DiagnosticKind::InvalidParameterValue { message, field, parameter, reason } => (
                message@,
                field@,
                parameter@,
                reason@,
            ),
            DiagnosticKind::UnknownTarget { message, field, label } => (message@, field@, label@, Seq::empty()),
        };
        DiagnosticView {
            severity: self.severity,
            number: self.kind.spec_number(),
            message,
            field,
            detail,
            reason,
            location: match self.location {
                Some(l) => Some((l.file@, l.span)),
                None => None,
            },
        }
    }
}

pub open spec fn diags_view(ds: Seq<Diagnostic>) -> Seq<DiagnosticView> {
    ds.map_values(|d: Diagnostic| d@)
}

impl Diagnostic {
    pub fn error(kind: DiagnosticKind) -> (r: Self)
        ensures
            r.severity == Severity::Error,
            r.kind == kind,
            r.location.is_none(),
    {
        Diagnostic { severity: Severity::Error, kind, location: None }
    }

    pub fn warning(kind: DiagnosticKind) -> (r: Self)
        ensures
            r.severity == Severity::Warning,
            r.kind == kind,
            r.location.is_none(),
    {
        Diagnostic { severity: Severity::Warning, kind, location: None }
    }

    /// The same diagnostic, placed at `location`.
    pub fn at(self, location: Location) -> (r: Self)
        ensures
            r.severity == self.severity,
            r.kind == self.kind,
            r.location == Some(location),
    {
        Diagnostic { severity: self.severity, kind: self.kind, location: Some(location) }
    }

    pub fn is_error(&self) -> (r: bool)
        ensures
            r == (self.severity == Severity::Error),
    {
        match self.severity {
            Severity::Error => true,
            Severity::Warning => false,
        }
    }

    pub fn is_warning(&self) -> (r: bool)
        ensures
            r == (self.severity == Severity::Warning),
    {
        match self.severity {
            Severity::Error => false,
            Severity::Warning => true,
        }
    }
}

impl Severity {
    /// The letter that starts a diagnostic code.
    pub fn prefix(&self) -> (r: char)
        ensures
            r == (if *self == Severity::Warning { 'W' } else { 'E' }),
    {
        match self {
            Severity::Warning => 'W',
            Severity::Error => 'E',
        }
    }
}

impl DiagnosticKind {
    pub open spec fn spec_number(&self) -> u32 {
        match self {
            DiagnosticKind::InvalidFieldName { .. } => 1,
            DiagnosticKind::InvalidTargetJson { .. } => 2,
            DiagnosticKind::InvalidTargetJsonType { .. } => 3,
            DiagnosticKind::UnknownTarget { .. } => 4,
            DiagnosticKind::InvalidParameterValue { .. } => 100,
        }
    }

    /// The stable number of this kind of diagnostic.
    pub fn number(&self) -> (r: u32)
        ensures
            r == self.spec_number(),
    {
        match self {
            DiagnosticKind::InvalidFieldName { .. } => 1,
            DiagnosticKind::InvalidTargetJson { .. } => 2,
            DiagnosticKind::InvalidTargetJsonType { .. } => 3,
            DiagnosticKind::UnknownTarget { .. } => 4,
            DiagnosticKind::InvalidParameterValue { .. } => 100,
        }
    }
}

} // verus!
