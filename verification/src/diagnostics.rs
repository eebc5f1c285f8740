//! libslide's diagnostic module.
//!
//! libslide does not emit user-facing diagnostic information itself, so the diagnostics returned
//! by libslide should be
//!
//! - as complete as possible, so that a consumer can process as little or as much information as
//!   they want
//! - easily transformable into some output form by downstream customers (namely the slide app)
use crate::common::Span;
use vstd::prelude::*;

verus! {

/// The kind of a slide diagnostic.
#[derive(PartialEq, Eq, Structural, Clone, Copy, Debug)]
pub enum DiagnosticKind {
    /// An error diagnostic. Generally, this diagnostic should be emitted for unrecoverable errors.
    /// In other cases, a warning or a note may be more applicable.
    Error,
    /// A warning diagnostic describes something that is not a strict error, but may not match
    /// canonical style, usage patterns, or otherwise may be error-prone.
    Warning,
    /// A note diagnostic is a generic annotation with no specific connotation like `error`. It can
    /// be particularly useful as an associated diagnostic, for example in expanding on a primary
    /// error.
    Note,
    /// A help diagnostic should instruct the user how their code can be changed to work correctly
    /// with slide.
    Help,
}

/// A secondary diagnostic associated with a primary `Diagnostic`.
#[derive(Debug)]
pub struct AssociatedDiagnostic {
    /// The diagnostic kind.
    pub kind: DiagnosticKind,
    /// Source location for which the diagnostic is applicable.
    pub span: Span,
    /// Diagnostic message.
    pub msg: String,
}

/// Describes the confidence that should be taken in whether an [`Autofix`](Autofix) should be
/// applied.
#[derive(PartialEq, Eq, Structural, Clone, Copy, Debug)]
pub enum AutofixConfidence {
    /// This fix is for sure what the user meant, and for sure will resolve a
    /// [`Diagnostic`](Diagnostic).
    ForSure,
    /// This fix is maybe what the user meant, and might not resolve a [`Diagnostic`](Diagnostic).
    Maybe,
}

/// A text edit to be made over some range.
#[derive(Debug)]
pub enum Edit {
    /// Replace the range with a string.
    Replace(String),
    /// Delete the range.
    Delete,
}

/// An autofix for a [`Diagnostic`](Diagnostic), over its range.
#[derive(Debug)]
pub struct Autofix {
    /// Confidence of the fix.
    pub confidence: AutofixConfidence,
    /// A message describing the autofix.
    /// The message should be treated as "prefix" relevative to the fix itself if formatted in a
    /// string referencing the fix.
    /// For example, one may wish to display the autofix as "<msg>: <fix>".
    pub msg: String,
    /// The fix itself.
    pub fix: Edit,
}

impl Autofix {
    /// Creates an autofix of confidence [`ForSure`](AutofixConfidence::ForSure)
    pub fn for_sure(msg: String, fix: Edit) -> (r: Self)
        ensures
            r.confidence == AutofixConfidence::ForSure,
            r.msg == msg,
            r.fix == fix,
    {
        Self { confidence: AutofixConfidence::ForSure, msg, fix }
    }

    /// Creates an autofix of confidence [`Maybe`](AutofixConfidence::Maybe)
    pub fn maybe(msg: String, fix: Edit) -> (r: Self)
        ensures
            r.confidence == AutofixConfidence::Maybe,
            r.msg == msg,
            r.fix == fix,
    {
        Self { confidence: AutofixConfidence::Maybe, msg, fix }
    }
}

/// A diagnostic for slide source code.
#[derive(Debug)]
pub struct Diagnostic {
    /// The diagnostic kind.
    pub kind: DiagnosticKind,
    /// The diagnostic code.
    pub code: &'static str,
    /// Source location for which the diagnostic is applicable.
    pub span: Span,
    /// A summarizing title for the diagnostic.
    pub title: String,
    /// Diagnostic message.
    pub msg: Option<String>,
    /// Any additional diagnostics associated with this one.
    /// The additional diagnostics may or may not cover the same span as this one.
    pub associated_diagnostics: Vec<AssociatedDiagnostic>,
    /// Any additional diagnostics associated with this one, not explicitly covering any span.
    /// Implicitly, these diagnostics cover the span of the primary one.
    pub unspanned_associated_diagnostics: Vec<AssociatedDiagnostic>,
    /// An potential autofixes, which if replaced on the span over which this diagnostic is for,
    /// would resolve the diagnostic.
    pub autofix: Option<Autofix>,
}

/// Describes a code and detailed explanation for a diagnostic.
pub trait DiagnosticRecord {
    /// Diagnostic code.
    fn code() -> &'static str;
    /// Detailed diagnostic explanation.
    fn explanation() -> &'static str;
}

/// Describes an individual registry of slide diagnostics.
pub trait DiagnosticRegistry {
    /// Retrieves all diagnostic codes owned by this registry and their explanations.
    fn codes_with_explanations() -> Vec<(&'static str, &'static str)>;
}

impl Diagnostic {
    /// Creates a diagnostic of the given kind at a span, with no associated diagnostics and no
    /// autofix.
    pub fn span_diag(
        kind: DiagnosticKind,
        span: Span,
        title: String,
        code: &'static str,
        msg: Option<String>,
    ) -> (r: Diagnostic)
        ensures
            r.kind == kind,
            r.span == span,
            r.title == title,
            r.code == code,
            r.msg == msg,
            r.associated_diagnostics@.len() == 0,
            r.unspanned_associated_diagnostics@.len() == 0,
            r.autofix is None,
    {
        Diagnostic {
            kind,
            span,
            title,
            code,
            msg,
            associated_diagnostics: Vec::new(),
            unspanned_associated_diagnostics: Vec::new(),
            autofix: None,
        }
    }

    /// Creates an error diagnostic at a span.
    pub fn span_err(span: Span, title: String, code: &'static str, msg: Option<String>) -> (r:
        Diagnostic)
        ensures
            r.kind == DiagnosticKind::Error,
            r.span == span,
            r.title == title,
            r.code == code,
            r.msg == msg,
            r.associated_diagnostics@.len() == 0,
            r.unspanned_associated_diagnostics@.len() == 0,
            r.autofix is None,
    {
        Self::span_diag(DiagnosticKind::Error, span, title, code, msg)
    }

    /// Creates a warning diagnostic at a span.
    pub fn span_warn(span: Span, title: String, code: &'static str, msg: Option<String>) -> (r:
        Diagnostic)
        ensures
            r.kind == DiagnosticKind::Warning,
            r.span == span,
            r.title == title,
            r.code == code,
            r.msg == msg,
            r.associated_diagnostics@.len() == 0,
            r.unspanned_associated_diagnostics@.len() == 0,
            r.autofix is None,
    {
        Self::span_diag(DiagnosticKind::Warning, span, title, code, msg)
    }

    /// Adds a note to the diagnostic, over the diagnostic's own span.
    pub fn with_note(self, note: String) -> (r: Diagnostic)
        ensures
            r.unspanned_associated_diagnostics@ == self.unspanned_associated_diagnostics@.push(
                AssociatedDiagnostic { kind: DiagnosticKind::Note, span: self.span, msg: note },
            ),
            r.associated_diagnostics@ == self.associated_diagnostics@,
            r.kind == self.kind,
            r.span == self.span,
            r.title == self.title,
            r.code == self.code,
            r.msg == self.msg,
            r.autofix == self.autofix,
    {
        let mut d = self;
        let span = d.span;
        d.unspanned_associated_diagnostics.push(
            AssociatedDiagnostic { kind: DiagnosticKind::Note, span, msg: note },
        );
        d
    }

    /// Adds a help message to the diagnostic, over the diagnostic's own span.
    pub fn with_help(self, help: String) -> (r: Diagnostic)
        ensures
            r.unspanned_associated_diagnostics@ == self.unspanned_associated_diagnostics@.push(
                AssociatedDiagnostic { kind: DiagnosticKind::Help, span: self.span, msg: help },
            ),
            r.associated_diagnostics@ == self.associated_diagnostics@,
            r.kind == self.kind,
            r.span == self.span,
            r.title == self.title,
            r.code == self.code,
            r.msg == self.msg,
            r.autofix == self.autofix,
    {
        let mut d = self;
        let span = d.span;
        d.unspanned_associated_diagnostics.push(
            AssociatedDiagnostic { kind: DiagnosticKind::Help, span, msg: help },
        );
        d
    }

    /// Adds an associated diagnostic of the given kind, possibly at a different span.
    pub fn with_spanned(self, kind: DiagnosticKind, span: Span, note: String) -> (r: Diagnostic)
        ensures
            r.associated_diagnostics@ == self.associated_diagnostics@.push(
                AssociatedDiagnostic { kind, span, msg: note },
            ),
            r.unspanned_associated_diagnostics@ == self.unspanned_associated_diagnostics@,
            r.kind == self.kind,
            r.span == self.span,
            r.title == self.title,
            r.code == self.code,
            r.msg == self.msg,
            r.autofix == self.autofix,
    {
        let mut d = self;
        d.associated_diagnostics.push(AssociatedDiagnostic { kind, span, msg: note });
        d
    }

    /// Adds an error to the diagnostic, possibly at a different span.
    pub fn with_spanned_err(self, span: Span, note: String) -> (r: Diagnostic)
        ensures
            r.associated_diagnostics@ == self.associated_diagnostics@.push(
                AssociatedDiagnostic { kind: DiagnosticKind::Error, span, msg: note },
            ),
            r.unspanned_associated_diagnostics@ == self.unspanned_associated_diagnostics@,
            r.kind == self.kind,
            r.span == self.span,
            r.title == self.title,
            r.code == self.code,
            r.msg == self.msg,
            r.autofix == self.autofix,
    {
        self.with_spanned(DiagnosticKind::Error, span, note)
    }

    /// Adds a warning to the diagnostic, possibly at a different span.
    pub fn with_spanned_warn(self, span: Span, note: String) -> (r: Diagnostic)
        ensures
            r.associated_diagnostics@ == self.associated_diagnostics@.push(
                AssociatedDiagnostic { kind: DiagnosticKind::Warning, span, msg: note },
            ),
            r.unspanned_associated_diagnostics@ == self.unspanned_associated_diagnostics@,
            r.kind == self.kind,
            r.span == self.span,
            r.title == self.title,
            r.code == self.code,
            r.msg == self.msg,
            r.autofix == self.autofix,
    {
        self.with_spanned(DiagnosticKind::Warning, span, note)
    }

    /// Adds a help message to the diagnostic, possibly at a different span.
    pub fn with_spanned_help(self, span: Span, note: String) -> (r: Diagnostic)
        ensures
            r.associated_diagnostics@ == self.associated_diagnostics@.push(
                AssociatedDiagnostic { kind: DiagnosticKind::Help, span, msg: note },
            ),
            r.unspanned_associated_diagnostics@ == self.unspanned_associated_diagnostics@,
            r.kind == self.kind,
            r.span == self.span,
            r.title == self.title,
            r.code == self.code,
            r.msg == self.msg,
            r.autofix == self.autofix,
    {
        self.with_spanned(DiagnosticKind::Help, span, note)
    }

    /// Adds a note to the diagnostic, possibly at a different span.
    pub fn with_spanned_note(self, span: Span, note: String) -> (r: Diagnostic)
        ensures
            r.associated_diagnostics@ == self.associated_diagnostics@.push(
                AssociatedDiagnostic { kind: DiagnosticKind::Note, span, msg: note },
            ),
            r.unspanned_associated_diagnostics@ == self.unspanned_associated_diagnostics@,
            r.kind == self.kind,
            r.span == self.span,
            r.title == self.title,
            r.code == self.code,
            r.msg == self.msg,
            r.autofix == self.autofix,
    {
        self.with_spanned(DiagnosticKind::Note, span, note)
    }

    /// Adds an [autofix](Autofix) to the diagnostic.
    pub fn with_autofix(self, autofix: Autofix) -> (r: Self)
        ensures
            r.autofix == Some(autofix),
            r.kind == self.kind,
            r.span == self.span,
            r.title == self.title,
            r.code == self.code,
            r.msg == self.msg,
            r.associated_diagnostics == self.associated_diagnostics,
            r.unspanned_associated_diagnostics == self.unspanned_associated_diagnostics,
    {
        Self { autofix: Some(autofix), ..self }
    }
}

} // verus!
