//! Diagnostics reported by the checker: a code, a severity, a message, notes, an optional span
//! and suggested edits.
use vstd::prelude::*;

verus! {

/// How severe a reported diagnostic is.
#[derive(Debug, Clone, Copy, PartialEq, Eq, Structural)]
pub enum Severity {
    Error,
    Warning,
}

/// How a configurable rule is reported.
#[derive(Debug, Clone, Copy, PartialEq, Eq, Structural)]
pub enum DiagnosticLevel {
    Ignore,
    Warning,
    Error,
}

/// The kind of source a module was read from.
#[derive(Debug, Clone, Copy, PartialEq, Eq, Structural)]
pub enum SourceKind {
    TypePython,
    Python,
    Stub,
}

/// A location in a source file: a path and a start and end position.
#[derive(Debug, Clone)]
pub struct Span {
    pub path: String,
    pub line: usize,
    pub column: usize,
    pub end_line: usize,
    pub end_column: usize,
}

/// How safely a suggested edit can be applied.
#[derive(Debug, Clone, Copy, PartialEq, Eq, Structural)]
pub enum SuggestionApplicability {
    MachineApplicable,
}

/// An edit suggested with a diagnostic: what it does, where, and the text it inserts.
#[derive(Debug, Clone)]
pub struct Suggestion {
    pub message: String,
    pub span: Span,
    pub replacement: String,
    pub applicability: SuggestionApplicability,
}

/// A diagnostic reported on a module.
#[derive(Debug, Clone)]
pub struct Diagnostic {
    pub code: String,
    pub severity: Severity,
    pub message: String,
    pub notes: Vec<String>,
    pub span: Option<Span>,
    pub suggestions: Vec<Suggestion>,
}

/// The plain-value view of a span.
pub struct SpanView {
    pub path: Seq<char>,
    pub line: nat,
    pub column: nat,
    pub end_line: nat,
    pub end_column: nat,
}

/// The plain-value view of a suggested edit.
pub struct SuggestionView {
    pub message: Seq<char>,
    pub span: SpanView,
    pub replacement: Seq<char>,
    pub applicability: SuggestionApplicability,
}

/// The plain-value view of a diagnostic.
pub struct DiagnosticView {
    pub code: Seq<char>,
    pub severity: Severity,
    pub message: Seq<char>,
    pub notes: Seq<Seq<char>>,
    pub span: Option<SpanView>,
    pub suggestions: Seq<SuggestionView>,
}

impl View for Span {
    type V = SpanView;

    open spec fn view(&self) -> SpanView {
        SpanView {
            path: self.path@,
            line: self.line as nat,
            column: self.column as nat,
            end_line: self.end_line as nat,
            end_column: self.end_column as nat,
        }
    }
}

impl View for Suggestion {
    type V = SuggestionView;

    open spec fn view(&self) -> SuggestionView {
        SuggestionView {
            message: self.message@,
            span: self.span@,
            replacement: self.replacement@,
            applicability: self.applicability,
        }
    }
}

impl View for Diagnostic {
    type V = DiagnosticView;

    open spec fn view(&self) -> DiagnosticView {
        DiagnosticView {
            code: self.code@,
            severity: self.severity,
            message: self.message@,
            notes: self.notes@.map_values(|n: String| n@),
            span: match self.span {
                Some(s) => Some(s@),
                None => None,
            },
            suggestions: self.suggestions@.map_values(|x: Suggestion| x@),
        }
    }
}

/// A diagnostic with the given severity, code and message, and no notes or span.
pub open spec fn spec_diagnostic(
    severity: Severity,
    code: Seq<char>,
    message: Seq<char>,
) -> DiagnosticView {
    DiagnosticView { code, severity, message, notes: Seq::empty(), span: None, suggestions: Seq::empty() }
}

/// The span of a single position `line:column` on both ends.
pub open spec fn spec_point_span(path: Seq<char>, line: nat, column: nat) -> SpanView {
    SpanView { path, line, column, end_line: line, end_column: column }
}

impl Span {
    pub fn new(path: String, line: usize, column: usize, end_line: usize, end_column: usize) -> (res:
        Span)
        ensures
            res@ == (SpanView {
                path: path@,
                line: line as nat,
                column: column as nat,
                end_line: end_line as nat,
                end_column: end_column as nat,
            }),
    {
        Span { path, line, column, end_line, end_column }
    }

    /// A copy of the span.
    pub fn duplicate(&self) -> (res: Span)
        ensures
            res@ == self@,
    {
        Span {
            path: self.path.clone(),
            line: self.line,
            column: self.column,
            end_line: self.end_line,
            end_column: self.end_column,
        }
    }
}

impl Diagnostic {
    /// An error with the given code and message.
    pub fn error(code: &str, message: String) -> (res: Diagnostic)
        ensures
            res@ == spec_diagnostic(Severity::Error, code@, message@),
    {
        let d = Diagnostic {
            code: code.to_owned(),
            severity: Severity::Error,
            message,
            notes: Vec::new(),
            span: None,
            suggestions: Vec::new(),
        };
        assert(d@.notes =~= Seq::<Seq<char>>::empty());
        assert(d@.suggestions =~= Seq::<SuggestionView>::empty());
        d
    }

    /// A warning with the given code and message.
    pub fn warning(code: &str, message: String) -> (res: Diagnostic)
        ensures
            res@ == spec_diagnostic(Severity::Warning, code@, message@),
    {
        let d = Diagnostic {
            code: code.to_owned(),
            severity: Severity::Warning,
            message,
            notes: Vec::new(),
            span: None,
            suggestions: Vec::new(),
        };
        assert(d@.notes =~= Seq::<Seq<char>>::empty());
        assert(d@.suggestions =~= Seq::<SuggestionView>::empty());
        d
    }

    /// The same diagnostic with `note` appended to its notes.
    pub fn with_note(self, note: String) -> (res: Diagnostic)
        ensures
            res@ == (DiagnosticView { notes: self@.notes.push(note@), ..self@ }),
    {
        let mut d = self;
        let ghost before = d.notes@;
        d.notes.push(note);
        assert(d@.notes =~= self@.notes.push(note@));
        assert(d@.suggestions =~= self@.suggestions);
        d
    }

    /// The same diagnostic with an edit suggested.
    pub fn with_suggestion(
        self,
        message: &str,
        span: Span,
        replacement: String,
        applicability: SuggestionApplicability,
    ) -> (res: Diagnostic)
        ensures
            res@ == (DiagnosticView {
                suggestions: self@.suggestions.push(
                    SuggestionView { message: message@, span: span@, replacement: replacement@, applicability },
                ),
                ..self@
            }),
    {
        let mut d = self;
        let suggestion = Suggestion { message: message.to_owned(), span, replacement, applicability };
        d.suggestions.push(suggestion);
        assert(d@.suggestions =~= self@.suggestions.push(
            SuggestionView { message: message@, span: span@, replacement: replacement@, applicability },
        ));
        assert(d@.notes =~= self@.notes);
        d
    }

    /// The same diagnostic placed at `span`.
    pub fn with_span(self, span: Span) -> (res: Diagnostic)
        ensures
            res@ == (DiagnosticView { span: Some(span@), ..self@ }),
    {
        let mut d = self;
        d.span = Some(span);
        assert(d@.notes =~= self@.notes);
        assert(d@.suggestions =~= self@.suggestions);
        d
    }
}

} // verus!
