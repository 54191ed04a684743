//! What the analyzer and the machine report. A diagnostic never stops a
//! phase: it is recorded, and the phase goes on with the next line.

use vstd::prelude::*;

verus! {

/// What kind of symbol a diagnostic speaks of.
#[derive(Debug, Clone, Copy, PartialEq, Eq, Structural)]
pub enum SymbolKind {
    Variable,
    Function,
}

/// One report, with the index of the line that gave rise to it.
#[derive(Debug, PartialEq, Eq)]
pub enum Diagnostic {
    /// A variable or a function is declared under a name that is taken.
    DuplicateDeclaration { line: usize, kind: SymbolKind, name: String },
    /// A variable is assigned to, or a function called, that is not declared.
    UnknownIdentifier { line: usize, kind: SymbolKind, name: String },
    /// The right-hand side of an assignment is no integer that fits a cell.
    MalformedLiteral { line: usize, literal: String },
    /// The line has none of the shapes of the language.
    SyntaxError { line: usize },
    /// For information: a function body closed, and these were its locals.
    LocalsCleared { line: usize, names: Vec<String> },
    /// A call ended with no return address to go back to.
    EmptyCallStack { line: usize },
    /// A statement needed an activation frame and there was none.
    MissingActivationFrame { line: usize },
    /// A call was refused because the call stack had reached its limit.
    StackOverflow { line: usize },
}

/// A diagnostic as a mathematical value.
pub enum DiagnosticView {
    DuplicateDeclaration { line: nat, kind: SymbolKind, name: Seq<char> },
    UnknownIdentifier { line: nat, kind: SymbolKind, name: Seq<char> },
    MalformedLiteral { line: nat, literal: Seq<char> },
    SyntaxError { line: nat },
    LocalsCleared { line: nat, names: Seq<Seq<char>> },
    EmptyCallStack { line: nat },
    MissingActivationFrame { line: nat },
    StackOverflow { line: nat },
}

impl DiagnosticView {
    /// Every diagnostic but the one that only informs.
    pub open spec fn is_error(self) -> bool {
        !(self is LocalsCleared)
    }
}

impl View for Diagnostic {
    type V = DiagnosticView;

    open spec fn view(&self) -> DiagnosticView {
        match self {
            Diagnostic::DuplicateDeclaration { line, kind, name } => {
                DiagnosticView::DuplicateDeclaration { line: *line as nat, kind: *kind, name: name@ }
            },
            Diagnostic::UnknownIdentifier { line, kind, name } => {
                DiagnosticView::UnknownIdentifier { line: *line as nat, kind: *kind, name: name@ }
            },
            Diagnostic::MalformedLiteral { line, literal } => {
                DiagnosticView::MalformedLiteral { line: *line as nat, literal: literal@ }
            },
            Diagnostic::SyntaxError { line } => DiagnosticView::SyntaxError { line: *line as nat },
            Diagnostic::LocalsCleared { line, names } => {
                DiagnosticView::LocalsCleared { line: *line as nat, names: names.deep_view() }
            },
            Diagnostic::EmptyCallStack { line } => {
                DiagnosticView::EmptyCallStack { line: *line as nat }
            },
            Diagnostic::MissingActivationFrame { line } => {
                DiagnosticView::MissingActivationFrame { line: *line as nat }
            },
            Diagnostic::StackOverflow { line } => {
                DiagnosticView::StackOverflow { line: *line as nat }
            },
        }
    }
}

impl DeepView for Diagnostic {
    type V = DiagnosticView;

    open spec fn deep_view(&self) -> DiagnosticView {
        self@
    }
}

impl Diagnostic {
    /// Whether the diagnostic reports a fault, and does not merely inform.
    pub fn is_error(&self) -> (error: bool)
        ensures
            error == self@.is_error(),
    {
        match self {
            Diagnostic::LocalsCleared { .. } => false,
            _ => true,
        }
    }

    /// The index of the line that the diagnostic speaks of.
    pub fn line(&self) -> (line: usize)
        ensures
            line == diagnostic_line(self@),
    {
        match self {
            Diagnostic::DuplicateDeclaration { line, .. } => *line,
            Diagnostic::UnknownIdentifier { line, .. } => *line,
            Diagnostic::MalformedLiteral { line, .. } => *line,
            Diagnostic::SyntaxError { line } => *line,
            Diagnostic::LocalsCleared { line, .. } => *line,
            Diagnostic::EmptyCallStack { line } => *line,
            Diagnostic::MissingActivationFrame { line } => *line,
            Diagnostic::StackOverflow { line } => *line,
        }
    }
}

/// The index of the line that a diagnostic speaks of.
pub open spec fn diagnostic_line(diagnostic: DiagnosticView) -> nat {
    match diagnostic {
        DiagnosticView::DuplicateDeclaration { line, .. } => line,
        DiagnosticView::UnknownIdentifier { line, .. } => line,
        DiagnosticView::MalformedLiteral { line, .. } => line,
        DiagnosticView::SyntaxError { line } => line,
        DiagnosticView::LocalsCleared { line, .. } => line,
        DiagnosticView::EmptyCallStack { line } => line,
        DiagnosticView::MissingActivationFrame { line } => line,
        DiagnosticView::StackOverflow { line } => line,
    }
}

} // verus!
