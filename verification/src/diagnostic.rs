//! Diagnostics: what went wrong, where, and how bad it is. Lex and
//! syntax errors always become diagnostics and never stop the parse.

use vstd::prelude::*;
use crate::syntax::SyntaxKind;

verus! {

#[derive(Clone, Copy, PartialEq, Eq, Structural, Debug)]
pub enum Severity {
    Error,
    Warning,
}

/// The machine-readable reason of a diagnostic.
#[derive(Clone, Copy, PartialEq, Eq, Structural, Debug)]
pub enum DiagnosticCode {
    /// An expression production was required and absent.
    ExpectedExpression,
    /// A specific token kind was required and absent.
    ExpectedToken(SyntaxKind),
    /// A token no production could use; it was skipped into an error node.
    UnexpectedToken,
    /// A statement was required and absent; error recovery names this
    /// as the expectation when it skips tokens at statement level.
    ExpectedStatement,
    /// A string literal ran into the end of the line or of the input.
    UnterminatedString,
    /// A regular-expression literal ran into the end of the line or input.
    UnterminatedRegex,
    /// A block comment ran into the end of the input.
    UnterminatedComment,
}

/// One diagnostic: a byte span in the source, a severity and a reason.
#[derive(Clone, Copy, PartialEq, Eq, Structural, Debug)]
pub struct Diagnostic {
    pub span_start: usize,
    pub span_end: usize,
    pub severity: Severity,
    pub code: DiagnosticCode,
}

} // verus!
