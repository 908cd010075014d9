//! Compiler diagnostics.
use vstd::prelude::*;
use vstd::string::*;

verus! {

/// How serious a diagnostic is.
#[derive(Debug, Clone, Copy, PartialEq, Eq, Structural)]
pub enum DiagnosticSeverity {
    Warning,
    Error,
}

/// One message of the compiler about one source line.
#[derive(Debug, Clone, PartialEq, Eq)]
pub struct Diagnostic {
    pub severity: DiagnosticSeverity,
    pub code: &'static str,
    pub message: String,
    pub line: usize,
    pub column: usize,
}

/// The mathematical value of a [`Diagnostic`].
pub struct SpecDiagnostic {
    pub severity: DiagnosticSeverity,
    pub code: Seq<char>,
    pub message: Seq<char>,
    pub line: usize,
    pub column: usize,
}

impl View for Diagnostic {
    type V = SpecDiagnostic;

    open spec fn view(&self) -> SpecDiagnostic {
        SpecDiagnostic {
            severity: self.severity,
            code: self.code@,
            message: self.message@,
            line: self.line,
            column: self.column,
        }
    }
}

/// The views of a sequence of diagnostics.
pub open spec fn diag_views(v: Seq<Diagnostic>) -> Seq<SpecDiagnostic> {
    v.map_values(|d: Diagnostic| d@)
}

/// Warning about syntax that this compiler does not implement.
pub open spec fn unimplemented_diag(line: usize, message: Seq<char>) -> SpecDiagnostic {
    SpecDiagnostic {
        severity: DiagnosticSeverity::Warning,
        code: "UNIMPLEMENTED_SYNTAX"@,
        message,
        line,
        column: 1,
    }
}

/// Error in the source text.
pub open spec fn parse_error_diag(line: usize, message: Seq<char>) -> SpecDiagnostic {
    SpecDiagnostic {
        severity: DiagnosticSeverity::Error,
        code: "PARSE_ERROR"@,
        message,
        line,
        column: 1,
    }
}

/// `s` begins with `p`.
pub fn str_starts_with(s: &str, p: &str) -> (r: bool)
    ensures
        r == crate::text::starts_with(s@, p@),
{
    let m = p.unicode_len();
    let n = s.unicode_len();
    if m > n {
        return false;
    }
    let mut i: usize = 0;
    while i < m
        invariant
            i <= m == p@.len() <= s@.len() == n,
            forall|k: int| 0 <= k < i ==> s@[k] == p@[k],
        decreases m - i,
    {
        if s.get_char(i) != p.get_char(i) {
            assert(s@.take(m as int)[i as int] != p@[i as int]);
            return false;
        }
        i = i + 1;
    }
    assert(s@.take(m as int) =~= p@);
    true
}

impl Diagnostic {
    /// A warning, at column 1 of the line, about syntax that this compiler
    /// does not implement.
    pub fn unimplemented(line: usize, message: String) -> (d: Self)
        ensures
            d@ == unimplemented_diag(line, message@),
    {
        Diagnostic {
            severity: DiagnosticSeverity::Warning,
            code: "UNIMPLEMENTED_SYNTAX",
            message,
            line,
            column: 1,
        }
    }

    /// An error, at column 1 of the line, in the source text.
    pub fn parse_error(line: usize, message: String) -> (d: Self)
        ensures
            d@ == parse_error_diag(line, message@),
    {
        Diagnostic {
            severity: DiagnosticSeverity::Error,
            code: "PARSE_ERROR",
            message,
            line,
            column: 1,
        }
    }

    /// The diagnostic reports syntax that is not implemented (its code
    /// begins with `UNIMPLEMENTED`).
    pub fn is_unimplemented(&self) -> (r: bool)
        ensures
            r == crate::text::starts_with(self.code@, "UNIMPLEMENTED"@),
    {
        str_starts_with(self.code, "UNIMPLEMENTED")
    }
}

} // verus!
