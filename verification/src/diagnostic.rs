//! Lexical diagnostics: what went wrong, and on which line.

use vstd::prelude::*;
use vstd::string::StringExecFns;

verus! {

/// The two ways in which a lexeme can be malformed.
#[derive(Debug, Clone, Copy, PartialEq, Eq, Structural)]
pub enum DiagnosticKind {
    /// A string literal whose closing quote never came.
    UnterminatedString,
    /// A character that begins no lexeme.
    UnexpectedCharacter(char),
}

/// A diagnostic, tagged with the 1-based line that was current when the scanner
/// met the malformed lexeme.
#[derive(Debug, Clone, Copy, PartialEq, Eq, Structural)]
pub struct Diagnostic {
    pub kind: DiagnosticKind,
    pub line: u32,
}

/// What a [`Diagnostic`] is, as mathematics.
pub struct DiagnosticView {
    pub kind: DiagnosticKind,
    pub line: int,
}

impl View for Diagnostic {
    type V = DiagnosticView;

    open spec fn view(&self) -> DiagnosticView {
        DiagnosticView { kind: self.kind, line: self.line as int }
    }
}

/// The views of a sequence of diagnostics, in order.
pub open spec fn diagnostic_views(diagnostics: Seq<Diagnostic>) -> Seq<DiagnosticView> {
    diagnostics.map_values(|d: Diagnostic| d@)
}

/// Pushing a diagnostic pushes its view.
pub proof fn lemma_diagnostic_views_push(diagnostics: Seq<Diagnostic>, diagnostic: Diagnostic)
    ensures
        diagnostic_views(diagnostics.push(diagnostic)) == diagnostic_views(diagnostics).push(
            diagnostic@,
        ),
{
    assert(diagnostic_views(diagnostics.push(diagnostic)) =~= diagnostic_views(diagnostics).push(
        diagnostic@,
    ));
}

/// The character that writes the digit `d`.
pub open spec fn digit_char(d: int) -> char {
    ('0' as int + d) as char
}

/// The decimal numeral of `n`, without sign or leading zeros.
pub open spec fn decimal(n: int) -> Seq<char>
    decreases n,
{
    if n < 10 {
        seq![digit_char(n)]
    } else {
        decimal(n / 10).push(digit_char(n % 10))
    }
}

impl DiagnosticView {
    /// What the diagnostic says, without the line tag.
    pub open spec fn description(self) -> Seq<char> {
        match self.kind {
            DiagnosticKind::UnterminatedString => "Unterminated string"@,
            DiagnosticKind::UnexpectedCharacter(c) => "Unexpected character: "@.push(c),
        }
    }

    /// The full report: `[line <n>] Error: <description>`.
    pub open spec fn message(self) -> Seq<char> {
        "[line "@ + decimal(self.line) + "] Error: "@ + self.description()
    }
}

/// Appends the decimal numeral of `n` to `out`.
fn push_decimal(out: &mut String, n: u32)
    ensures
        final(out)@ == old(out)@ + decimal(n as int),
    decreases n,
{
    if n >= 10 {
        push_decimal(out, n / 10);
    }
    let d: u8 = (n % 10) as u8;
    out.push((48u8 + d) as char);
    assert(final(out)@ =~= old(out)@ + decimal(n as int)) by {
        assert('0' as int == 48);
    }
}

impl Diagnostic {
    pub fn new(kind: DiagnosticKind, line: u32) -> (diagnostic: Self)
        ensures
            diagnostic.kind == kind,
            diagnostic.line == line,
    {
        Diagnostic { kind, line }
    }

    /// The full report, as it is written to the error channel.
    pub fn message(&self) -> (text: String)
        ensures
            text@ == self@.message(),
    {
        let mut text = String::from_str("[line ");
        push_decimal(&mut text, self.line);
        text.append("] Error: ");
        match self.kind {
            DiagnosticKind::UnterminatedString => {
                text.append("Unterminated string");
            },
            DiagnosticKind::UnexpectedCharacter(c) => {
                text.append("Unexpected character: ");
                text.push(c);
            },
        }
        assert(text@ =~= self@.message());
        text
    }
}

} // verus!
