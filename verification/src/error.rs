//! Position-tagged parse errors and their rendering to human-readable text.
//!
//! Every error carries a 1-based (line, column) source position.  Errors are
//! terminal: a parse either returns a complete tree or one error, never both.

use vstd::prelude::*;
use vstd::string::StringExecFns;

verus! {

/// What went wrong.
#[derive(Debug, PartialEq, Eq, Clone, Copy)]
pub enum ParseEbnfErrorType {
    /// End of input while a `"`-delimited string was still open.
    UnclosedString,
    /// End of input while a parenthesized group was still open.
    UnclosedParen,
    /// End of input while a `/`-delimited pattern was still open.
    UnclosedRegex,
    /// A character that cannot appear here (a bare newline inside a string,
    /// or a non-alphanumeric character inside a rule name).
    UnexpectedCharacter(char),
    /// A repetition or alternation operator with nothing before it, or an
    /// expression with no atoms at all.
    EmptyRule,
}

/// A parse error: the kind of fault and the 1-based position it was found at.
#[derive(Debug, PartialEq, Eq, Clone, Copy)]
pub struct ParseEbnfError {
    /// 1-based line of the offending position.
    pub line: usize,
    /// 1-based column of the offending position.
    pub column: usize,
    /// The kind of fault.
    pub errtype: ParseEbnfErrorType,
}

/// The spec-level mirror of [`ParseEbnfError`], with unbounded positions.
pub struct SpecError {
    /// Mirror of `ParseEbnfError::line`.
    pub line: int,
    /// Mirror of `ParseEbnfError::column`.
    pub column: int,
    /// Mirror of `ParseEbnfError::errtype`.
    pub errtype: ParseEbnfErrorType,
}

impl View for ParseEbnfError {
    type V = SpecError;

    open spec fn view(&self) -> SpecError {
        SpecError { line: self.line as int, column: self.column as int, errtype: self.errtype }
    }
}

/// The decimal digit character for `d`.
pub open spec fn spec_digit(d: int) -> char {
    if d == 0 {
        '0'
    } else if d == 1 {
        '1'
    } else if d == 2 {
        '2'
    } else if d == 3 {
        '3'
    } else if d == 4 {
        '4'
    } else if d == 5 {
        '5'
    } else if d == 6 {
        '6'
    } else if d == 7 {
        '7'
    } else if d == 8 {
        '8'
    } else {
        '9'
    }
}

/// The decimal representation of a non-negative number, most significant
/// digit first.
pub open spec fn spec_decimal(n: int) -> Seq<char>
    decreases n,
{
    if n < 10 {
        seq![spec_digit(n)]
    } else {
        spec_decimal(n / 10).push(spec_digit(n % 10))
    }
}

/// The human-readable message for an error, as rendered by
/// [`ParseEbnfError::message`].
pub open spec fn spec_message(e: SpecError) -> Seq<char> {
    match e.errtype {
        ParseEbnfErrorType::UnclosedString => "Unclosed String, expected '\"' at line "@
            + spec_decimal(e.line) + ", column "@ + spec_decimal(e.column) + "!"@,
        ParseEbnfErrorType::UnclosedParen => "Unclosed Parentheses, expected ')' at line "@
            + spec_decimal(e.line) + ", column "@ + spec_decimal(e.column) + "!"@,
        ParseEbnfErrorType::UnclosedRegex => "Unclosed Regex, expected '/' at line "@
            + spec_decimal(e.line) + ", column "@ + spec_decimal(e.column) + "!"@,
        ParseEbnfErrorType::UnexpectedCharacter(c) => "Unexpected '"@ + seq![c] + "' at line "@
            + spec_decimal(e.line) + ", column "@ + spec_decimal(e.column) + "!"@,
        ParseEbnfErrorType::EmptyRule => "Empty rule in line "@ + spec_decimal(e.line)
            + ", column "@ + spec_decimal(e.column) + "!"@,
    }
}

/// Relies on `String::push`: it appends exactly the one given character.
#[verifier::external_body]
pub(crate) fn push_char(s: &mut String, c: char)
    ensures
        final(s)@ == old(s)@.push(c),
{
    s.push(c);
}

/// The digit character for `d`, executable side.
fn digit_char(d: usize) -> (r: char)
    requires
        d < 10,
    ensures
        r == spec_digit(d as int),
{
    if d == 0 {
        '0'
    } else if d == 1 {
        '1'
    } else if d == 2 {
        '2'
    } else if d == 3 {
        '3'
    } else if d == 4 {
        '4'
    } else if d == 5 {
        '5'
    } else if d == 6 {
        '6'
    } else if d == 7 {
        '7'
    } else if d == 8 {
        '8'
    } else {
        '9'
    }
}

/// Renders `n` in decimal.
fn decimal_string(n: usize) -> (r: String)
    ensures
        r@ == spec_decimal(n as int),
    decreases n,
{
    if n < 10 {
        let mut s = String::new();
        push_char(&mut s, digit_char(n));
        proof {
            assert(s@ =~= spec_decimal(n as int));
        }
        s
    } else {
        let mut s = decimal_string(n / 10);
        push_char(&mut s, digit_char(n % 10));
        s
    }
}

impl ParseEbnfError {
    /// Renders the error as human text, kind-specific wording plus the
    /// 1-based position.
    pub fn message(&self) -> (r: String)
        ensures
            r@ == spec_message(self@),
    {
        let line_s = decimal_string(self.line);
        let column_s = decimal_string(self.column);
        let mut out = String::new();
        match self.errtype {
            ParseEbnfErrorType::UnclosedString => {
                out.append("Unclosed String, expected '\"' at line ");
            },
            ParseEbnfErrorType::UnclosedParen => {
                out.append("Unclosed Parentheses, expected ')' at line ");
            },
            ParseEbnfErrorType::UnclosedRegex => {
                out.append("Unclosed Regex, expected '/' at line ");
            },
            ParseEbnfErrorType::UnexpectedCharacter(c) => {
                out.append("Unexpected '");
                push_char(&mut out, c);
                out.append("' at line ");
            },
            ParseEbnfErrorType::EmptyRule => {
                out.append("Empty rule in line ");
            },
        }
        out.append(line_s.as_str());
        out.append(", column ");
        out.append(column_s.as_str());
        out.append("!");
        proof {
            assert(out@ =~= spec_message(self@));
        }
        out
    }
}

} // verus!
