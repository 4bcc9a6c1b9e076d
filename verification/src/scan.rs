//! The mathematical scanner: a recursive spec function that defines, once and
//! for all, what parsing an expression or a document means.
//!
//! One left-to-right pass over the characters, with the scanner in exactly one
//! mode at a time (default with or without a bare word in progress, inside a
//! string, inside a parenthesized group, inside a regex literal) and an
//! ordered stack of the atoms collected so far.  Groups and the right-hand
//! side of an alternation are handled by recursing into the same scanner on
//! the enclosed text.  The rule-set scanner alternates between seeking a rule
//! name, reading it, and handing the body text to the same expression scanner
//! with `;` as an additional top-level terminator.
//!
//! Positions are 1-based.  A newline, in any mode, puts the following
//! character at column 1 of the next line, so positions stay exact across
//! multi-line strings, groups and regex literals.  The enclosed text of a
//! group is scanned starting at the position just after the opening `(`,
//! which keeps errors inside multi-line groups exact as well.

use crate::ast::SpecStatement;
use crate::ast::SpecRule;
use crate::error::ParseEbnfErrorType;
use crate::error::SpecError;
use vstd::prelude::*;

verus! {

/// The scanner's mode: what the characters read so far have left open.
///
/// `start` is the index of the bare word's first character, or of the opening
/// delimiter.  `gline`/`gcolumn` remember the position of the opening `(` so
/// the enclosed text can be scanned with exact positions.
pub enum Mode {
    /// Default mode, no token in progress.
    Gap,
    /// Default mode, a bare word in progress since `start`.
    Word { start: int },
    /// Inside a `"`-delimited string; `escaped` means the character before
    /// was an unconsumed `\`.
    InString { start: int, escaped: bool },
    /// Inside a parenthesized group, `depth` parens deep.
    InGroup { start: int, depth: int, gline: int, gcolumn: int },
    /// Inside a `/`-delimited regex literal.
    InRegex { start: int },
}

/// A finished scan: the statement, the index just past the consumed text
/// (past the `;` when one terminated a rule body), and the position of the
/// first unconsumed character.
pub struct ScanOk {
    /// The parsed expression.
    pub stmt: SpecStatement,
    /// Index just past the consumed text.
    pub end: int,
    /// Line of the first unconsumed character.
    pub line: int,
    /// Column of the first unconsumed character.
    pub column: int,
}

/// The line after consuming `c` at line `line`.
pub open spec fn line_after(c: char, line: int) -> int {
    if c == '\n' {
        line + 1
    } else {
        line
    }
}

/// The column after consuming `c` at column `column`.
pub open spec fn column_after(c: char, column: int) -> int {
    if c == '\n' {
        1
    } else {
        column + 1
    }
}

/// Whitespace: closes a bare word and otherwise separates atoms.
pub open spec fn is_ws(c: char) -> bool {
    c == ' ' || c == '\n' || c == '\t'
}

/// The characters that act in default mode rather than extending a bare
/// word.  `;` acts only while scanning a rule body.
pub open spec fn is_special(c: char, body: bool) -> bool {
    is_ws(c) || c == '"' || c == '(' || c == '/' || c == '?' || c == '*' || c == '+' || c == '|'
        || (body && c == ';')
}

/// One collected atom, or the ordered concatenation of several.  A single
/// atom is never wrapped.
pub open spec fn combine(stack: Seq<SpecStatement>) -> SpecStatement
    recommends
        stack.len() >= 1,
{
    if stack.len() == 1 {
        stack[0]
    } else {
        SpecStatement::Concatenation { rules: stack }
    }
}

/// The scan result at an end of input or at a terminating `;`: the collected
/// atoms combined, or `EmptyRule` when there are none.
pub open spec fn finish(stack: Seq<SpecStatement>, end: int, line: int, column: int) -> Result<
    ScanOk,
    SpecError,
> {
    if stack.len() == 0 {
        Err(SpecError { line, column, errtype: ParseEbnfErrorType::EmptyRule })
    } else {
        Ok(ScanOk { stmt: combine(stack), end, line, column })
    }
}

/// The postfix repetition operators wrap the atom before them.
pub open spec fn wrap_repetition(c: char, inner: SpecStatement) -> SpecStatement {
    if c == '?' {
        SpecStatement::Optional { rule: Box::new(inner) }
    } else if c == '*' {
        SpecStatement::ZeroOrMore { rule: Box::new(inner) }
    } else {
        SpecStatement::OneOrMore { rule: Box::new(inner) }
    }
}

/// The scanner, from index `i` in default mode with `stack` collected, about
/// to act on the special character `c == s[i]` at position (`line`,
/// `column`).  Shares the default-mode behaviour between the bare-word and
/// no-word cases of [`scan`].
pub open spec fn scan_special(
    s: Seq<char>,
    i: int,
    stack: Seq<SpecStatement>,
    line: int,
    column: int,
    body: bool,
) -> Result<ScanOk, SpecError>
    decreases s.len(), s.len() - i, 0int,
{
    let c = s[i];
    if !(0 <= i < s.len()) {
        Err(SpecError { line, column, errtype: ParseEbnfErrorType::EmptyRule })
    } else if is_ws(c) {
        scan(s, i + 1, stack, Mode::Gap, line_after(c, line), column_after(c, column), body)
    } else if c == '"' {
        scan(s, i + 1, stack, Mode::InString { start: i, escaped: false }, line, column + 1, body)
    } else if c == '(' {
        scan(
            s,
            i + 1,
            stack,
            Mode::InGroup { start: i, depth: 1, gline: line, gcolumn: column },
            line,
            column + 1,
            body,
        )
    } else if c == '/' {
        scan(s, i + 1, stack, Mode::InRegex { start: i }, line, column + 1, body)
    } else if c == '?' || c == '*' || c == '+' {
        if stack.len() == 0 {
            Err(SpecError { line, column, errtype: ParseEbnfErrorType::EmptyRule })
        } else {
            scan(
                s,
                i + 1,
                stack.drop_last().push(wrap_repetition(c, stack.last())),
                Mode::Gap,
                line,
                column + 1,
                body,
            )
        }
    } else if c == '|' {
        if stack.len() == 0 {
            Err(SpecError { line, column, errtype: ParseEbnfErrorType::EmptyRule })
        } else {
            match scan(
                s.subrange(i + 1, s.len() as int),
                0,
                Seq::empty(),
                Mode::Gap,
                line,
                column + 1,
                body,
            ) {
                Ok(o) => Ok(
                    ScanOk {
                        stmt: SpecStatement::Alternation {
                            left: Box::new(combine(stack)),
                            right: Box::new(o.stmt),
                        },
                        end: i + 1 + o.end,
                        line: o.line,
                        column: o.column,
                    },
                ),
                Err(e) => Err(e),
            }
        }
    } else {
        // `;`, special only in a rule body: terminates it like an end of
        // input, with the `;` itself consumed.
        if stack.len() == 0 {
            Err(SpecError { line, column, errtype: ParseEbnfErrorType::EmptyRule })
        } else {
            Ok(ScanOk { stmt: combine(stack), end: i + 1, line, column: column + 1 })
        }
    }
}

/// The scanner: what scanning `s` from index `i` onward yields, with `stack`
/// already collected, the scanner in `mode`, and `s[i]` sitting at position
/// (`line`, `column`).  With `body` the text is a rule body, terminated by an
/// unescaped top-level `;`; without, only the end of input terminates it.
pub open spec fn scan(
    s: Seq<char>,
    i: int,
    stack: Seq<SpecStatement>,
    mode: Mode,
    line: int,
    column: int,
    body: bool,
) -> Result<ScanOk, SpecError>
    decreases s.len(), s.len() - i, 1int,
{
    if i < 0 {
        Err(SpecError { line, column, errtype: ParseEbnfErrorType::EmptyRule })
    } else if i >= s.len() {
        match mode {
            Mode::InString { .. } => Err(
                SpecError { line, column, errtype: ParseEbnfErrorType::UnclosedString },
            ),
            Mode::InGroup { .. } => Err(
                SpecError { line, column, errtype: ParseEbnfErrorType::UnclosedParen },
            ),
            Mode::InRegex { .. } => Err(
                SpecError { line, column, errtype: ParseEbnfErrorType::UnclosedRegex },
            ),
            Mode::Word { start } => finish(
                stack.push(SpecStatement::DefinedRule { rulename: s.subrange(start, i) }),
                i,
                line,
                column,
            ),
            Mode::Gap => finish(stack, i, line, column),
        }
    } else {
        let c = s[i];
        let nl = line_after(c, line);
        let nc = column_after(c, column);
        match mode {
            Mode::InString { start, escaped } => {
                if escaped {
                    scan(s, i + 1, stack, Mode::InString { start, escaped: false }, nl, nc, body)
                } else if c == '"' {
                    scan(
                        s,
                        i + 1,
                        stack.push(
                            SpecStatement::StringTerminal { string: s.subrange(start + 1, i) },
                        ),
                        Mode::Gap,
                        nl,
                        nc,
                        body,
                    )
                } else if c == '\n' {
                    Err(
                        SpecError {
                            line,
                            column,
                            errtype: ParseEbnfErrorType::UnexpectedCharacter('\n'),
                        },
                    )
                } else if c == '\\' {
                    scan(s, i + 1, stack, Mode::InString { start, escaped: true }, nl, nc, body)
                } else {
                    scan(s, i + 1, stack, Mode::InString { start, escaped: false }, nl, nc, body)
                }
            },
            Mode::InGroup { start, depth, gline, gcolumn } => {
                if c == '(' {
                    scan(
                        s,
                        i + 1,
                        stack,
                        Mode::InGroup { start, depth: depth + 1, gline, gcolumn },
                        nl,
                        nc,
                        body,
                    )
                } else if c == ')' {
                    if depth == 1 {
                        if 0 <= start < i {
                            match scan(
                                s.subrange(start + 1, i),
                                0,
                                Seq::empty(),
                                Mode::Gap,
                                gline,
                                gcolumn + 1,
                                false,
                            ) {
                                Ok(o) => scan(s, i + 1, stack.push(o.stmt), Mode::Gap, nl, nc, body),
                                Err(e) => Err(e),
                            }
                        } else {
                            // Unreachable from a real scan: the opening `(`
                            // always lies before the closing `)`.
                            Err(SpecError { line, column, errtype: ParseEbnfErrorType::EmptyRule })
                        }
                    } else {
                        scan(
                            s,
                            i + 1,
                            stack,
                            Mode::InGroup { start, depth: depth - 1, gline, gcolumn },
                            nl,
                            nc,
                            body,
                        )
                    }
                } else {
                    scan(
                        s,
                        i + 1,
                        stack,
                        Mode::InGroup { start, depth, gline, gcolumn },
                        nl,
                        nc,
                        body,
                    )
                }
            },
            Mode::InRegex { start } => {
                if c == '/' {
                    scan(
                        s,
                        i + 1,
                        stack.push(SpecStatement::RegexTerminal { string: s.subrange(start + 1, i) }),
                        Mode::Gap,
                        nl,
                        nc,
                        body,
                    )
                } else {
                    scan(s, i + 1, stack, Mode::InRegex { start }, nl, nc, body)
                }
            },
            Mode::Word { start } => {
                if is_special(c, body) {
                    scan_special(
                        s,
                        i,
                        stack.push(SpecStatement::DefinedRule { rulename: s.subrange(start, i) }),
                        line,
                        column,
                        body,
                    )
                } else {
                    scan(s, i + 1, stack, Mode::Word { start }, nl, nc, body)
                }
            },
            Mode::Gap => {
                if is_special(c, body) {
                    scan_special(s, i, stack, line, column, body)
                } else {
                    scan(s, i + 1, stack, Mode::Word { start: i }, nl, nc, body)
                }
            },
        }
    }
}

/// In default mode with no word in progress, a special character is acted on
/// by [`scan_special`].
pub proof fn lemma_scan_gap_special(
    s: Seq<char>,
    i: int,
    stack: Seq<SpecStatement>,
    line: int,
    column: int,
    body: bool,
)
    requires
        0 <= i < s.len(),
        is_special(s[i], body),
    ensures
        scan(s, i, stack, Mode::Gap, line, column, body) == scan_special(
            s,
            i,
            stack,
            line,
            column,
            body,
        ),
{
}

/// In default mode with a word in progress, a special character first closes
/// the word as a rule-reference atom, then is acted on by [`scan_special`].
pub proof fn lemma_scan_word_special(
    s: Seq<char>,
    i: int,
    stack: Seq<SpecStatement>,
    start: int,
    line: int,
    column: int,
    body: bool,
)
    requires
        0 <= i < s.len(),
        is_special(s[i], body),
    ensures
        scan(s, i, stack, Mode::Word { start }, line, column, body) == scan_special(
            s,
            i,
            stack.push(SpecStatement::DefinedRule { rulename: s.subrange(start, i) }),
            line,
            column,
            body,
        ),
{
}

/// What parsing one expression text means: the scan of all of `s`, started
/// in default mode at position (`line`, `column`), keeping only the
/// statement.
pub open spec fn spec_parse_statement(s: Seq<char>, line: int, column: int) -> Result<
    SpecStatement,
    SpecError,
> {
    match scan(s, 0, Seq::empty(), Mode::Gap, line, column, false) {
        Ok(o) => Ok(o.stmt),
        Err(e) => Err(e),
    }
}

/// The rule-set scanner's mode: between rules, or inside a rule name.
pub enum RulesMode {
    /// Skipping characters until an alphanumeric one starts a rule name.
    Seeking,
    /// Reading a rule name since `start`.
    InName { start: int },
}

/// What `char::is_alphanumeric` holds of a character; a rule name is a run
/// of such characters.
pub uninterp spec fn spec_is_alphanumeric(c: char) -> bool;

/// The rule-set scanner: scanning the document `s` from index `i`, at
/// position (`line`, `column`) in `mode`, with the rules of `acc` already
/// collected in document order.
///
/// In `Seeking`, any non-alphanumeric character is skipped.  In `InName`, a
/// `:` closes the name and hands the rest of the document to [`scan`] as a
/// rule body (terminated by `;` or by the end of input); the scan resumes
/// after the body.  Any other non-alphanumeric character in a name is an
/// `UnexpectedCharacter` error.  A trailing name fragment that the end of
/// input cuts off before its `:` is discarded, like any other text between
/// rules.
pub open spec fn scan_rules(
    s: Seq<char>,
    i: int,
    mode: RulesMode,
    line: int,
    column: int,
    acc: Seq<SpecRule>,
) -> Result<Seq<SpecRule>, SpecError>
    decreases s.len() - i,
{
    if !(0 <= i < s.len()) {
        Ok(acc)
    } else {
        let c = s[i];
        let nl = line_after(c, line);
        let nc = column_after(c, column);
        match mode {
            RulesMode::Seeking => {
                if spec_is_alphanumeric(c) {
                    scan_rules(s, i + 1, RulesMode::InName { start: i }, nl, nc, acc)
                } else {
                    scan_rules(s, i + 1, RulesMode::Seeking, nl, nc, acc)
                }
            },
            RulesMode::InName { start } => {
                if c == ':' {
                    match scan(
                        s.subrange(i + 1, s.len() as int),
                        0,
                        Seq::empty(),
                        Mode::Gap,
                        line,
                        column + 1,
                        true,
                    ) {
                        Ok(o) => {
                            let rule = SpecRule { name: s.subrange(start, i), rule: o.stmt };
                            if 0 <= o.end && i + 1 + o.end <= s.len() {
                                scan_rules(
                                    s,
                                    i + 1 + o.end,
                                    RulesMode::Seeking,
                                    o.line,
                                    o.column,
                                    acc.push(rule),
                                )
                            } else {
                                // Unreachable from a real scan: a body never
                                // consumes past the end of its text.
                                Ok(acc.push(rule))
                            }
                        },
                        Err(e) => Err(e),
                    }
                } else if spec_is_alphanumeric(c) {
                    scan_rules(s, i + 1, RulesMode::InName { start }, nl, nc, acc)
                } else {
                    Err(SpecError { line, column, errtype: ParseEbnfErrorType::UnexpectedCharacter(c) })
                }
            },
        }
    }
}

/// What parsing a whole grammar document means: the rule-set scan of all of
/// `s` from position (1, 1).
pub open spec fn spec_parse_rules(s: Seq<char>) -> Result<Seq<SpecRule>, SpecError> {
    scan_rules(s, 0, RulesMode::Seeking, 1, 1, Seq::empty())
}

} // verus!
