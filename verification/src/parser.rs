//! The executable parsers, each proved equal to the mathematical scanner of
//! [`crate::scan`].
//!
//! [`parse_expression`] is the one scanning routine both public parsers
//! share: [`EbnfStatement::new`] runs it over a whole expression text, and
//! [`EbnfParser::from_str`] runs it, with `;` as an additional top-level
//! terminator, over each rule body of a document.

use crate::ast::EbnfRule;
use crate::ast::EbnfStatement;
use crate::ast::lemma_view_stmts_drop_last;
use crate::ast::lemma_view_stmts_index;
use crate::ast::lemma_view_stmts_len;
use crate::ast::lemma_view_stmts_push;
use crate::ast::lemma_view_rules_push;
use crate::ast::view_rules;
use crate::ast::view_stmts;
use crate::error::ParseEbnfError;
use crate::error::ParseEbnfErrorType;
use crate::scan::Mode;
use crate::scan::RulesMode;
use crate::scan::combine;
use crate::scan::scan;
use crate::scan::scan_rules;
use crate::scan::spec_is_alphanumeric;
use crate::scan::spec_parse_rules;
use crate::scan::spec_parse_statement;
use vstd::prelude::*;
use vstd::string::StrSliceExecFns;

verus! {

/// Relies on `char::is_alphanumeric`: a deterministic property of the
/// character alone.  Its documentation gives that ASCII letters and digits
/// are alphanumeric and that ASCII whitespace and punctuation are not.
#[verifier::external_body]
pub(crate) fn char_is_alphanumeric(c: char) -> (r: bool)
    ensures
        r == spec_is_alphanumeric(c),
        ('a' <= c && c <= 'z') ==> r,
        ('A' <= c && c <= 'Z') ==> r,
        ('0' <= c && c <= '9') ==> r,
        (c == ':' || c == ';' || c == ' ' || c == '\n' || c == '\t' || c == '"' || c == '('
            || c == ')' || c == '/' || c == '?' || c == '*' || c == '+' || c == '|' || c == '\\'
            || c == '.' || c == ',') ==> !r,
{
    c.is_alphanumeric()
}

/// The executable scanner mode, mirroring [`Mode`] with machine integers.
pub enum ScanMode {
    /// Mirror of `Mode::Gap`.
    Gap,
    /// Mirror of `Mode::Word`.
    Word { start: usize },
    /// Mirror of `Mode::InString`.
    InString { start: usize, escaped: bool },
    /// Mirror of `Mode::InGroup`.
    InGroup { start: usize, depth: usize, gline: usize, gcolumn: usize },
    /// Mirror of `Mode::InRegex`.
    InRegex { start: usize },
}

impl View for ScanMode {
    type V = Mode;

    open spec fn view(&self) -> Mode {
        match self {
            ScanMode::Gap => Mode::Gap,
            ScanMode::Word { start } => Mode::Word { start: *start as int },
            ScanMode::InString { start, escaped } => Mode::InString {
                start: *start as int,
                escaped: *escaped,
            },
            ScanMode::InGroup { start, depth, gline, gcolumn } => Mode::InGroup {
                start: *start as int,
                depth: *depth as int,
                gline: *gline as int,
                gcolumn: *gcolumn as int,
            },
            ScanMode::InRegex { start } => Mode::InRegex { start: *start as int },
        }
    }
}

/// What the loop of [`parse_expression`] keeps true of its mode besides the
/// scanner correspondence: token starts lie before the cursor, a group is at
/// least one paren deep, and the position remembered for a group's enclosed
/// text leaves room to scan the rest of the input.
spec fn mode_inv(mode: ScanMode, i: int, n: int) -> bool {
    match mode {
        ScanMode::Gap => true,
        ScanMode::Word { start } => start < i,
        ScanMode::InString { start, .. } => start < i,
        ScanMode::InRegex { start } => start < i,
        ScanMode::InGroup { start, depth, gline, gcolumn } => start < i && 1 <= depth <= i
            && gline + (n - start) <= usize::MAX && gcolumn + (n - start) <= usize::MAX,
    }
}

/// A finished expression scan: the statement, the index just past the
/// consumed text, and the position of the first unconsumed character.
pub struct ParsedExpression {
    /// The parsed expression.
    pub statement: EbnfStatement,
    /// Index just past the consumed text: past the terminating `;` of a rule
    /// body, or the text's length.
    pub end: usize,
    /// Line of the first unconsumed character.
    pub line: usize,
    /// Column of the first unconsumed character.
    pub column: usize,
}

/// One collected atom as it stands, or several as a `Concatenation`.
fn combine_statements(stack: Vec<EbnfStatement>) -> (r: EbnfStatement)
    requires
        stack@.len() >= 1,
    ensures
        r@ == combine(view_stmts(stack@)),
{
    proof {
        lemma_view_stmts_len(stack@);
    }
    if stack.len() == 1 {
        let ghost stack0 = stack@;
        let mut stack = stack;
        let r = stack.pop().unwrap();
        proof {
            lemma_view_stmts_index(stack0, 0);
        }
        r
    } else {
        EbnfStatement::Concatenation { rules: stack }
    }
}

/// Scans one expression text, starting in default mode with `s[0]` at the
/// 1-based position (`startline`, `startcolumn`).  With `body` the text is a
/// rule body: an unescaped top-level `;` terminates it (consumed); without,
/// the whole text is one expression.  Returns exactly what the mathematical
/// scanner [`scan`] yields on the text's characters.
pub fn parse_expression(s: &str, startline: usize, startcolumn: usize, body: bool) -> (r: Result<
    ParsedExpression,
    ParseEbnfError,
>)
    requires
        startline + s@.len() <= usize::MAX,
        startcolumn + s@.len() <= usize::MAX,
    ensures
        (match scan(s@, 0, Seq::empty(), Mode::Gap, startline as int, startcolumn as int, body) {
            Ok(o) => r matches Ok(pe) && pe.statement@ == o.stmt && pe.end == o.end
                && pe.line == o.line && pe.column == o.column,
            Err(e) => r matches Err(pe) && pe@ == e,
        }),
        (r matches Ok(pe) ==> pe.end <= s@.len() && pe.line + (s@.len() - pe.end) <= usize::MAX
            && pe.column + (s@.len() - pe.end) <= usize::MAX),
    decreases s@.len(), 1int,
{
    let n = s.unicode_len();
    let mut i: usize = 0;
    let mut line = startline;
    let mut column = startcolumn;
    let mut stack: Vec<EbnfStatement> = Vec::new();
    let mut mode = ScanMode::Gap;
    while i < n
        invariant
            n == s@.len(),
            i <= n,
            line + (n - i) <= usize::MAX,
            column + (n - i) <= usize::MAX,
            mode_inv(mode, i as int, n as int),
            scan(s@, 0, Seq::empty(), Mode::Gap, startline as int, startcolumn as int, body)
                == scan(
                s@,
                i as int,
                view_stmts(stack@),
                mode@,
                line as int,
                column as int,
                body,
            ),
        decreases n - i,
    {
        let ghost pre_i = i as int;
        let ghost pre_stack = stack@;
        let ghost pre_mode = mode@;
        let ghost pre_line = line as int;
        let ghost pre_column = column as int;
        let c = s.get_char(i);
        let special = c == ' ' || c == '\n' || c == '\t' || c == '"' || c == '(' || c == '/'
            || c == '?' || c == '*' || c == '+' || c == '|' || (body && c == ';');
        // In default mode a special character first closes an in-progress
        // bare word as a rule-reference atom.
        if special {
            if let ScanMode::Word { start } = mode {
                let word = s.substring_char(start, i);
                let atom = EbnfStatement::DefinedRule { rulename: word.to_owned() };
                let ghost atom_v = atom@;
                stack.push(atom);
                mode = ScanMode::Gap;
                proof {
                    lemma_view_stmts_push(pre_stack, stack@.last());
                    assert(view_stmts(stack@) == view_stmts(pre_stack).push(atom_v));
                    crate::scan::lemma_scan_word_special(
                        s@,
                        pre_i,
                        view_stmts(pre_stack),
                        start as int,
                        pre_line,
                        pre_column,
                        body,
                    );
                }
            }
        }
        let ghost mid_stack = stack@;
        let ghost mid_mode = mode@;
        proof {
            if special && mid_mode is Gap {
                crate::scan::lemma_scan_gap_special(
                    s@,
                    pre_i,
                    view_stmts(mid_stack),
                    pre_line,
                    pre_column,
                    body,
                );
            }
            // Closing the word rewrites the scan state without moving it.
            assert(scan(s@, pre_i, view_stmts(pre_stack), pre_mode, pre_line, pre_column, body)
                == scan(s@, pre_i, view_stmts(mid_stack), mid_mode, pre_line, pre_column, body));
        }
        match mode {
            ScanMode::InString { start, escaped } => {
                if escaped {
                    mode = ScanMode::InString { start, escaped: false };
                } else if c == '"' {
                    let text = s.substring_char(start + 1, i);
                    let atom = EbnfStatement::StringTerminal { string: text.to_owned() };
                    stack.push(atom);
                    mode = ScanMode::Gap;
                    proof {
                        lemma_view_stmts_push(mid_stack, stack@.last());
                        assert(stack@.drop_last() =~= mid_stack);
                        assert(view_stmts(stack@) == view_stmts(mid_stack).push(stack@.last()@));
                    }
                } else if c == '\n' {
                    return Err(
                        ParseEbnfError {
                            line,
                            column,
                            errtype: ParseEbnfErrorType::UnexpectedCharacter('\n'),
                        },
                    );
                } else if c == '\\' {
                    mode = ScanMode::InString { start, escaped: true };
                }
            },
            ScanMode::InGroup { start, depth, gline, gcolumn } => {
                if c == '(' {
                    mode = ScanMode::InGroup { start, depth: depth + 1, gline, gcolumn };
                } else if c == ')' {
                    if depth == 1 {
                        let enclosed = s.substring_char(start + 1, i);
                        match parse_expression(enclosed, gline, gcolumn + 1, false) {
                            Ok(pe) => {
                                stack.push(pe.statement);
                                mode = ScanMode::Gap;
                                proof {
                                    lemma_view_stmts_push(mid_stack, stack@.last());
                                    assert(stack@.drop_last() =~= mid_stack);
                                }
                            },
                            Err(e) => {
                                return Err(e);
                            },
                        }
                    } else {
                        mode = ScanMode::InGroup { start, depth: depth - 1, gline, gcolumn };
                    }
                }
            },
            ScanMode::InRegex { start } => {
                if c == '/' {
                    let text = s.substring_char(start + 1, i);
                    let atom = EbnfStatement::RegexTerminal { string: text.to_owned() };
                    stack.push(atom);
                    mode = ScanMode::Gap;
                    proof {
                        lemma_view_stmts_push(mid_stack, stack@.last());
                        assert(stack@.drop_last() =~= mid_stack);
                    }
                }
            },
            ScanMode::Word { .. } => {
                // `special` is false here: a special character would have
                // closed the word above.
            },
            ScanMode::Gap => {
                if c == ' ' || c == '\n' || c == '\t' {
                    // Whitespace separates atoms; nothing is in progress.
                } else if c == '"' {
                    mode = ScanMode::InString { start: i, escaped: false };
                } else if c == '(' {
                    mode = ScanMode::InGroup { start: i, depth: 1, gline: line, gcolumn: column };
                } else if c == '/' {
                    mode = ScanMode::InRegex { start: i };
                } else if c == '?' || c == '*' || c == '+' {
                    if stack.len() == 0 {
                        proof {
                            lemma_view_stmts_len(mid_stack);
                        }
                        return Err(
                            ParseEbnfError { line, column, errtype: ParseEbnfErrorType::EmptyRule },
                        );
                    }
                    proof {
                        lemma_view_stmts_len(mid_stack);
                        lemma_view_stmts_drop_last(mid_stack);
                    }
                    let last = stack.pop().unwrap();
                    let wrapped = if c == '?' {
                        EbnfStatement::Optional { rule: Box::new(last) }
                    } else if c == '*' {
                        EbnfStatement::ZeroOrMore { rule: Box::new(last) }
                    } else {
                        EbnfStatement::OneOrMore { rule: Box::new(last) }
                    };
                    stack.push(wrapped);
                    proof {
                        lemma_view_stmts_push(mid_stack.drop_last(), stack@.last());
                        assert(stack@.drop_last() =~= mid_stack.drop_last());
                    }
                } else if c == '|' {
                    if stack.len() == 0 {
                        proof {
                            lemma_view_stmts_len(mid_stack);
                        }
                        return Err(
                            ParseEbnfError { line, column, errtype: ParseEbnfErrorType::EmptyRule },
                        );
                    }
                    proof {
                        lemma_view_stmts_len(mid_stack);
                    }
                    let left = combine_statements(stack);
                    let rest = s.substring_char(i + 1, n);
                    match parse_expression(rest, line, column + 1, body) {
                        Ok(pe) => {
                            return Ok(
                                ParsedExpression {
                                    statement: EbnfStatement::Alternation {
                                        left: Box::new(left),
                                        right: Box::new(pe.statement),
                                    },
                                    end: i + 1 + pe.end,
                                    line: pe.line,
                                    column: pe.column,
                                },
                            );
                        },
                        Err(e) => {
                            return Err(e);
                        },
                    }
                } else if body && c == ';' {
                    if stack.len() == 0 {
                        proof {
                            lemma_view_stmts_len(mid_stack);
                        }
                        return Err(
                            ParseEbnfError { line, column, errtype: ParseEbnfErrorType::EmptyRule },
                        );
                    }
                    proof {
                        lemma_view_stmts_len(mid_stack);
                    }
                    let stmt = combine_statements(stack);
                    return Ok(
                        ParsedExpression { statement: stmt, end: i + 1, line, column: column + 1 },
                    );
                } else {
                    mode = ScanMode::Word { start: i };
                }
            },
        }
        if c == '\n' {
            line = line + 1;
            column = 1;
        } else {
            column = column + 1;
        }
        i = i + 1;
        proof {
            // One scanner step.
            assert(scan(s@, pre_i, view_stmts(mid_stack), mid_mode, pre_line, pre_column, body)
                == scan(
                s@,
                i as int,
                view_stmts(stack@),
                mode@,
                line as int,
                column as int,
                body,
            ));
        }
    }
    // End of input.
    proof {
        lemma_view_stmts_len(stack@);
    }
    match mode {
        ScanMode::InString { .. } => Err(
            ParseEbnfError { line, column, errtype: ParseEbnfErrorType::UnclosedString },
        ),
        ScanMode::InGroup { .. } => Err(
            ParseEbnfError { line, column, errtype: ParseEbnfErrorType::UnclosedParen },
        ),
        ScanMode::InRegex { .. } => Err(
            ParseEbnfError { line, column, errtype: ParseEbnfErrorType::UnclosedRegex },
        ),
        ScanMode::Word { start } => {
            let ghost pre_stack = stack@;
            let word = s.substring_char(start, n);
            let atom = EbnfStatement::DefinedRule { rulename: word.to_owned() };
            stack.push(atom);
            proof {
                lemma_view_stmts_push(pre_stack, stack@.last());
                assert(stack@.drop_last() =~= pre_stack);
                lemma_view_stmts_len(stack@);
            }
            let stmt = combine_statements(stack);
            Ok(ParsedExpression { statement: stmt, end: n, line, column })
        },
        ScanMode::Gap => {
            if stack.len() == 0 {
                Err(ParseEbnfError { line, column, errtype: ParseEbnfErrorType::EmptyRule })
            } else {
                let stmt = combine_statements(stack);
                Ok(ParsedExpression { statement: stmt, end: n, line, column })
            }
        },
    }
}

impl EbnfStatement {
    /// Parses one expression text into a single statement, with `s[0]` at
    /// the 1-based position (`startline`, `startcolumn`) of the overall
    /// document.  Returns exactly what the mathematical parser
    /// [`spec_parse_statement`] yields on the text's characters.
    pub fn new(s: &str, startline: usize, startcolumn: usize) -> (r: Result<
        EbnfStatement,
        ParseEbnfError,
    >)
        requires
            startline + s@.len() <= usize::MAX,
            startcolumn + s@.len() <= usize::MAX,
        ensures
            (match spec_parse_statement(s@, startline as int, startcolumn as int) {
                Ok(st) => r matches Ok(out) && out@ == st,
                Err(e) => r matches Err(err) && err@ == e,
            }),
    {
        match parse_expression(s, startline, startcolumn, false) {
            Ok(pe) => Ok(pe.statement),
            Err(e) => Err(e),
        }
    }
}

/// The executable rule-set mode, mirroring [`RulesMode`].
pub enum NameMode {
    /// Mirror of `RulesMode::Seeking`.
    Seeking,
    /// Mirror of `RulesMode::InName`.
    InName { start: usize },
}

impl View for NameMode {
    type V = RulesMode;

    open spec fn view(&self) -> RulesMode {
        match self {
            NameMode::Seeking => RulesMode::Seeking,
            NameMode::InName { start } => RulesMode::InName { start: *start as int },
        }
    }
}

/// An ordered set of named grammar rules, parsed from one document.
#[derive(Debug, PartialEq, Eq)]
pub struct EbnfParser {
    /// The declarations, in document order; names are not deduplicated.
    pub rules: Vec<EbnfRule>,
}

impl View for EbnfParser {
    type V = Seq<crate::ast::SpecRule>;

    open spec fn view(&self) -> Seq<crate::ast::SpecRule> {
        view_rules(self.rules@)
    }
}

impl EbnfParser {
    /// Parses a whole grammar document, starting at position (1, 1), into
    /// its ordered sequence of named rules, or the first error.  Returns
    /// exactly what the mathematical parser [`spec_parse_rules`] yields on
    /// the document's characters.
    pub fn from_str(s: &str) -> (r: Result<EbnfParser, ParseEbnfError>)
        requires
            1 + s@.len() <= usize::MAX,
        ensures
            (match spec_parse_rules(s@) {
                Ok(rs) => r matches Ok(p) && p@ == rs,
                Err(e) => r matches Err(err) && err@ == e,
            }),
    {
        let n = s.unicode_len();
        let mut i: usize = 0;
        let mut line: usize = 1;
        let mut column: usize = 1;
        let mut rules: Vec<EbnfRule> = Vec::new();
        let mut mode = NameMode::Seeking;
        proof {
            assert(view_rules(rules@) =~= Seq::<crate::ast::SpecRule>::empty());
        }
        while i < n
            invariant
                n == s@.len(),
                i <= n,
                line + (n - i) <= usize::MAX,
                column + (n - i) <= usize::MAX,
                (mode matches NameMode::InName { start } ==> start < i),
                scan_rules(s@, 0, RulesMode::Seeking, 1, 1, Seq::empty()) == scan_rules(
                    s@,
                    i as int,
                    mode@,
                    line as int,
                    column as int,
                    view_rules(rules@),
                ),
            decreases n - i,
        {
            let ghost pre_i = i as int;
            let ghost pre_mode = mode@;
            let ghost pre_line = line as int;
            let ghost pre_column = column as int;
            let ghost pre_rules = rules@;
            let c = s.get_char(i);
            match mode {
                NameMode::Seeking => {
                    if char_is_alphanumeric(c) {
                        mode = NameMode::InName { start: i };
                    }
                },
                NameMode::InName { start } => {
                    if c == ':' {
                        let name = s.substring_char(start, i);
                        let rest = s.substring_char(i + 1, n);
                        match parse_expression(rest, line, column + 1, true) {
                            Ok(pe) => {
                                let declared = EbnfRule {
                                    name: name.to_owned(),
                                    rule: pe.statement,
                                };
                                rules.push(declared);
                                proof {
                                    lemma_view_rules_push(pre_rules, rules@.last());
                                }
                                i = i + 1 + pe.end;
                                line = pe.line;
                                column = pe.column;
                                mode = NameMode::Seeking;
                                proof {
                                    assert(scan_rules(
                                        s@,
                                        pre_i,
                                        pre_mode,
                                        pre_line,
                                        pre_column,
                                        view_rules(pre_rules),
                                    ) == scan_rules(
                                        s@,
                                        i as int,
                                        mode@,
                                        line as int,
                                        column as int,
                                        view_rules(rules@),
                                    ));
                                }
                                continue ;
                            },
                            Err(e) => {
                                return Err(e);
                            },
                        }
                    } else if !char_is_alphanumeric(c) {
                        return Err(
                            ParseEbnfError {
                                line,
                                column,
                                errtype: ParseEbnfErrorType::UnexpectedCharacter(c),
                            },
                        );
                    }
                },
            }
            if c == '\n' {
                line = line + 1;
                column = 1;
            } else {
                column = column + 1;
            }
            i = i + 1;
            proof {
                assert(scan_rules(s@, pre_i, pre_mode, pre_line, pre_column, view_rules(pre_rules))
                    == scan_rules(
                    s@,
                    i as int,
                    mode@,
                    line as int,
                    column as int,
                    view_rules(rules@),
                ));
            }
        }
        Ok(EbnfParser { rules })
    }
}

} // verus!
