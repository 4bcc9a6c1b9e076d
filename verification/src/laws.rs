//! The library's laws: statements about the parsers that hold for all
//! inputs of a given shape, proved once and for all against the mathematical
//! scanner of [`crate::scan`].

use crate::ast::SpecStatement;
use crate::error::ParseEbnfErrorType;
use crate::scan::Mode;
use crate::scan::ScanOk;
use crate::scan::column_after;
use crate::scan::combine;
use crate::scan::finish;
use crate::scan::is_special;
use crate::scan::is_ws;
use crate::scan::lemma_scan_gap_special;
use crate::scan::lemma_scan_word_special;
use crate::scan::line_after;
use crate::scan::scan;
use crate::render::spec_render;
use crate::render::spec_render_atom;
use crate::render::spec_render_parts;
use crate::scan::spec_parse_statement;
use crate::scan::wrap_repetition;
use vstd::prelude::*;

verus! {

/// A character that extends a bare word in an expression text.
pub open spec fn is_word_char(c: char) -> bool {
    !is_special(c, false)
}

/// An input made of bare words and whitespace only.
pub open spec fn bare_words_input(s: Seq<char>) -> bool {
    forall|j: int| 0 <= j < s.len() ==> is_ws(s[j]) || is_word_char(s[j])
}

/// The line after scanning the characters of `s` in `[i, j)` from `line`.
pub open spec fn line_through(s: Seq<char>, i: int, j: int, line: int) -> int
    decreases j - i,
{
    if i >= j {
        line
    } else {
        line_through(s, i + 1, j, line_after(s[i], line))
    }
}

/// The column after scanning the characters of `s` in `[i, j)` from `column`.
pub open spec fn column_through(s: Seq<char>, i: int, j: int, column: int) -> int
    decreases j - i,
{
    if i >= j {
        column
    } else {
        column_through(s, i + 1, j, column_after(s[i], column))
    }
}

/// The whitespace-separated words of `s` from `i` on, with no word in
/// progress.
pub open spec fn words_gap(s: Seq<char>, i: int) -> Seq<Seq<char>>
    decreases s.len() - i, 0int,
{
    if !(0 <= i < s.len()) {
        Seq::empty()
    } else if is_ws(s[i]) {
        words_gap(s, i + 1)
    } else {
        words_word(s, i + 1, i)
    }
}

/// The whitespace-separated words of `s` from `i` on, with a word in
/// progress since `start`.
pub open spec fn words_word(s: Seq<char>, i: int, start: int) -> Seq<Seq<char>>
    decreases s.len() - i, 1int,
{
    if !(0 <= i < s.len()) {
        seq![s.subrange(start, s.len() as int)]
    } else if is_ws(s[i]) {
        seq![s.subrange(start, i)] + words_gap(s, i + 1)
    } else {
        words_word(s, i + 1, start)
    }
}

/// The whitespace-separated words of `s`, in left-to-right order.
pub open spec fn spec_words(s: Seq<char>) -> Seq<Seq<char>> {
    words_gap(s, 0)
}

/// One rule-reference atom per word, in order.
pub open spec fn as_rules(ws: Seq<Seq<char>>) -> Seq<SpecStatement> {
    ws.map_values(|w: Seq<char>| SpecStatement::DefinedRule { rulename: w })
}

proof fn lemma_words_gap(s: Seq<char>, i: int, stack: Seq<SpecStatement>, line: int, column: int)
    requires
        0 <= i <= s.len(),
        forall|j: int| i <= j < s.len() ==> is_ws(s[j]) || is_word_char(s[j]),
    ensures
        scan(s, i, stack, Mode::Gap, line, column, false) == finish(
            stack + as_rules(words_gap(s, i)),
            s.len() as int,
            line_through(s, i, s.len() as int, line),
            column_through(s, i, s.len() as int, column),
        ),
    decreases s.len() - i, 0int,
{
    if i == s.len() {
        assert(stack + as_rules(words_gap(s, i)) =~= stack);
    } else {
        let c = s[i];
        if is_ws(c) {
            lemma_scan_gap_special(s, i, stack, line, column, false);
            lemma_words_gap(s, i + 1, stack, line_after(c, line), column_after(c, column));
        } else {
            lemma_words_word(s, i + 1, i, stack, line_after(c, line), column_after(c, column));
        }
    }
}

proof fn lemma_words_word(
    s: Seq<char>,
    i: int,
    start: int,
    stack: Seq<SpecStatement>,
    line: int,
    column: int,
)
    requires
        0 <= i <= s.len(),
        0 <= start,
        forall|j: int| i <= j < s.len() ==> is_ws(s[j]) || is_word_char(s[j]),
    ensures
        scan(s, i, stack, Mode::Word { start }, line, column, false) == finish(
            stack + as_rules(words_word(s, i, start)),
            s.len() as int,
            line_through(s, i, s.len() as int, line),
            column_through(s, i, s.len() as int, column),
        ),
    decreases s.len() - i, 1int,
{
    if i == s.len() {
        let word = SpecStatement::DefinedRule { rulename: s.subrange(start, s.len() as int) };
        assert(stack + as_rules(words_word(s, i, start)) =~= stack.push(word));
    } else {
        let c = s[i];
        if is_ws(c) {
            let word = SpecStatement::DefinedRule { rulename: s.subrange(start, i) };
            lemma_scan_word_special(s, i, stack, start, line, column, false);
            lemma_words_gap(
                s,
                i + 1,
                stack.push(word),
                line_after(c, line),
                column_after(c, column),
            );
            assert(stack.push(word) + as_rules(words_gap(s, i + 1)) =~= stack + as_rules(
                words_word(s, i, start),
            ));
        } else {
            lemma_words_word(s, i + 1, start, stack, line_after(c, line), column_after(c, column));
        }
    }
}

/// An input of two or more whitespace-separated bare words parses to the
/// concatenation of one rule reference per word, in left-to-right order.
pub proof fn law_bare_words_concatenation(s: Seq<char>, line: int, column: int)
    requires
        bare_words_input(s),
        spec_words(s).len() >= 2,
    ensures
        spec_parse_statement(s, line, column) == Ok::<SpecStatement, crate::error::SpecError>(
            SpecStatement::Concatenation { rules: as_rules(spec_words(s)) },
        ),
{
    lemma_words_gap(s, 0, Seq::empty(), line, column);
    assert(Seq::empty() + as_rules(spec_words(s)) =~= as_rules(spec_words(s)));
}

/// An input of exactly one bare word parses to a plain rule reference,
/// never wrapped in a concatenation.
pub proof fn law_single_bare_word(s: Seq<char>, line: int, column: int)
    requires
        bare_words_input(s),
        spec_words(s).len() == 1,
    ensures
        spec_parse_statement(s, line, column) == Ok::<SpecStatement, crate::error::SpecError>(
            SpecStatement::DefinedRule { rulename: spec_words(s)[0] },
        ),
{
    lemma_words_gap(s, 0, Seq::empty(), line, column);
    assert(Seq::empty() + as_rules(spec_words(s)) =~= as_rules(spec_words(s)));
}

/// An input with no words at all, empty or whitespace only, fails with
/// `EmptyRule`.
pub proof fn law_blank_input_is_empty_rule(s: Seq<char>, line: int, column: int)
    requires
        bare_words_input(s),
        spec_words(s).len() == 0,
    ensures
        spec_parse_statement(s, line, column) matches Err(e) && e.errtype
            == ParseEbnfErrorType::EmptyRule,
{
    lemma_words_gap(s, 0, Seq::empty(), line, column);
    assert(Seq::empty() + as_rules(spec_words(s)) =~= as_rules(spec_words(s)));
}

/// A non-empty run of word characters: a bare word.
pub open spec fn plain_word(w: Seq<char>) -> bool {
    w.len() >= 1 && forall|k: int| 0 <= k < w.len() ==> is_word_char(w[k])
}

proof fn lemma_word_advance(
    s: Seq<char>,
    start: int,
    i: int,
    j: int,
    stack: Seq<SpecStatement>,
    line: int,
    column: int,
    body: bool,
)
    requires
        0 <= i <= j <= s.len(),
        forall|k: int| i <= k < j ==> !is_special(s[k], body),
    ensures
        scan(s, i, stack, Mode::Word { start }, line, column, body) == scan(
            s,
            j,
            stack,
            Mode::Word { start },
            line,
            column + (j - i),
            body,
        ),
    decreases j - i,
{
    if i < j {
        assert(!is_ws(s[i]));
        lemma_word_advance(s, start, i + 1, j, stack, line, column + 1, body);
    }
}

proof fn lemma_scan_word_at(
    s: Seq<char>,
    i: int,
    w: Seq<char>,
    stack: Seq<SpecStatement>,
    line: int,
    column: int,
    body: bool,
)
    requires
        0 <= i,
        i + w.len() <= s.len(),
        w.len() >= 1,
        forall|k: int| 0 <= k < w.len() ==> s[i + k] == w[k] && !is_special(w[k], body),
    ensures
        scan(s, i, stack, Mode::Gap, line, column, body) == scan(
            s,
            i + w.len(),
            stack,
            Mode::Word { start: i },
            line,
            column + w.len(),
            body,
        ),
        s.subrange(i, i + w.len() as int) == w,
{
    assert(s.subrange(i, i + w.len() as int) =~= w);
    assert(s[i + 0] == w[0] && !is_special(w[0], body));
    assert(forall|k: int| i + 1 <= k < i + w.len() ==> s[k] == w[k - i] && !is_special(
        s[k],
        body,
    ));
    lemma_word_advance(s, i, i + 1, i + w.len() as int, stack, line, column + 1, body);
}

proof fn lemma_ws_gap_step(
    s: Seq<char>,
    i: int,
    stack: Seq<SpecStatement>,
    line: int,
    column: int,
    body: bool,
)
    requires
        0 <= i < s.len(),
        is_ws(s[i]),
    ensures
        scan(s, i, stack, Mode::Gap, line, column, body) == scan(
            s,
            i + 1,
            stack,
            Mode::Gap,
            line_after(s[i], line),
            column_after(s[i], column),
            body,
        ),
{
    lemma_scan_gap_special(s, i, stack, line, column, body);
}

proof fn lemma_bar_step(s: Seq<char>, i: int, w: Seq<char>, line: int, column: int)
    requires
        0 <= i,
        i + w.len() + 2 <= s.len(),
        plain_word(w),
        forall|k: int| 0 <= k < w.len() ==> s[i + k] == w[k],
        s[i + w.len()] == ' ',
        s[i + w.len() + 1] == '|',
    ensures
        scan(s, i, Seq::empty(), Mode::Gap, line, column, false) == (match scan(
            s.subrange(i + w.len() + 2, s.len() as int),
            0,
            Seq::empty(),
            Mode::Gap,
            line,
            column + w.len() + 2,
            false,
        ) {
            Ok(o) => Ok(
                ScanOk {
                    stmt: SpecStatement::Alternation {
                        left: Box::new(SpecStatement::DefinedRule { rulename: w }),
                        right: Box::new(o.stmt),
                    },
                    end: i + w.len() + 2 + o.end,
                    line: o.line,
                    column: o.column,
                },
            ),
            Err(e) => Err(e),
        }),
{
    let wlen = w.len() as int;
    lemma_scan_word_at(s, i, w, Seq::empty(), line, column, false);
    // The space closes the word as an atom.
    lemma_scan_word_special(s, i + wlen, Seq::empty(), i, line, column + wlen, false);
    let pushed = Seq::empty().push(SpecStatement::DefinedRule { rulename: s.subrange(i, i + wlen) });
    assert(scan(s, i + wlen, Seq::empty(), Mode::Word { start: i }, line, column + wlen, false)
        == scan(s, i + wlen + 1, pushed, Mode::Gap, line, column + wlen + 1, false));
    // The bar takes the one atom as the left operand and scans the rest as
    // the right operand.
    lemma_scan_gap_special(s, i + wlen + 1, pushed, line, column + wlen + 1, false);
    assert(pushed.len() == 1);
    assert(combine(pushed) == SpecStatement::DefinedRule { rulename: w });
}

proof fn lemma_space_word_all(s: Seq<char>, w: Seq<char>, line: int, column: int)
    requires
        s.len() == w.len() + 1,
        s[0] == ' ',
        plain_word(w),
        forall|k: int| 0 <= k < w.len() ==> s[1 + k] == w[k],
    ensures
        scan(s, 0, Seq::empty(), Mode::Gap, line, column, false) == Ok::<ScanOk,
            crate::error::SpecError,
        >(
            ScanOk {
                stmt: SpecStatement::DefinedRule { rulename: w },
                end: s.len() as int,
                line,
                column: column + s.len(),
            },
        ),
{
    lemma_ws_gap_step(s, 0, Seq::empty(), line, column, false);
    lemma_scan_word_at(s, 1, w, Seq::empty(), line, column + 1, false);
    // The end of input closes the word and a single atom stands alone.
    assert(s.subrange(1, s.len() as int) =~= w);
    assert(Seq::empty().push(SpecStatement::DefinedRule { rulename: w }).len() == 1);
}

/// `a | b | c` parses as a right-nested alternation:
/// the left operand of the outer alternation is `a` alone, and the right
/// operand is itself the alternation of `b` and `c`.
pub proof fn law_alternation_right_nested(
    a: Seq<char>,
    b: Seq<char>,
    c: Seq<char>,
    line: int,
    column: int,
)
    requires
        plain_word(a),
        plain_word(b),
        plain_word(c),
    ensures
        spec_parse_statement(a + " | "@ + b + " | "@ + c, line, column) == Ok::<
            SpecStatement,
            crate::error::SpecError,
        >(
            (SpecStatement::Alternation {
                left: Box::new(SpecStatement::DefinedRule { rulename: a }),
                right: Box::new(
                    SpecStatement::Alternation {
                        left: Box::new(SpecStatement::DefinedRule { rulename: b }),
                        right: Box::new(SpecStatement::DefinedRule { rulename: c }),
                    },
                ),
            }),
        ),
{
    reveal_strlit(" | ");
    let s = a + " | "@ + b + " | "@ + c;
    let alen = a.len() as int;
    let blen = b.len() as int;
    let clen = c.len() as int;
    assert(" | "@.len() == 3);
    assert(" | "@[0] == ' ' && " | "@[1] == '|' && " | "@[2] == ' ');
    assert(s.len() == alen + blen + clen + 6);
    assert(s[alen] == ' ' && s[alen + 1] == '|');
    lemma_bar_step(s, 0, a, line, column);
    let rest1 = s.subrange(alen + 2, s.len() as int);
    assert(rest1[0] == ' ');
    assert(forall|k: int| 0 <= k < blen ==> rest1[1 + k] == b[k]);
    assert(rest1[1 + blen] == ' ' && rest1[1 + blen + 1] == '|');
    lemma_ws_gap_step(rest1, 0, Seq::empty(), line, column + alen + 2, false);
    lemma_bar_step(rest1, 1, b, line, column + alen + 3);
    let rest2 = rest1.subrange(1 + blen + 2, rest1.len() as int);
    assert(rest2.len() == clen + 1);
    assert(rest2[0] == ' ');
    assert(forall|k: int| 0 <= k < clen ==> rest2[1 + k] == c[k]);
    lemma_space_word_all(rest2, c, line, column + alen + 3 + blen + 2);
}


/// A string terminal's text that renders back verbatim: free of the
/// delimiter, of escapes, of newlines, and of parens (a surrounding group
/// scan counts every paren, even inside a string).
pub open spec fn string_text_ok(t: Seq<char>) -> bool {
    forall|k: int|
        0 <= k < t.len() ==> t[k] != '"' && t[k] != '\\' && t[k] != '\n' && t[k] != '(' && t[k]
            != ')'
}

/// A regex terminal's text that renders back verbatim: free of the
/// delimiter, of newlines, and of parens.
pub open spec fn regex_text_ok(t: Seq<char>) -> bool {
    forall|k: int| 0 <= k < t.len() ==> t[k] != '/' && t[k] != '\n' && t[k] != '(' && t[k] != ')'
}

/// A rule name that renders back verbatim: a non-empty run of word
/// characters without `)`.
pub open spec fn rulename_ok(t: Seq<char>) -> bool {
    t.len() >= 1 && forall|k: int| 0 <= k < t.len() ==> is_word_char(t[k]) && t[k] != ')'
}

/// A statement whose rendered text re-parses to the same shape: terminal
/// texts and names are self-delimiting, and a concatenation has the two or
/// more parts the parsers always give it.
pub open spec fn wf_statement(st: SpecStatement) -> bool
    decreases st,
{
    match st {
        SpecStatement::StringTerminal { string } => string_text_ok(string),
        SpecStatement::RegexTerminal { string } => regex_text_ok(string),
        SpecStatement::DefinedRule { rulename } => rulename_ok(rulename),
        SpecStatement::Concatenation { rules } => rules.len() >= 2 && forall|k: int|
            0 <= k < rules.len() ==> wf_statement(#[trigger] rules[k]),
        SpecStatement::Optional { rule } => wf_statement(*rule),
        SpecStatement::ZeroOrMore { rule } => wf_statement(*rule),
        SpecStatement::OneOrMore { rule } => wf_statement(*rule),
        SpecStatement::Alternation { left, right } => wf_statement(*left) && wf_statement(*right),
    }
}

/// The parenthesis depth change of one character.
pub open spec fn paren_step(c: char) -> int {
    if c == '(' {
        1
    } else if c == ')' {
        -1
    } else {
        0
    }
}

/// The total parenthesis depth change over the characters of `t` in `[i, j)`.
pub open spec fn paren_sum(t: Seq<char>, i: int, j: int) -> int
    decreases j - i,
{
    if i >= j {
        0
    } else {
        paren_step(t[i]) + paren_sum(t, i + 1, j)
    }
}

proof fn lemma_paren_sum_split(t: Seq<char>, i: int, m: int, j: int)
    requires
        i <= m <= j,
    ensures
        paren_sum(t, i, j) == paren_sum(t, i, m) + paren_sum(t, m, j),
    decreases m - i,
{
    if i < m {
        lemma_paren_sum_split(t, i + 1, m, j);
    }
}

proof fn lemma_paren_sum_shift(s: Seq<char>, t: Seq<char>, i: int, j: int, d: int)
    requires
        0 <= i <= j <= s.len(),
        0 <= i - d,
        j - d <= t.len(),
        s.subrange(i, j) == t.subrange(i - d, j - d),
    ensures
        paren_sum(s, i, j) == paren_sum(t, i - d, j - d),
    decreases j - i,
{
    if i < j {
        assert(s[i] == s.subrange(i, j)[0]);
        assert(t[i - d] == t.subrange(i - d, j - d)[0]);
        assert(s.subrange(i + 1, j) =~= s.subrange(i, j).subrange(1, j - i));
        assert(t.subrange(i + 1 - d, j - d) =~= t.subrange(i - d, j - d).subrange(1, j - i));
        lemma_paren_sum_shift(s, t, i + 1, j, d);
    }
}

proof fn lemma_paren_sum_zero(t: Seq<char>, i: int, j: int)
    requires
        i <= j,
        forall|k: int| i <= k < j ==> paren_step(t[k]) == 0,
    ensures
        paren_sum(t, i, j) == 0,
    decreases j - i,
{
    if i < j {
        lemma_paren_sum_zero(t, i + 1, j);
    }
}

proof fn lemma_paren_sum_concat(x: Seq<char>, y: Seq<char>, m: int)
    requires
        0 <= m <= x.len() + y.len(),
    ensures
        paren_sum(x + y, 0, m) == if m <= x.len() {
            paren_sum(x, 0, m)
        } else {
            paren_sum(x, 0, x.len() as int) + paren_sum(y, 0, m - x.len())
        },
{
    let xy = x + y;
    let xlen = x.len() as int;
    if m <= xlen {
        assert(xy.subrange(0, m) =~= x.subrange(0, m));
        lemma_paren_sum_shift(xy, x, 0, m, 0);
    } else {
        lemma_paren_sum_split(xy, 0, xlen, m);
        assert(xy.subrange(0, xlen) =~= x.subrange(0, xlen));
        lemma_paren_sum_shift(xy, x, 0, xlen, 0);
        assert(xy.subrange(xlen, m) =~= y.subrange(0, m - xlen));
        lemma_paren_sum_shift(xy, y, xlen, m, xlen);
    }
}

/// Text that a group scan can pass over: every prefix keeps the depth change
/// non-negative, the whole text is balanced, and there are no newlines.
pub open spec fn group_safe(t: Seq<char>) -> bool {
    &&& paren_sum(t, 0, t.len() as int) == 0
    &&& forall|m: int| 0 <= m <= t.len() ==> paren_sum(t, 0, m) >= 0
    &&& forall|k: int| 0 <= k < t.len() ==> t[k] != '\n'
}


proof fn lemma_group_safe_concat(x: Seq<char>, y: Seq<char>)
    requires
        group_safe(x),
        group_safe(y),
    ensures
        group_safe(x + y),
{
    let xy = x + y;
    let xlen = x.len() as int;
    assert forall|m: int| 0 <= m <= xy.len() implies paren_sum(xy, 0, m) >= 0 by {
        lemma_paren_sum_concat(x, y, m);
    }
    lemma_paren_sum_concat(x, y, xy.len() as int);
    assert forall|k: int| 0 <= k < xy.len() implies xy[k] != '\n' by {
        if k < xlen {
            assert(xy[k] == x[k]);
        } else {
            assert(xy[k] == y[k - xlen]);
        }
    }
}

proof fn lemma_group_safe_plain(t: Seq<char>)
    requires
        forall|k: int| 0 <= k < t.len() ==> #[trigger] t[k] != '(' && t[k] != ')' && t[k] != '\n',
    ensures
        group_safe(t),
{
    assert forall|m: int| 0 <= m <= t.len() implies paren_sum(t, 0, m) >= 0 by {
        assert forall|k: int| 0 <= k < m implies paren_step(#[trigger] t[k]) == 0 by {
            assert(t[k] != '(' && t[k] != ')');
        }
        lemma_paren_sum_zero(t, 0, m);
    }
    assert forall|k: int| 0 <= k < t.len() implies paren_step(#[trigger] t[k]) == 0 by {
        assert(t[k] != '(' && t[k] != ')');
    }
    lemma_paren_sum_zero(t, 0, t.len() as int);
}

proof fn lemma_group_safe_parens(t: Seq<char>)
    requires
        group_safe(t),
    ensures
        group_safe("("@ + t + ")"@),
{
    reveal_strlit("(");
    reveal_strlit(")");
    assert forall|k: int| 0 <= k < "("@.len() implies #[trigger] "("@[k] != '\n' && paren_step(
        "("@[k],
    ) == 1 by {
        assert("("@[k] == '(');
    }
    assert forall|k: int| 0 <= k < ")"@.len() implies #[trigger] ")"@[k] != '\n' && paren_step(
        ")"@[k],
    ) == -1 by {
        assert(")"@[k] == ')');
    }
    let opened = "("@ + t;
    assert(paren_sum("("@, 1, 1) == 0);
    assert(paren_sum(")"@, 1, 1) == 0);
    assert(paren_sum("("@, 0, 1) == 1);
    assert forall|m: int| 0 <= m <= opened.len() implies paren_sum(opened, 0, m) >= 0 by {
        lemma_paren_sum_concat("("@, t, m);
    }
    lemma_paren_sum_concat("("@, t, opened.len() as int);
    assert(paren_sum(opened, 0, opened.len() as int) == 1);
    assert(paren_sum(")"@, 0, 1) == -1);
    let whole = opened + ")"@;
    assert forall|m: int| 0 <= m <= whole.len() implies paren_sum(whole, 0, m) >= 0 by {
        lemma_paren_sum_concat(opened, ")"@, m);
        if m > opened.len() {
            assert(paren_sum(")"@, 0, m - opened.len()) == -1);
        }
    }
    lemma_paren_sum_concat(opened, ")"@, whole.len() as int);
    assert forall|k: int| 0 <= k < whole.len() implies whole[k] != '\n' by {
        if k < 1 {
            assert(whole[k] == '(');
        } else if k < opened.len() {
            assert(whole[k] == t[k - 1]);
        } else {
            assert(whole[k] == ')');
        }
    }
    assert("("@ + t + ")"@ == whole);
}

proof fn lemma_render_facts(st: SpecStatement)
    requires
        wf_statement(st),
    ensures
        group_safe(spec_render(st)),
        group_safe(spec_render_atom(st)),
        spec_render_atom(st).len() >= 1,
    decreases st, 1int,
{
    match st {
        SpecStatement::StringTerminal { string } => {
            reveal_strlit("\"");
            let r = "\""@ + string + "\""@;
            assert forall|k: int| 0 <= k < r.len() implies #[trigger] r[k] != '(' && r[k] != ')'
                && r[k] != '\n' by {
                if k < 1 {
                    assert(r[k] == '"');
                } else if k < 1 + string.len() {
                    assert(r[k] == string[k - 1]);
                } else {
                    assert(r[k] == '"');
                }
            }
            lemma_group_safe_plain(r);
            assert(spec_render(st) == r);
        },
        SpecStatement::RegexTerminal { string } => {
            reveal_strlit("/");
            let r = "/"@ + string + "/"@;
            assert forall|k: int| 0 <= k < r.len() implies #[trigger] r[k] != '(' && r[k] != ')'
                && r[k] != '\n' by {
                if k < 1 {
                    assert(r[k] == '/');
                } else if k < 1 + string.len() {
                    assert(r[k] == string[k - 1]);
                } else {
                    assert(r[k] == '/');
                }
            }
            lemma_group_safe_plain(r);
            assert(spec_render(st) == r);
        },
        SpecStatement::DefinedRule { rulename } => {
            assert forall|k: int| 0 <= k < rulename.len() implies #[trigger] rulename[k] != '('
                && rulename[k] != ')' && rulename[k] != '\n' by {
                assert(is_word_char(rulename[k]) && rulename[k] != ')');
            }
            lemma_group_safe_plain(rulename);
        },
        SpecStatement::Optional { rule } => {
            lemma_render_facts(*rule);
            lemma_one_char_safe('?');
            reveal_strlit("?");
            lemma_group_safe_concat(spec_render_atom(*rule), "?"@);
        },
        SpecStatement::ZeroOrMore { rule } => {
            lemma_render_facts(*rule);
            lemma_one_char_safe('*');
            reveal_strlit("*");
            lemma_group_safe_concat(spec_render_atom(*rule), "*"@);
        },
        SpecStatement::OneOrMore { rule } => {
            lemma_render_facts(*rule);
            lemma_one_char_safe('+');
            reveal_strlit("+");
            lemma_group_safe_concat(spec_render_atom(*rule), "+"@);
        },
        SpecStatement::Concatenation { rules } => {
            assert forall|k: int| 0 <= k < rules.len() implies #[trigger] wf_statement(
                rules[k],
            ) by {
                assert(st->Concatenation_rules[k] == rules[k]);
            }
            lemma_parts_facts(rules);
            lemma_group_safe_parens(spec_render_parts(rules));
            reveal_strlit("(");
        },
        SpecStatement::Alternation { left, right } => {
            lemma_render_facts(*left);
            lemma_render_facts(*right);
            lemma_one_char_safe('|');
            reveal_strlit("|");
            lemma_group_safe_concat(spec_render_atom(*left), "|"@);
            lemma_group_safe_concat(spec_render_atom(*left) + "|"@, spec_render(*right));
            lemma_group_safe_parens(spec_render(st));
            reveal_strlit("(");
        },
    }
}

proof fn lemma_one_char_safe(c: char)
    requires
        c == '?' || c == '*' || c == '+' || c == '|' || c == ' ',
    ensures
        c == '?' ==> group_safe("?"@),
        c == '*' ==> group_safe("*"@),
        c == '+' ==> group_safe("+"@),
        c == '|' ==> group_safe("|"@),
        c == ' ' ==> group_safe(" "@),
{
    reveal_strlit("?");
    reveal_strlit("*");
    reveal_strlit("+");
    reveal_strlit("|");
    reveal_strlit(" ");
    assert forall|k: int| 0 <= k < "?"@.len() implies #[trigger] "?"@[k] != '(' && "?"@[k] != ')'
        && "?"@[k] != '\n' by {
        assert("?"@[k] == '?');
    }
    lemma_group_safe_plain("?"@);
    assert forall|k: int| 0 <= k < "*"@.len() implies #[trigger] "*"@[k] != '(' && "*"@[k] != ')'
        && "*"@[k] != '\n' by {
        assert("*"@[k] == '*');
    }
    lemma_group_safe_plain("*"@);
    assert forall|k: int| 0 <= k < "+"@.len() implies #[trigger] "+"@[k] != '(' && "+"@[k] != ')'
        && "+"@[k] != '\n' by {
        assert("+"@[k] == '+');
    }
    lemma_group_safe_plain("+"@);
    assert forall|k: int| 0 <= k < "|"@.len() implies #[trigger] "|"@[k] != '(' && "|"@[k] != ')'
        && "|"@[k] != '\n' by {
        assert("|"@[k] == '|');
    }
    lemma_group_safe_plain("|"@);
    assert forall|k: int| 0 <= k < " "@.len() implies #[trigger] " "@[k] != '(' && " "@[k] != ')'
        && " "@[k] != '\n' by {
        assert(" "@[k] == ' ');
    }
    lemma_group_safe_plain(" "@);
}

proof fn lemma_parts_facts(parts: Seq<SpecStatement>)
    requires
        parts.len() >= 1,
        forall|k: int| 0 <= k < parts.len() ==> #[trigger] wf_statement(parts[k]),
    ensures
        group_safe(spec_render_parts(parts)),
    decreases parts, 0int,
{
    if parts.len() == 1 {
        assert(wf_statement(parts[0]));
        lemma_render_facts(parts[0]);
    } else {
        assert(wf_statement(parts.last()));
        lemma_render_facts(parts.last());
        assert forall|k: int| 0 <= k < parts.drop_last().len() implies #[trigger] wf_statement(
            parts.drop_last()[k],
        ) by {
            assert(wf_statement(parts[k]));
            assert(parts.drop_last()[k] == parts[k]);
        }
        lemma_parts_facts(parts.drop_last());
        lemma_one_char_safe(' ');
        reveal_strlit(" ");
        lemma_group_safe_concat(spec_render_parts(parts.drop_last()), " "@);
        lemma_group_safe_concat(
            spec_render_parts(parts.drop_last()) + " "@,
            spec_render_atom(parts.last()),
        );
    }
}


proof fn lemma_word_close(
    s: Seq<char>,
    j: int,
    stack: Seq<SpecStatement>,
    start: int,
    line: int,
    column: int,
)
    requires
        0 <= start,
        0 <= j <= s.len(),
        j == s.len() || is_special(s[j], false),
    ensures
        scan(s, j, stack, Mode::Word { start }, line, column, false) == scan(
            s,
            j,
            stack.push(SpecStatement::DefinedRule { rulename: s.subrange(start, j) }),
            Mode::Gap,
            line,
            column,
            false,
        ),
{
    if j < s.len() {
        lemma_scan_word_special(s, j, stack, start, line, column, false);
        lemma_scan_gap_special(
            s,
            j,
            stack.push(SpecStatement::DefinedRule { rulename: s.subrange(start, j) }),
            line,
            column,
            false,
        );
    }
}

proof fn lemma_string_advance(
    s: Seq<char>,
    tstart: int,
    i: int,
    j: int,
    stack: Seq<SpecStatement>,
    line: int,
    column: int,
    body: bool,
)
    requires
        0 <= i <= j <= s.len(),
        forall|k: int| i <= k < j ==> #[trigger] s[k] != '"' && s[k] != '\\' && s[k] != '\n',
    ensures
        scan(s, i, stack, Mode::InString { start: tstart, escaped: false }, line, column, body)
            == scan(
            s,
            j,
            stack,
            Mode::InString { start: tstart, escaped: false },
            line,
            column + (j - i),
            body,
        ),
    decreases j - i,
{
    if i < j {
        lemma_string_advance(s, tstart, i + 1, j, stack, line, column + 1, body);
    }
}

proof fn lemma_regex_advance(
    s: Seq<char>,
    tstart: int,
    i: int,
    j: int,
    stack: Seq<SpecStatement>,
    line: int,
    column: int,
    body: bool,
)
    requires
        0 <= i <= j <= s.len(),
        forall|k: int| i <= k < j ==> #[trigger] s[k] != '/' && s[k] != '\n',
    ensures
        scan(s, i, stack, Mode::InRegex { start: tstart }, line, column, body) == scan(
            s,
            j,
            stack,
            Mode::InRegex { start: tstart },
            line,
            column + (j - i),
            body,
        ),
    decreases j - i,
{
    if i < j {
        lemma_regex_advance(s, tstart, i + 1, j, stack, line, column + 1, body);
    }
}

proof fn lemma_group_advance(
    s: Seq<char>,
    i: int,
    j: int,
    stack: Seq<SpecStatement>,
    gstart: int,
    depth: int,
    gline: int,
    gcolumn: int,
    line: int,
    column: int,
    body: bool,
)
    requires
        0 <= i <= j <= s.len(),
        1 <= depth,
        forall|m: int| i <= m <= j ==> depth + #[trigger] paren_sum(s, i, m) >= 1,
        forall|k: int| i <= k < j ==> #[trigger] s[k] != '\n',
    ensures
        scan(
            s,
            i,
            stack,
            Mode::InGroup { start: gstart, depth, gline, gcolumn },
            line,
            column,
            body,
        ) == scan(
            s,
            j,
            stack,
            Mode::InGroup { start: gstart, depth: depth + paren_sum(s, i, j), gline, gcolumn },
            line,
            column + (j - i),
            body,
        ),
    decreases j - i,
{
    assert(paren_sum(s, i, i) == 0);
    if i < j {
        let c = s[i];
        assert(paren_sum(s, i + 1, i + 1) == 0);
        assert(depth + paren_sum(s, i, i + 1) >= 1);
        assert(paren_sum(s, i, i + 1) == paren_step(c));
        let d2 = depth + paren_step(c);
        assert forall|m: int| i + 1 <= m <= j implies d2 + #[trigger] paren_sum(s, i + 1, m)
            >= 1 by {
            assert(depth + paren_sum(s, i, m) >= 1);
        }
        lemma_group_advance(s, i + 1, j, stack, gstart, d2, gline, gcolumn, line, column + 1, body);
        assert(paren_sum(s, i, j) == paren_step(c) + paren_sum(s, i + 1, j));
    }
}

proof fn lemma_render_parts_first(parts: Seq<SpecStatement>)
    requires
        parts.len() >= 2,
    ensures
        spec_render_parts(parts) == spec_render_atom(parts[0]) + " "@ + spec_render_parts(
            parts.drop_first(),
        ),
    decreases parts.len(),
{
    if parts.len() == 2 {
        assert(parts.drop_last() =~= seq![parts[0]]);
        assert(parts.drop_first() =~= seq![parts[1]]);
        assert(spec_render_parts(seq![parts[0]]) == spec_render_atom(parts[0]));
        assert(spec_render_parts(seq![parts[1]]) == spec_render_atom(parts[1]));
        assert(parts.last() == parts[1]);
    } else {
        lemma_render_parts_first(parts.drop_last());
        assert(parts.drop_first().drop_last() =~= parts.drop_last().drop_first());
        assert(parts.drop_first().last() == parts.last());
        assert(parts.drop_last()[0] == parts[0]);
        assert(parts.drop_first().len() >= 2);
        assert(spec_render_parts(parts.drop_first()) == spec_render_parts(
            parts.drop_first().drop_last(),
        ) + " "@ + spec_render_atom(parts.drop_first().last()));
        assert(spec_render_parts(parts) =~= spec_render_atom(parts[0]) + " "@ + spec_render_parts(
            parts.drop_first(),
        ));
    }
}

/// The characters that may follow a rendered atom within a rendered text:
/// a separating space, a postfix repetition operator, an alternation bar, or
/// the end of the text.
pub open spec fn atom_delimiter(s: Seq<char>, j: int) -> bool {
    j == s.len() || s[j] == ' ' || s[j] == '?' || s[j] == '*' || s[j] == '+' || s[j] == '|'
}


#[verifier::rlimit(60)]
proof fn lemma_atom_scan(
    st: SpecStatement,
    s: Seq<char>,
    i: int,
    stack: Seq<SpecStatement>,
    line: int,
    column: int,
)
    requires
        wf_statement(st),
        0 <= i,
        i + spec_render_atom(st).len() <= s.len(),
        s.subrange(i, i + spec_render_atom(st).len() as int) == spec_render_atom(st),
        atom_delimiter(s, i + spec_render_atom(st).len() as int),
    ensures
        scan(s, i, stack, Mode::Gap, line, column, false) == scan(
            s,
            i + spec_render_atom(st).len() as int,
            stack.push(st),
            Mode::Gap,
            line,
            column + spec_render_atom(st).len(),
            false,
        ),
    decreases st, (if st is Concatenation || st is Alternation {
        2int
    } else {
        0int
    }),
{
    let atom = spec_render_atom(st);
    let alen = atom.len() as int;
    let j = i + alen;
    assert(forall|k: int| 0 <= k < alen ==> s[i + k] == #[trigger] atom[k]) by {
        assert(forall|k: int|
            0 <= k < alen ==> s.subrange(i, i + alen)[k] == s[i + k] && s.subrange(i, i + alen)[k]
                == #[trigger] atom[k]);
    }
    match st {
        SpecStatement::DefinedRule { rulename } => {
            assert forall|k: int|
                0 <= k < rulename.len() implies s[i + k] == #[trigger] rulename[k] && !is_special(
                rulename[k],
                false,
            ) by {
                assert(atom[k] == rulename[k]);
                assert(is_word_char(rulename[k]));
            }
            lemma_scan_word_at(s, i, rulename, stack, line, column, false);
            lemma_word_close(s, j, stack, i, line, column + alen);
            assert(s.subrange(i, j) == rulename);
        },
        SpecStatement::StringTerminal { string } => {
            reveal_strlit("\"");
            let tlen = string.len() as int;
            assert(atom[0] == '"' && atom[tlen + 1] == '"');
            assert(forall|k: int| 0 <= k < tlen ==> #[trigger] atom[1 + k] == string[k]);
            assert(s[i] == '"');
            lemma_scan_gap_special(s, i, stack, line, column, false);
            assert forall|k: int| i + 1 <= k < i + 1 + tlen implies #[trigger] s[k] != '"' && s[k]
                != '\\' && s[k] != '\n' by {
                assert(s[k] == atom[k - i]);
                assert(atom[k - i] == string[k - i - 1]);
            }
            lemma_string_advance(s, i, i + 1, i + 1 + tlen, stack, line, column + 1, false);
            assert(s[i + 1 + tlen] == '"');
            assert forall|k: int| 0 <= k < tlen implies s.subrange(i + 1, i + 1 + tlen)[k]
                == string[k] by {
                assert(s[i + (1 + k)] == atom[1 + k]);
                assert(atom[1 + k] == string[k]);
            }
            assert(s.subrange(i + 1, i + 1 + tlen) =~= string);
        },
        SpecStatement::RegexTerminal { string } => {
            reveal_strlit("/");
            let tlen = string.len() as int;
            assert(atom[0] == '/' && atom[tlen + 1] == '/');
            assert(forall|k: int| 0 <= k < tlen ==> #[trigger] atom[1 + k] == string[k]);
            assert(s[i] == '/');
            lemma_scan_gap_special(s, i, stack, line, column, false);
            assert forall|k: int| i + 1 <= k < i + 1 + tlen implies #[trigger] s[k] != '/' && s[k]
                != '\n' by {
                assert(s[k] == atom[k - i]);
                assert(atom[k - i] == string[k - i - 1]);
            }
            lemma_regex_advance(s, i, i + 1, i + 1 + tlen, stack, line, column + 1, false);
            assert(s[i + 1 + tlen] == '/');
            assert forall|k: int| 0 <= k < tlen implies s.subrange(i + 1, i + 1 + tlen)[k]
                == string[k] by {
                assert(s[i + (1 + k)] == atom[1 + k]);
                assert(atom[1 + k] == string[k]);
            }
            assert(s.subrange(i + 1, i + 1 + tlen) =~= string);
        },
        SpecStatement::Optional { rule } => {
            reveal_strlit("?");
            let inner = spec_render_atom(*rule);
            let ilen = inner.len() as int;
            assert(atom =~= inner + "?"@);
            assert(forall|k: int| 0 <= k < ilen ==> #[trigger] inner[k] == atom[k]);
            assert(s.subrange(i, i + ilen) =~= inner);
            assert(s[i + ilen] == atom[ilen] && atom[ilen] == '?');
            lemma_atom_scan(*rule, s, i, stack, line, column);
            let pushed = stack.push(*rule);
            lemma_scan_gap_special(s, i + ilen, pushed, line, column + ilen, false);
            assert(pushed.drop_last() =~= stack);
            assert(pushed.last() == *rule);
            assert(pushed.drop_last().push(wrap_repetition('?', pushed.last())) =~= stack.push(st));
        },
        SpecStatement::ZeroOrMore { rule } => {
            reveal_strlit("*");
            let inner = spec_render_atom(*rule);
            let ilen = inner.len() as int;
            assert(atom =~= inner + "*"@);
            assert(forall|k: int| 0 <= k < ilen ==> #[trigger] inner[k] == atom[k]);
            assert(s.subrange(i, i + ilen) =~= inner);
            assert(s[i + ilen] == atom[ilen] && atom[ilen] == '*');
            lemma_atom_scan(*rule, s, i, stack, line, column);
            let pushed = stack.push(*rule);
            lemma_scan_gap_special(s, i + ilen, pushed, line, column + ilen, false);
            assert(pushed.drop_last() =~= stack);
            assert(pushed.last() == *rule);
            assert(pushed.drop_last().push(wrap_repetition('*', pushed.last())) =~= stack.push(st));
        },
        SpecStatement::OneOrMore { rule } => {
            reveal_strlit("+");
            let inner = spec_render_atom(*rule);
            let ilen = inner.len() as int;
            assert(atom =~= inner + "+"@);
            assert(forall|k: int| 0 <= k < ilen ==> #[trigger] inner[k] == atom[k]);
            assert(s.subrange(i, i + ilen) =~= inner);
            assert(s[i + ilen] == atom[ilen] && atom[ilen] == '+');
            lemma_atom_scan(*rule, s, i, stack, line, column);
            let pushed = stack.push(*rule);
            lemma_scan_gap_special(s, i + ilen, pushed, line, column + ilen, false);
            assert(pushed.drop_last() =~= stack);
            assert(pushed.last() == *rule);
            assert(pushed.drop_last().push(wrap_repetition('+', pushed.last())) =~= stack.push(st));
        },
        _ => {
            // A concatenation or an alternation, parenthesized.
            reveal_strlit("(");
            reveal_strlit(")");
            let t = spec_render(st);
            let tlen = t.len() as int;
            assert(atom =~= "("@ + t + ")"@);
            assert(atom[0] == '(' && atom[tlen + 1] == ')');
            assert(forall|k: int| 0 <= k < tlen ==> #[trigger] atom[1 + k] == t[k]);
            assert(s[i] == '(');
            lemma_scan_gap_special(s, i, stack, line, column, false);
            lemma_render_facts(st);
            assert forall|k: int| 0 <= k < tlen implies s.subrange(i + 1, i + 1 + tlen)[k]
                == t[k] by {
                assert(s[i + (1 + k)] == atom[1 + k]);
                assert(atom[1 + k] == t[k]);
            }
            assert(s.subrange(i + 1, i + 1 + tlen) =~= t);
            assert forall|m: int| i + 1 <= m <= i + 1 + tlen implies 1 + #[trigger] paren_sum(
                s,
                i + 1,
                m,
            ) >= 1 by {
                assert(s.subrange(i + 1, m) =~= t.subrange(0, m - i - 1));
                lemma_paren_sum_shift(s, t, i + 1, m, i + 1);
            }
            assert forall|k: int| i + 1 <= k < i + 1 + tlen implies #[trigger] s[k] != '\n' by {
                assert(s[k] == t[k - i - 1]);
            }
            lemma_group_advance(s, i + 1, i + 1 + tlen, stack, i, 1, line, column, line, column + 1, false);
            assert(s.subrange(i + 1, i + 1 + tlen) =~= t.subrange(0, tlen));
            lemma_paren_sum_shift(s, t, i + 1, i + 1 + tlen, i + 1);
            assert(paren_sum(s, i + 1, i + 1 + tlen) == 0);
            assert(s[i + 1 + tlen] == ')');
            lemma_parse_render(st, line, column + 1);
        },
    }
}

#[verifier::rlimit(60)]
proof fn lemma_parts_scan(
    parts: Seq<SpecStatement>,
    s: Seq<char>,
    i: int,
    stack: Seq<SpecStatement>,
    line: int,
    column: int,
)
    requires
        parts.len() >= 1,
        forall|k: int| 0 <= k < parts.len() ==> wf_statement(#[trigger] parts[k]),
        0 <= i <= s.len(),
        s.len() - i == spec_render_parts(parts).len(),
        s.subrange(i, s.len() as int) == spec_render_parts(parts),
    ensures
        scan(s, i, stack, Mode::Gap, line, column, false) == finish(
            stack + parts,
            s.len() as int,
            line,
            column + (s.len() - i),
        ),
    decreases parts, 0int,
{
    if parts.len() == 1 {
        assert(wf_statement(parts[0]));
        assert(spec_render_parts(parts) == spec_render_atom(parts[0]));
        lemma_atom_scan(parts[0], s, i, stack, line, column);
        assert(stack.push(parts[0]) =~= stack + parts);
    } else {
        reveal_strlit(" ");
        lemma_render_parts_first(parts);
        let head = spec_render_atom(parts[0]);
        let hlen = head.len() as int;
        let tail = spec_render_parts(parts.drop_first());
        let r = spec_render_parts(parts);
        assert(r =~= head + " "@ + tail);
        assert(forall|k: int| 0 <= k < hlen ==> #[trigger] head[k] == r[k]);
        assert(r[hlen] == ' ');
        assert(forall|k: int| 0 <= k < tail.len() ==> #[trigger] tail[k] == r[hlen + 1 + k]);
        assert(s.subrange(i, i + hlen) =~= head);
        assert(s[i + hlen] == r[hlen]);
        assert(wf_statement(parts[0]));
        lemma_atom_scan(parts[0], s, i, stack, line, column);
        lemma_ws_gap_step(s, i + hlen, stack.push(parts[0]), line, column + hlen, false);
        assert forall|k: int| 0 <= k < parts.drop_first().len() implies wf_statement(
            #[trigger] parts.drop_first()[k],
        ) by {
            assert(parts.drop_first()[k] == parts[k + 1]);
            assert(wf_statement(parts[k + 1]));
        }
        assert(s.subrange(i + hlen + 1, s.len() as int) =~= tail);
        lemma_parts_scan(parts.drop_first(), s, i + hlen + 1, stack.push(parts[0]), line, column + hlen + 1);
        assert(stack.push(parts[0]) + parts.drop_first() =~= stack + parts);
    }
}

#[verifier::rlimit(60)]
proof fn lemma_parse_render(st: SpecStatement, line: int, column: int)
    requires
        wf_statement(st),
    ensures
        scan(spec_render(st), 0, Seq::empty(), Mode::Gap, line, column, false) matches Ok(o)
            && o.stmt == st,
    decreases st, 1int,
{
    let s = spec_render(st);
    match st {
        SpecStatement::Concatenation { rules } => {
            assert forall|k: int| 0 <= k < rules.len() implies wf_statement(
                #[trigger] rules[k],
            ) by {
                assert(st->Concatenation_rules[k] == rules[k]);
            }
            assert(s.subrange(0, s.len() as int) =~= s);
            lemma_parts_scan(rules, s, 0, Seq::empty(), line, column);
            assert(Seq::empty() + rules =~= rules);
        },
        SpecStatement::Alternation { left, right } => {
            reveal_strlit("|");
            let head = spec_render_atom(*left);
            let hlen = head.len() as int;
            let tail = spec_render(*right);
            assert(s =~= head + "|"@ + tail);
            assert(forall|k: int| 0 <= k < hlen ==> #[trigger] head[k] == s[k]);
            assert(s[hlen] == '|');
            assert(forall|k: int| 0 <= k < tail.len() ==> #[trigger] tail[k] == s[hlen + 1 + k]);
            assert(s.subrange(0, hlen) =~= head);
            lemma_atom_scan(*left, s, 0, Seq::empty(), line, column);
            let pushed = Seq::empty().push(*left);
            lemma_scan_gap_special(s, hlen, pushed, line, column + hlen, false);
            assert(pushed.len() == 1 && combine(pushed) == *left);
            assert(s.subrange(hlen + 1, s.len() as int) =~= tail);
            lemma_parse_render(*right, line, column + hlen + 1);
        },
        _ => {
            assert(spec_render_atom(st) == s);
            assert(s.subrange(0, s.len() as int) =~= s);
            lemma_atom_scan(st, s, 0, Seq::empty(), line, column);
            assert(Seq::empty().push(st).len() == 1);
            assert(combine(Seq::empty().push(st)) == st);
        },
    }
}

/// Re-parsing the rendered text of a well-formed statement, from any start
/// position, yields exactly the same statement: composite shapes round-trip
/// structurally and terminal texts verbatim.
pub proof fn law_render_parse_round_trip(st: SpecStatement, line: int, column: int)
    requires
        wf_statement(st),
    ensures
        spec_parse_statement(spec_render(st), line, column) == Ok::<
            SpecStatement,
            crate::error::SpecError,
        >(st),
{
    lemma_parse_render(st, line, column);
}

} // verus!
