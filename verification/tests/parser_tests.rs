use ebnf_parse::ast::EbnfRule;
use ebnf_parse::ast::EbnfStatement;
use ebnf_parse::error::ParseEbnfError;
use ebnf_parse::error::ParseEbnfErrorType;
use ebnf_parse::parser::EbnfParser;
use ebnf_parse::parser::parse_expression;

fn rule(name: &str) -> EbnfStatement {
    EbnfStatement::DefinedRule { rulename: name.to_string() }
}

fn string_terminal(text: &str) -> EbnfStatement {
    EbnfStatement::StringTerminal { string: text.to_string() }
}

fn concat(parts: Vec<EbnfStatement>) -> EbnfStatement {
    EbnfStatement::Concatenation { rules: parts }
}

fn alt(left: EbnfStatement, right: EbnfStatement) -> EbnfStatement {
    EbnfStatement::Alternation { left: Box::new(left), right: Box::new(right) }
}

fn err(line: usize, column: usize, errtype: ParseEbnfErrorType) -> ParseEbnfError {
    ParseEbnfError { line, column, errtype }
}

#[test]
fn bare_words_concatenate_in_order() {
    let got = EbnfStatement::new("a b c", 1, 1).unwrap();
    assert_eq!(got, concat(vec![rule("a"), rule("b"), rule("c")]));
}

#[test]
fn single_word_is_not_wrapped() {
    let got = EbnfStatement::new("a", 1, 1).unwrap();
    assert_eq!(got, rule("a"));
}

#[test]
fn mixed_whitespace_separates_words() {
    let got = EbnfStatement::new("one\ttwo\nthree", 1, 1).unwrap();
    assert_eq!(got, concat(vec![rule("one"), rule("two"), rule("three")]));
}

#[test]
fn alternation_nests_to_the_right() {
    let got = EbnfStatement::new("a | b | c", 1, 1).unwrap();
    assert_eq!(got, alt(rule("a"), alt(rule("b"), rule("c"))));
}

#[test]
fn alternation_left_concatenation() {
    let got = EbnfStatement::new("a b | c", 1, 1).unwrap();
    assert_eq!(got, alt(concat(vec![rule("a"), rule("b")]), rule("c")));
}

#[test]
fn optional_operator() {
    let got = EbnfStatement::new("a?", 1, 1).unwrap();
    assert_eq!(got, EbnfStatement::Optional { rule: Box::new(rule("a")) });
}

#[test]
fn zero_or_more_operator() {
    let got = EbnfStatement::new("a*", 1, 1).unwrap();
    assert_eq!(got, EbnfStatement::ZeroOrMore { rule: Box::new(rule("a")) });
}

#[test]
fn one_or_more_operator() {
    let got = EbnfStatement::new("a+", 1, 1).unwrap();
    assert_eq!(got, EbnfStatement::OneOrMore { rule: Box::new(rule("a")) });
}

#[test]
fn repetition_binds_to_last_atom() {
    let got = EbnfStatement::new("a b?", 1, 1).unwrap();
    assert_eq!(
        got,
        concat(vec![rule("a"), EbnfStatement::Optional { rule: Box::new(rule("b")) }])
    );
}

#[test]
fn group_with_zero_or_more() {
    let got = EbnfStatement::new("(a b)*", 1, 1).unwrap();
    assert_eq!(
        got,
        EbnfStatement::ZeroOrMore { rule: Box::new(concat(vec![rule("a"), rule("b")])) }
    );
}

#[test]
fn nested_groups() {
    let got = EbnfStatement::new("((a))", 1, 1).unwrap();
    assert_eq!(got, rule("a"));
}

#[test]
fn string_terminal_between_quotes() {
    let got = EbnfStatement::new("\"abc\"", 1, 1).unwrap();
    assert_eq!(got, string_terminal("abc"));
}

#[test]
fn string_keeps_escapes_verbatim() {
    let got = EbnfStatement::new("\"a\\\"b\"", 1, 1).unwrap();
    assert_eq!(got, string_terminal("a\\\"b"));
}

#[test]
fn unclosed_string_is_an_error() {
    let got = EbnfStatement::new("\"abc", 1, 1).unwrap_err();
    assert_eq!(got, err(1, 5, ParseEbnfErrorType::UnclosedString));
}

#[test]
fn newline_inside_string_is_unexpected() {
    let got = EbnfStatement::new("\"a\nb\"", 1, 1).unwrap_err();
    assert_eq!(got, err(1, 3, ParseEbnfErrorType::UnexpectedCharacter('\n')));
}

#[test]
fn regex_terminal_between_slashes() {
    let got = EbnfStatement::new("/ab+/", 1, 1).unwrap();
    assert_eq!(got, EbnfStatement::RegexTerminal { string: "ab+".to_string() });
}

#[test]
fn unclosed_regex_is_an_error() {
    let got = EbnfStatement::new("/ab", 1, 1).unwrap_err();
    assert_eq!(got, err(1, 4, ParseEbnfErrorType::UnclosedRegex));
}

#[test]
fn unclosed_paren_is_an_error() {
    let got = EbnfStatement::new("(a", 1, 1).unwrap_err();
    assert_eq!(got, err(1, 3, ParseEbnfErrorType::UnclosedParen));
}

#[test]
fn empty_input_is_an_empty_rule() {
    let got = EbnfStatement::new("", 1, 1).unwrap_err();
    assert_eq!(got, err(1, 1, ParseEbnfErrorType::EmptyRule));
}

#[test]
fn operator_without_atom_reports_its_position() {
    let got = EbnfStatement::new("*a", 1, 1).unwrap_err();
    assert_eq!(got, err(1, 1, ParseEbnfErrorType::EmptyRule));
}

#[test]
fn alternation_without_left_operand() {
    let got = EbnfStatement::new("| a", 1, 1).unwrap_err();
    assert_eq!(got, err(1, 1, ParseEbnfErrorType::EmptyRule));
}

#[test]
fn statement_start_position_offsets_errors() {
    let got = EbnfStatement::new("\"abc", 3, 7).unwrap_err();
    assert_eq!(got, err(3, 11, ParseEbnfErrorType::UnclosedString));
}

#[test]
fn document_with_two_rules() {
    let got = EbnfParser::from_str("test: \"hi\"; woof: test;").unwrap();
    assert_eq!(
        got,
        EbnfParser {
            rules: vec![
                EbnfRule { name: "test".to_string(), rule: string_terminal("hi") },
                EbnfRule { name: "woof".to_string(), rule: rule("test") },
            ]
        }
    );
}

#[test]
fn document_body_may_end_at_end_of_input() {
    let got = EbnfParser::from_str("a: b").unwrap();
    assert_eq!(got, EbnfParser {
        rules: vec![EbnfRule { name: "a".to_string(), rule: rule("b") }],
    });
}

#[test]
fn document_alternation_body_ends_at_its_semicolon() {
    let got = EbnfParser::from_str("a: b | c; d: e;").unwrap();
    assert_eq!(
        got,
        EbnfParser {
            rules: vec![
                EbnfRule { name: "a".to_string(), rule: alt(rule("b"), rule("c")) },
                EbnfRule { name: "d".to_string(), rule: rule("e") },
            ]
        }
    );
}

#[test]
fn document_trailing_fragment_without_colon_is_discarded() {
    let got = EbnfParser::from_str("a: b; xyz").unwrap();
    assert_eq!(got, EbnfParser {
        rules: vec![EbnfRule { name: "a".to_string(), rule: rule("b") }],
    });
}

#[test]
fn document_name_with_other_character_is_an_error() {
    let got = EbnfParser::from_str("na me: x;").unwrap_err();
    assert_eq!(got, err(1, 3, ParseEbnfErrorType::UnexpectedCharacter(' ')));
}

#[test]
fn document_empty_body_is_an_empty_rule() {
    let got = EbnfParser::from_str("a: ;").unwrap_err();
    assert_eq!(got, err(1, 4, ParseEbnfErrorType::EmptyRule));
}

#[test]
fn document_positions_cross_lines() {
    let got = EbnfParser::from_str("a: b;\nc? d;").unwrap_err();
    // The `?` on line 2 is not alphanumeric and cannot continue the name `c`.
    assert_eq!(got, err(2, 2, ParseEbnfErrorType::UnexpectedCharacter('?')));
}

#[test]
fn document_demo_input_parses() {
    let got = EbnfParser::from_str("test: \"haiiii :3\";\n woof: test ;").unwrap();
    assert_eq!(
        got,
        EbnfParser {
            rules: vec![
                EbnfRule { name: "test".to_string(), rule: string_terminal("haiiii :3") },
                EbnfRule { name: "woof".to_string(), rule: rule("test") },
            ]
        }
    );
}

#[test]
fn group_with_newline_advances_line_for_later_errors() {
    let got = EbnfStatement::new("(a\nb) \"x", 1, 1).unwrap_err();
    assert_eq!(got, err(2, 6, ParseEbnfErrorType::UnclosedString));
}

#[test]
fn error_inside_multiline_group_reports_exact_position() {
    let got = EbnfStatement::new("(\n*)", 1, 1).unwrap_err();
    assert_eq!(got, err(2, 1, ParseEbnfErrorType::EmptyRule));
}

#[test]
fn body_scan_reports_where_it_stopped() {
    let got = parse_expression("a\nb; x", 1, 1, true).unwrap();
    assert_eq!(got.statement, concat(vec![rule("a"), rule("b")]));
    assert_eq!(got.end, 4);
    assert_eq!(got.line, 2);
    assert_eq!(got.column, 3);
}

#[test]
fn expression_scan_consumes_everything() {
    let got = parse_expression("a; x", 1, 1, false).unwrap();
    assert_eq!(got.statement, concat(vec![rule("a;"), rule("x")]));
    assert_eq!(got.end, 4);
}

#[test]
fn escaped_newline_inside_string_is_kept() {
    let got = EbnfStatement::new("\"a\\\nb\"", 1, 1).unwrap();
    assert_eq!(
        got,
        EbnfStatement::StringTerminal { string: "a\\\nb".to_string() }
    );
}

#[test]
fn whitespace_only_is_an_empty_rule() {
    let got = EbnfStatement::new("  \t\n ", 1, 1).unwrap_err();
    assert_eq!(got, err(2, 2, ParseEbnfErrorType::EmptyRule));
}

#[test]
fn alternation_without_right_operand() {
    let got = EbnfStatement::new("a |", 1, 1).unwrap_err();
    assert_eq!(got, err(1, 4, ParseEbnfErrorType::EmptyRule));
}

#[test]
fn document_rule_names_may_hold_digits() {
    let got = EbnfParser::from_str("r2: x;").unwrap();
    assert_eq!(got, EbnfParser {
        rules: vec![EbnfRule { name: "r2".to_string(), rule: rule("x") }],
    });
}
