use ebnf_parse::ast::EbnfStatement;
use ebnf_parse::error::ParseEbnfError;
use ebnf_parse::error::ParseEbnfErrorType;

fn rule(name: &str) -> EbnfStatement {
    EbnfStatement::DefinedRule { rulename: name.to_string() }
}

fn concat(parts: Vec<EbnfStatement>) -> EbnfStatement {
    EbnfStatement::Concatenation { rules: parts }
}

fn alt(left: EbnfStatement, right: EbnfStatement) -> EbnfStatement {
    EbnfStatement::Alternation { left: Box::new(left), right: Box::new(right) }
}

#[test]
fn render_terminals_and_words() {
    assert_eq!(EbnfStatement::StringTerminal { string: "hi".to_string() }.render(), "\"hi\"");
    assert_eq!(EbnfStatement::RegexTerminal { string: "a+b".to_string() }.render(), "/a+b/");
    assert_eq!(rule("word").render(), "word");
}

#[test]
fn render_composites() {
    assert_eq!(concat(vec![rule("a"), rule("b"), rule("c")]).render(), "a b c");
    assert_eq!(alt(rule("a"), alt(rule("b"), rule("c"))).render(), "a|b|c");
    assert_eq!(
        EbnfStatement::ZeroOrMore { rule: Box::new(concat(vec![rule("a"), rule("b")])) }.render(),
        "(a b)*"
    );
    assert_eq!(
        concat(vec![alt(rule("a"), rule("b")), EbnfStatement::Optional {
            rule: Box::new(rule("c")),
        }])
            .render(),
        "(a|b) c?"
    );
}

#[test]
fn reparsing_rendered_statement_gives_same_shape() {
    let cases = vec![
        "a b c",
        "a | b | c",
        "a?",
        "(a b)* \"lit\" /pat/+",
        "\"x y\" | one two | three?",
    ];
    for text in cases {
        let first = EbnfStatement::new(text, 1, 1).unwrap();
        let rendered = first.render();
        let second = EbnfStatement::new(&rendered, 1, 1).unwrap();
        assert_eq!(second, first);
    }
}

#[test]
fn message_unclosed_string() {
    let e = ParseEbnfError { line: 12, column: 345, errtype: ParseEbnfErrorType::UnclosedString };
    assert_eq!(e.message(), "Unclosed String, expected '\"' at line 12, column 345!");
}

#[test]
fn message_unclosed_paren() {
    let e = ParseEbnfError { line: 2, column: 3, errtype: ParseEbnfErrorType::UnclosedParen };
    assert_eq!(e.message(), "Unclosed Parentheses, expected ')' at line 2, column 3!");
}

#[test]
fn message_unclosed_regex() {
    let e = ParseEbnfError { line: 1, column: 4, errtype: ParseEbnfErrorType::UnclosedRegex };
    assert_eq!(e.message(), "Unclosed Regex, expected '/' at line 1, column 4!");
}

#[test]
fn message_unexpected_character() {
    let e = ParseEbnfError {
        line: 7,
        column: 90,
        errtype: ParseEbnfErrorType::UnexpectedCharacter('x'),
    };
    assert_eq!(e.message(), "Unexpected 'x' at line 7, column 90!");
}

#[test]
fn message_empty_rule() {
    let e = ParseEbnfError { line: 1, column: 1, errtype: ParseEbnfErrorType::EmptyRule };
    assert_eq!(e.message(), "Empty rule in line 1, column 1!");
}

#[test]
fn message_multi_digit_positions() {
    let e = ParseEbnfError { line: 100, column: 10, errtype: ParseEbnfErrorType::EmptyRule };
    assert_eq!(e.message(), "Empty rule in line 100, column 10!");
}
