use x86gen::{lex, InBuiltFn, Literal, Node, Op, ParseError, Parser, Token};

fn num(v: i64) -> Node {
    Node::Literal(Literal::Int(v))
}

fn name(text: &str) -> Node {
    Node::Ident(text.to_string())
}

fn sum(lhs: Node, rhs: Node) -> Node {
    Node::Infix {
        lhs: Box::new(lhs),
        rhs: Box::new(rhs),
        op: Op::Add,
    }
}

fn print(value: Node) -> Node {
    Node::Fn(InBuiltFn::Print(Box::new(value)))
}

fn assign(text: &str, value: Node) -> Node {
    Node::Assign(text.to_string(), Box::new(value))
}

#[test]
fn parse_sum_is_right_associative() {
    let program = Parser::parse(lex("1 + 2 + 3"));
    assert_eq!(program, vec![sum(num(1), sum(num(2), num(3)))]);
    assert_ne!(program, vec![sum(sum(num(1), num(2)), num(3))]);
}

#[test]
fn parse_binding_of_a_sum() {
    assert_eq!(
        Parser::parse(lex("let x = 1 + 1")),
        vec![assign("x", sum(num(1), num(1)))]
    );
}

#[test]
fn parse_lone_plus_fails() {
    assert_eq!(
        Parser::try_parse(lex("+")),
        Err(ParseError::UnexpectedToken)
    );
}

#[test]
fn parse_token_that_begins_no_primary_fails() {
    for text in ["+", "(", ")", "=", "1 )", "1 + )", "x = 1", "f(+)", "let x = )"] {
        assert_eq!(
            Parser::try_parse(lex(text)),
            Err(ParseError::UnexpectedToken),
            "{}",
            text
        );
    }
}

#[test]
fn parse_binding_below_the_statement_level_fails() {
    for text in ["1 + let x = 2", "f(let x = 1)", "let x = let y = 1"] {
        assert_eq!(
            Parser::try_parse(lex(text)),
            Err(ParseError::UnexpectedToken),
            "{}",
            text
        );
    }
}

#[test]
fn parse_let_without_a_name_fails() {
    for text in ["let", "let 1", "let = 1", "let let x = 1", "let (x)"] {
        assert_eq!(
            Parser::try_parse(lex(text)),
            Err(ParseError::ExpectedIdent),
            "{}",
            text
        );
    }
}

#[test]
fn parse_missing_value_or_argument_fails() {
    for text in ["let x", "let x =", "let x = 1 +", "f(", "f(1 +"] {
        assert_eq!(
            Parser::try_parse(lex(text)),
            Err(ParseError::UnexpectedEnd),
            "{}",
            text
        );
    }
}

#[test]
fn parse_empty_token_sequence_is_the_empty_program() {
    assert_eq!(Parser::parse(vec![]), vec![]);
    assert_eq!(Parser::try_parse(lex("  ")), Ok(vec![]));
}

#[test]
fn parse_statements_in_source_order() {
    assert_eq!(
        Parser::parse(lex("let x = 1 + 1; print(x)")),
        vec![assign("x", sum(num(1), num(1))), print(name("x"))]
    );
    assert_eq!(
        Parser::parse(lex("1 2 a")),
        vec![num(1), num(2), name("a")]
    );
}

#[test]
fn parse_any_call_is_a_print() {
    assert_eq!(Parser::parse(lex("print(1)")), vec![print(num(1))]);
    assert_eq!(Parser::parse(lex("frobnicate(1)")), vec![print(num(1))]);
    assert_eq!(
        Parser::parse(lex("f(1) + 2")),
        vec![sum(print(num(1)), num(2))]
    );
    assert_eq!(Parser::parse(lex("f(g(x))")), vec![print(print(name("x")))]);
}

#[test]
fn parse_separator_and_closing_token_are_not_looked_at() {
    assert_eq!(
        Parser::parse(lex("let x + 1")),
        vec![assign("x", num(1))]
    );
    assert_eq!(
        Parser::parse(lex("let x 7 1")),
        vec![assign("x", num(1))]
    );
    assert_eq!(Parser::parse(lex("f(1 2")), vec![print(num(1))]);
    assert_eq!(Parser::parse(lex("f(1")), vec![print(num(1))]);
    assert_eq!(
        Parser::parse(lex("f(1 = + 2")),
        vec![sum(print(num(1)), num(2))]
    );
}

#[test]
fn parse_ends_where_the_tokens_end_behind_a_plus() {
    assert_eq!(Parser::parse(lex("1 +")), vec![]);
    assert_eq!(Parser::parse(lex("1 + 2 +")), vec![]);
    assert_eq!(Parser::parse(lex("7 1 +")), vec![num(7)]);
}

#[test]
fn parse_tokens_built_by_hand() {
    let tokens = vec![
        Token::Ident("a".to_string()),
        Token::Plus,
        Token::Literal(Literal::Int(-3)),
    ];
    assert_eq!(Parser::parse(tokens), vec![sum(name("a"), num(-3))]);
}

#[test]
fn parse_error_messages() {
    assert_eq!(ParseError::UnexpectedToken.message(), "Unexpected token");
    assert_eq!(
        ParseError::ExpectedIdent.message(),
        "Expected Ident after `let`"
    );
    assert_eq!(
        ParseError::UnexpectedEnd.message(),
        "Unexpected end of input"
    );
}
