use x86gen::{ident, lex, try_lex, LexError, Literal, Token};

fn num(v: i64) -> Token {
    Token::Literal(Literal::Int(v))
}

fn word(name: &str) -> Token {
    Token::Ident(name.to_string())
}

#[test]
fn lex_sum_of_two_literals() {
    assert_eq!(lex("1 + 1"), vec![num(1), Token::Plus, num(1)]);
}

#[test]
fn lex_drops_unrecognized_bytes() {
    assert_eq!(lex("1 @ 1"), vec![num(1), num(1)]);
    assert_eq!(try_lex("1 @ 1"), Ok(vec![num(1), num(1)]));
}

#[test]
fn lex_empty_and_garbage_give_no_token() {
    assert_eq!(lex(""), vec![]);
    assert_eq!(lex(" \t\n;,.-*/{}[]@#"), vec![]);
    assert_eq!(lex("\u{e9}\u{4e2d}\u{1f600}"), vec![]);
}

#[test]
fn lex_single_character_tokens() {
    assert_eq!(
        lex("+()="),
        vec![Token::Plus, Token::LParen, Token::RParen, Token::Equal]
    );
}

#[test]
fn lex_digit_runs_are_greedy() {
    assert_eq!(lex("42"), vec![num(42)]);
    assert_eq!(lex("007"), vec![num(7)]);
    assert_eq!(lex("12 34"), vec![num(12), num(34)]);
    assert_eq!(lex("12a34"), vec![num(12), word("a"), num(34)]);
    assert_eq!(lex("0"), vec![num(0)]);
}

#[test]
fn lex_word_runs_are_greedy() {
    assert_eq!(lex("foo_Bar"), vec![word("foo_Bar")]);
    assert_eq!(lex("_"), vec![word("_")]);
    assert_eq!(lex("a1"), vec![word("a"), num(1)]);
    assert_eq!(lex("a\u{e9}b"), vec![word("a"), word("b")]);
}

#[test]
fn lex_let_is_a_keyword_only_as_a_whole_word() {
    assert_eq!(lex("let"), vec![Token::Let]);
    assert_eq!(lex("lets"), vec![word("lets")]);
    assert_eq!(lex("Let"), vec![word("Let")]);
    assert_eq!(lex("le t"), vec![word("le"), word("t")]);
    assert_eq!(lex("_let"), vec![word("_let")]);
}

#[test]
fn lex_binding_and_call() {
    assert_eq!(
        lex("let x = 1 + 1; print(x)"),
        vec![
            Token::Let,
            word("x"),
            Token::Equal,
            num(1),
            Token::Plus,
            num(1),
            word("print"),
            Token::LParen,
            word("x"),
            Token::RParen,
        ]
    );
}

#[test]
fn lex_largest_literal() {
    assert_eq!(lex("9223372036854775807"), vec![num(i64::MAX)]);
    assert_eq!(
        lex("0000000000000000000009223372036854775807"),
        vec![num(i64::MAX)]
    );
}

#[test]
fn try_lex_rejects_a_literal_out_of_range() {
    assert_eq!(
        try_lex("9223372036854775808"),
        Err(LexError::LiteralOutOfRange)
    );
    assert_eq!(
        try_lex("1 + 99999999999999999999"),
        Err(LexError::LiteralOutOfRange)
    );
    assert_eq!(
        try_lex("92233720368547758070"),
        Err(LexError::LiteralOutOfRange)
    );
}

#[test]
fn unrecognized_byte_separates_two_texts() {
    let left = "let ab = 12";
    let right = "34 + cd";
    let joined = format!("{}{}{}", left, "@", right);
    let mut expected = lex(left);
    expected.extend(lex(right));
    assert_eq!(lex(&joined), expected);
}

#[test]
fn ident_tells_the_keyword_from_a_name() {
    assert_eq!(ident("let".to_string()), Token::Let);
    assert_eq!(ident("x".to_string()), word("x"));
    assert_eq!(ident("".to_string()), word(""));
}
