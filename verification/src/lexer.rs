//! The lexer: from the bytes of the source text to the sequence of tokens.

use vstd::prelude::*;
use vstd::string::*;
use crate::ast::Literal;

verus! {

/// Lexical tokens consumed by the parser.
#[derive(Debug, PartialEq, Eq)]
pub enum Token {
    Let,
    Literal(Literal),
    Ident(String),
    Plus,
    LParen,
    RParen,
    Equal,
}

/// The model of a [`Token`]: a name is a sequence of characters, an integer
/// is unbounded.
pub enum SpecToken {
    Let,
    Literal(int),
    Ident(Seq<char>),
    Plus,
    LParen,
    RParen,
    Equal,
}

impl DeepView for Token {
    type V = SpecToken;

    open spec fn deep_view(&self) -> SpecToken {
        match self {
            Token::Let => SpecToken::Let,
            Token::Literal(Literal::Int(v)) => SpecToken::Literal(*v as int),
            Token::Ident(name) => SpecToken::Ident(name@),
            Token::Plus => SpecToken::Plus,
            Token::LParen => SpecToken::LParen,
            Token::RParen => SpecToken::RParen,
            Token::Equal => SpecToken::Equal,
        }
    }
}

/// Why a source text has no token sequence.
#[derive(Debug, PartialEq, Eq)]
pub enum LexError {
    /// A run of digits stands for a number above `i64::MAX`.
    LiteralOutOfRange,
}

/// The byte `+`.
pub const PLUS: u8 = 43;

/// The byte `(`.
pub const LPAREN: u8 = 40;

/// The byte `)`.
pub const RPAREN: u8 = 41;

/// The byte `=`.
pub const EQUAL: u8 = 61;

/// The byte `0`.
pub const DIGIT_ZERO: u8 = 48;

/// The byte `9`.
pub const DIGIT_NINE: u8 = 57;

/// The byte `a`.
pub const LOWER_A: u8 = 97;

/// The byte `z`.
pub const LOWER_Z: u8 = 122;

/// The byte `A`.
pub const UPPER_A: u8 = 65;

/// The byte `Z`.
pub const UPPER_Z: u8 = 90;

/// The byte `_`.
pub const UNDERSCORE: u8 = 95;

/// A decimal digit.
pub open spec fn is_digit(b: u8) -> bool {
    DIGIT_ZERO <= b && b <= DIGIT_NINE
}

/// A byte of a word: a letter or an underscore.
pub open spec fn is_word_byte(b: u8) -> bool {
    (LOWER_A <= b && b <= LOWER_Z) || (UPPER_A <= b && b <= UPPER_Z) || b == UNDERSCORE
}

/// A byte that is a token by itself, or starts one.
pub open spec fn is_recognized(b: u8) -> bool {
    b == PLUS || b == LPAREN || b == RPAREN || b == EQUAL || is_digit(b) || is_word_byte(b)
}

/// Where the run of digits that starts at `pos` ends: the first position
/// from `pos` on that holds no digit.
pub open spec fn digits_end(src: Seq<u8>, pos: int) -> int
    decreases src.len() - pos,
{
    if 0 <= pos < src.len() && is_digit(src[pos]) {
        digits_end(src, pos + 1)
    } else {
        pos
    }
}

/// Where the run of word bytes that starts at `pos` ends.
pub open spec fn word_end(src: Seq<u8>, pos: int) -> int
    decreases src.len() - pos,
{
    if 0 <= pos < src.len() && is_word_byte(src[pos]) {
        word_end(src, pos + 1)
    } else {
        pos
    }
}

/// The number that the digits in `src[from..to]` stand for, in base ten.
pub open spec fn digits_value(src: Seq<u8>, from: int, to: int) -> nat
    decreases to - from,
{
    if to <= from {
        0
    } else {
        (digits_value(src, from, to - 1) * 10 + (src[to - 1] - DIGIT_ZERO)) as nat
    }
}

/// The bytes `src[from..to]` as characters.
pub open spec fn word_text(src: Seq<u8>, from: int, to: int) -> Seq<char> {
    Seq::new((to - from) as nat, |i: int| src[from + i] as char)
}

/// The token of a word: the keyword for `let`, an identifier for any other.
pub open spec fn word_token(word: Seq<char>) -> SpecToken {
    if word == "let"@ {
        SpecToken::Let
    } else {
        SpecToken::Ident(word)
    }
}

/// A run ends at or after its start, and within the text.
pub proof fn lemma_digits_end_bounds(src: Seq<u8>, pos: int)
    requires
        0 <= pos <= src.len(),
    ensures
        pos <= digits_end(src, pos) <= src.len(),
        pos < src.len() && is_digit(src[pos]) ==> pos < digits_end(src, pos),
    decreases src.len() - pos,
{
    if pos < src.len() && is_digit(src[pos]) {
        lemma_digits_end_bounds(src, pos + 1);
    }
}

/// A run ends at or after its start, and within the text.
pub proof fn lemma_word_end_bounds(src: Seq<u8>, pos: int)
    requires
        0 <= pos <= src.len(),
    ensures
        pos <= word_end(src, pos) <= src.len(),
        pos < src.len() && is_word_byte(src[pos]) ==> pos < word_end(src, pos),
    decreases src.len() - pos,
{
    if pos < src.len() && is_word_byte(src[pos]) {
        lemma_word_end_bounds(src, pos + 1);
    }
}

/// The tokens of `src` from position `pos` on. The text is scanned once,
/// left to right: `+`, `(`, `)` and `=` are tokens by themselves, a run of
/// digits is one integer literal, a run of letters and underscores is one
/// word, and any other byte is passed over.
pub open spec fn lex_from(src: Seq<u8>, pos: int) -> Seq<SpecToken>
    decreases src.len() - pos,
{
    if pos < 0 || pos >= src.len() {
        Seq::empty()
    } else {
        let b = src[pos];
        if b == PLUS {
            seq![SpecToken::Plus] + lex_from(src, pos + 1)
        } else if b == LPAREN {
            seq![SpecToken::LParen] + lex_from(src, pos + 1)
        } else if b == RPAREN {
            seq![SpecToken::RParen] + lex_from(src, pos + 1)
        } else if b == EQUAL {
            seq![SpecToken::Equal] + lex_from(src, pos + 1)
        } else if is_digit(b) {
            proof {
                lemma_digits_end_bounds(src, pos);
            }
            let end = digits_end(src, pos);
            seq![SpecToken::Literal(digits_value(src, pos, end) as int)] + lex_from(src, end)
        } else if is_word_byte(b) {
            proof {
                lemma_word_end_bounds(src, pos);
            }
            let end = word_end(src, pos);
            seq![word_token(word_text(src, pos, end))] + lex_from(src, end)
        } else {
            lex_from(src, pos + 1)
        }
    }
}

/// The tokens of a source text.
pub open spec fn lex_tokens(src: Seq<u8>) -> Seq<SpecToken> {
    lex_from(src, 0)
}

/// Every integer literal among the tokens is at most `i64::MAX`.
pub open spec fn literals_fit(tokens: Seq<SpecToken>) -> bool {
    forall|i: int|
        0 <= i < tokens.len() ==> (#[trigger] tokens[i] matches SpecToken::Literal(v) ==> v
            <= i64::MAX)
}

/// More digits never make a smaller number.
pub proof fn lemma_digits_value_grows(src: Seq<u8>, from: int, mid: int, to: int)
    requires
        from <= mid <= to,
        forall|i: int| from <= i < to ==> is_digit(#[trigger] src[i]),
    ensures
        digits_value(src, from, mid) <= digits_value(src, from, to),
    decreases to - mid,
{
    if mid < to {
        lemma_digits_value_grows(src, from, mid, to - 1);
    }
}

/// Every byte of a run of digits is a digit.
pub proof fn lemma_digits_run(src: Seq<u8>, pos: int)
    requires
        0 <= pos <= src.len(),
    ensures
        forall|i: int| pos <= i < digits_end(src, pos) ==> is_digit(#[trigger] src[i]),
    decreases src.len() - pos,
{
    if pos < src.len() && is_digit(src[pos]) {
        lemma_digits_run(src, pos + 1);
    }
}

/// The number that a run of digits stands for depends on those digits
/// alone, wherever in a text they stand.
pub proof fn lemma_digits_value_moves(s: Seq<u8>, t: Seq<u8>, shift: int, from: int, to: int)
    requires
        forall|i: int| from <= i < to ==> s[i + shift] == t[i],
    ensures
        digits_value(s, from + shift, to + shift) == digits_value(t, from, to),
    decreases to - from,
{
    if from < to {
        lemma_digits_value_moves(s, t, shift, from, to - 1);
    }
}

/// A run that starts in a text `a` ends at the same place when `a` is
/// followed by a byte that no token holds, and then by anything.
pub proof fn lemma_run_stops_at_unrecognized(a: Seq<u8>, x: u8, b: Seq<u8>, pos: int)
    requires
        0 <= pos <= a.len(),
        !is_recognized(x),
    ensures
        digits_end(a + seq![x] + b, pos) == digits_end(a, pos),
        word_end(a + seq![x] + b, pos) == word_end(a, pos),
    decreases a.len() - pos,
{
    let src = a + seq![x] + b;
    if pos < a.len() {
        assert(src[pos] == a[pos]);
        lemma_run_stops_at_unrecognized(a, x, b, pos + 1);
    } else {
        assert(src[pos] == x);
    }
}

/// A run in a text `b` ends at the same place, counted from the start of
/// `b`, when `b` stands behind another text.
pub proof fn lemma_run_moves(p: Seq<u8>, b: Seq<u8>, pos: int)
    requires
        0 <= pos <= b.len(),
    ensures
        digits_end(p + b, p.len() + pos) == p.len() + digits_end(b, pos),
        word_end(p + b, p.len() + pos) == p.len() + word_end(b, pos),
    decreases b.len() - pos,
{
    if pos < b.len() {
        assert((p + b)[p.len() + pos] == b[pos]);
        lemma_run_moves(p, b, pos + 1);
    }
}

/// The tokens of a text `b` are the same when `b` stands behind another
/// text and the scan starts where `b` does.
pub proof fn lemma_lex_moves(p: Seq<u8>, b: Seq<u8>, pos: int)
    requires
        0 <= pos <= b.len(),
    ensures
        lex_from(p + b, p.len() + pos) == lex_from(b, pos),
    decreases b.len() - pos,
{
    let src = p + b;
    let at = p.len() + pos;
    if pos < b.len() {
        assert(src[at] == b[pos]);
        let c = b[pos];
        if c == PLUS || c == LPAREN || c == RPAREN || c == EQUAL {
            lemma_lex_moves(p, b, pos + 1);
        } else if is_digit(c) {
            let end = digits_end(b, pos);
            lemma_digits_end_bounds(b, pos);
            lemma_run_moves(p, b, pos);
            assert forall|i: int| pos <= i < end implies src[i + p.len()] == b[i] by {}
            lemma_digits_value_moves(src, b, p.len() as int, pos, end);
            lemma_lex_moves(p, b, end);
        } else if is_word_byte(c) {
            let end = word_end(b, pos);
            lemma_word_end_bounds(b, pos);
            lemma_run_moves(p, b, pos);
            assert(word_text(src, at, p.len() + end) =~= word_text(b, pos, end));
            lemma_lex_moves(p, b, end);
        } else {
            lemma_lex_moves(p, b, pos + 1);
        }
    }
}

/// The tokens of a text `a` from `pos` on come out the same, and first,
/// when `a` is followed by a byte that no token holds, and then by
/// anything.
pub proof fn lemma_lex_stops_at_unrecognized(a: Seq<u8>, x: u8, b: Seq<u8>, pos: int)
    requires
        0 <= pos <= a.len(),
        !is_recognized(x),
    ensures
        lex_from(a + seq![x] + b, pos) == lex_from(a, pos) + lex_from(
            a + seq![x] + b,
            a.len() as int,
        ),
    decreases a.len() - pos,
{
    let src = a + seq![x] + b;
    let tail = lex_from(src, a.len() as int);
    if pos < a.len() {
        assert(src[pos] == a[pos]);
        let c = a[pos];
        if c == PLUS || c == LPAREN || c == RPAREN || c == EQUAL {
            lemma_lex_stops_at_unrecognized(a, x, b, pos + 1);
            let head = lex_from(a, pos).first();
            assert(lex_from(src, pos) =~= (seq![head] + lex_from(a, pos + 1)) + tail);
        } else if is_digit(c) {
            let end = digits_end(a, pos);
            lemma_digits_end_bounds(a, pos);
            lemma_run_stops_at_unrecognized(a, x, b, pos);
            assert forall|i: int| pos <= i < end implies src[i + 0] == a[i] by {}
            lemma_digits_value_moves(src, a, 0, pos, end);
            lemma_lex_stops_at_unrecognized(a, x, b, end);
            let head = SpecToken::Literal(digits_value(a, pos, end) as int);
            assert(lex_from(src, pos) =~= (seq![head] + lex_from(a, end)) + tail);
        } else if is_word_byte(c) {
            let end = word_end(a, pos);
            lemma_word_end_bounds(a, pos);
            lemma_run_stops_at_unrecognized(a, x, b, pos);
            assert(word_text(src, pos, end) =~= word_text(a, pos, end));
            lemma_lex_stops_at_unrecognized(a, x, b, end);
            let head = word_token(word_text(a, pos, end));
            assert(lex_from(src, pos) =~= (seq![head] + lex_from(a, end)) + tail);
        } else {
            lemma_lex_stops_at_unrecognized(a, x, b, pos + 1);
        }
    } else {
        assert(lex_from(a, pos) + tail =~= tail);
    }
}

/// A byte that no token holds is dropped and separates what stands on its
/// two sides: the tokens of `a`, the byte and `b` in a row are the tokens of
/// `a` followed by the tokens of `b`.
pub proof fn lemma_unrecognized_byte_is_dropped(a: Seq<u8>, x: u8, b: Seq<u8>)
    requires
        !is_recognized(x),
    ensures
        lex_tokens(a + seq![x] + b) == lex_tokens(a) + lex_tokens(b),
{
    let src = a + seq![x] + b;
    lemma_lex_stops_at_unrecognized(a, x, b, 0);
    assert(src[a.len() as int] == x);
    assert(lex_from(src, a.len() as int) == lex_from(src, a.len() as int + 1));
    lemma_lex_moves(a + seq![x], b, 0);
}

/// The token of a word.
pub fn ident(candidate: String) -> (token: Token)
    ensures
        token.deep_view() == word_token(candidate@),
{
    let keyword = String::from_str("let");
    if candidate.eq(&keyword) {
        Token::Let
    } else {
        Token::Ident(candidate)
    }
}

/// The tokens of a source text, or the reason why it has none.
pub fn try_lex(input: &str) -> (res: Result<Vec<Token>, LexError>)
    ensures
        match res {
            Ok(tokens) => {
                &&& literals_fit(lex_tokens(input.spec_bytes()))
                &&& tokens.deep_view() == lex_tokens(input.spec_bytes())
            },
            Err(LexError::LiteralOutOfRange) => !literals_fit(lex_tokens(input.spec_bytes())),
        },
{
    let src = input.as_bytes();
    let ghost bytes = input.spec_bytes();
    let mut tokens: Vec<Token> = Vec::new();
    let mut pos: usize = 0;
    while pos < src.len()
        invariant
            pos <= src.len(),
            src@ == bytes,
            bytes == input.spec_bytes(),
            literals_fit(tokens.deep_view()),
            lex_tokens(bytes) == tokens.deep_view() + lex_from(bytes, pos as int),
        decreases src.len() - pos,
    {
        let ghost done = tokens.deep_view();
        let ch = src[pos];
        let token = if ch == PLUS {
            pos += 1;
            Token::Plus
        } else if ch == LPAREN {
            pos += 1;
            Token::LParen
        } else if ch == RPAREN {
            pos += 1;
            Token::RParen
        } else if ch == EQUAL {
            pos += 1;
            Token::Equal
        } else if DIGIT_ZERO <= ch && ch <= DIGIT_NINE {
            let start = pos;
            let mut num: i64 = 0;
            while pos < src.len() && DIGIT_ZERO <= src[pos] && src[pos] <= DIGIT_NINE
                invariant
                    start <= pos <= src.len(),
                    src@ == bytes,
                    bytes == input.spec_bytes(),
                    digits_end(bytes, start as int) == digits_end(bytes, pos as int),
                    forall|i: int| start <= i < pos ==> is_digit(#[trigger] bytes[i]),
                    num == digits_value(bytes, start as int, pos as int),
                    lex_tokens(bytes) == done + lex_from(bytes, start as int),
                    0 <= start < src.len(),
                    is_digit(bytes[start as int]),
                decreases src.len() - pos,
            {
                let digit: i64 = (src[pos] - DIGIT_ZERO) as i64;
                if num > (i64::MAX - digit) / 10 {
                    proof {
                        let end = digits_end(bytes, start as int);
                        lemma_digits_end_bounds(bytes, pos as int);
                        lemma_digits_run(bytes, pos as int);
                        lemma_digits_value_grows(bytes, start as int, pos + 1, end);
                        assert(digits_value(bytes, start as int, pos + 1) == num * 10 + digit);
                        let all = lex_tokens(bytes);
                        assert(all[done.len() as int] == SpecToken::Literal(
                            digits_value(bytes, start as int, end) as int,
                        ));
                    }
                    return Err(LexError::LiteralOutOfRange);
                }
                num = num * 10 + digit;
                pos += 1;
            }
            Token::Literal(Literal::Int(num))
        } else if (LOWER_A <= ch && ch <= LOWER_Z) || (UPPER_A <= ch && ch <= UPPER_Z) || ch == UNDERSCORE {
            let start = pos;
            let mut idt = String::new();
            while pos < src.len() && ((LOWER_A <= src[pos] && src[pos] <= LOWER_Z) || (UPPER_A <= src[pos]
                && src[pos] <= UPPER_Z) || src[pos] == UNDERSCORE)
                invariant
                    start <= pos <= src.len(),
                    src@ == bytes,
                    word_end(bytes, start as int) == word_end(bytes, pos as int),
                    idt@ == word_text(bytes, start as int, pos as int),
                decreases src.len() - pos,
            {
                idt.push(src[pos] as char);
                pos += 1;
            }
            ident(idt)
        } else {
            pos += 1;
            continue ;
        };
        tokens.push(token);
        proof {
            assert(tokens.deep_view() == done.push(token.deep_view()));
        }
    }
    Ok(tokens)
}

/// The tokens of a source text in which every run of digits stands for a
/// number of at most `i64::MAX`.
pub fn lex(input: &str) -> (tokens: Vec<Token>)
    requires
        literals_fit(lex_tokens(input.spec_bytes())),
    ensures
        tokens.deep_view() == lex_tokens(input.spec_bytes()),
{
    try_lex(input).unwrap()
}

} // verus!
