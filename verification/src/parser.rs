//! The parser: from the sequence of tokens to the statements of a program,
//! by recursive descent with one token of lookahead.
//!
//! ```text
//! Program    := Statement*
//! Statement  := LetBinding | Expression
//! LetBinding := 'let' Ident <any token> Expression
//! Expression := Primary ('+' Expression)?
//! Primary    := IntegerLiteral | Ident '(' Expression <any token> | Ident
//! ```

use vstd::prelude::*;
use vstd::string::*;
use crate::ast::{InBuiltFn, Literal, Node, Op, Program, SpecNode};
use crate::lexer::{SpecToken, Token};

verus! {

/// Why a token sequence is no program.
#[derive(Debug, Clone, Copy, PartialEq, Eq)]
pub enum ParseError {
    /// A token stands where a primary expression must begin and cannot
    /// begin one.
    UnexpectedToken,
    /// `let` is not followed by an identifier.
    ExpectedIdent,
    /// The tokens end where the value of a binding or the argument of a call
    /// must stand.
    UnexpectedEnd,
}

impl ParseError {
    /// The diagnostic message of each error.
    pub open spec fn message_text(self) -> Seq<char> {
        match self {
            ParseError::UnexpectedToken => "Unexpected token"@,
            ParseError::ExpectedIdent => "Expected Ident after `let`"@,
            ParseError::UnexpectedEnd => "Unexpected end of input"@,
        }
    }

    /// The diagnostic message of this error.
    pub fn message(&self) -> (text: &'static str)
        ensures
            text@ == self.message_text(),
    {
        match self {
            ParseError::UnexpectedToken => "Unexpected token",
            ParseError::ExpectedIdent => "Expected Ident after `let`",
            ParseError::UnexpectedEnd => "Unexpected end of input",
        }
    }
}

/// The outcome of parsing one construct at some position.
pub enum Parsed {
    /// The tokens ended: either none was left, or they ended behind a `+`.
    /// Nothing is left to read.
    End,
    /// The construct, and the position behind it.
    Tree(SpecNode, int),
    /// The tokens are no program.
    Fail(ParseError),
}

/// The position behind the token at `pos`, which is passed over whatever it
/// is; at the end of the tokens there is nothing to pass over.
pub open spec fn skip_token(tokens: Seq<SpecToken>, pos: int) -> int {
    if pos < tokens.len() {
        pos + 1
    } else {
        pos
    }
}

/// A primary expression at `pos`: an integer literal, a call, or an
/// identifier. An identifier directly before `(` is a call, and every call
/// is a print, whatever the identifier; the token behind the argument is
/// passed over as the closing parenthesis.
pub open spec fn parse_primary(tokens: Seq<SpecToken>, pos: int) -> Parsed
    decreases tokens.len() - pos, 0int,
{
    if pos < 0 || pos >= tokens.len() {
        Parsed::End
    } else {
        match tokens[pos] {
            SpecToken::Literal(v) => Parsed::Tree(SpecNode::Literal(v), pos + 1),
            SpecToken::Ident(name) => if pos + 1 < tokens.len() && tokens[pos + 1]
                is LParen {
                match parse_expression(tokens, pos + 2) {
                    Parsed::Tree(param, next) => Parsed::Tree(
                        SpecNode::Print(Box::new(param)),
                        skip_token(tokens, next),
                    ),
                    Parsed::End => Parsed::Fail(ParseError::UnexpectedEnd),
                    Parsed::Fail(e) => Parsed::Fail(e),
                }
            } else {
                Parsed::Tree(SpecNode::Ident(name), pos + 1)
            },
            _ => Parsed::Fail(ParseError::UnexpectedToken),
        }
    }
}

/// An expression at `pos`: a primary expression and, behind a `+`, the
/// expression that is added to it, so that `a + b + c` is `a + (b + c)`.
/// Where the tokens end behind the `+`, so does the parse. (The test
/// `pos < next` holds of every primary expression; it is stated for the
/// sake of termination.)
pub open spec fn parse_expression(tokens: Seq<SpecToken>, pos: int) -> Parsed
    decreases tokens.len() - pos, 1int,
{
    match parse_primary(tokens, pos) {
        Parsed::Tree(lhs, next) => if pos < next < tokens.len() && tokens[next] is Plus {
            match parse_expression(tokens, next + 1) {
                Parsed::Tree(rhs, end) => Parsed::Tree(
                    SpecNode::Infix { lhs: Box::new(lhs), rhs: Box::new(rhs), op: Op::Add },
                    end,
                ),
                Parsed::End => Parsed::End,
                Parsed::Fail(e) => Parsed::Fail(e),
            }
        } else {
            Parsed::Tree(lhs, next)
        },
        Parsed::End => Parsed::End,
        Parsed::Fail(e) => Parsed::Fail(e),
    }
}

/// A statement at `pos`: a binding or an expression. In a binding the token
/// behind the name is passed over as the separator.
pub open spec fn parse_statement(tokens: Seq<SpecToken>, pos: int) -> Parsed {
    if 0 <= pos < tokens.len() && tokens[pos] is Let {
        if pos + 1 < tokens.len() && tokens[pos + 1] is Ident {
            match parse_expression(tokens, skip_token(tokens, pos + 2)) {
                Parsed::Tree(value, next) => Parsed::Tree(
                    SpecNode::Assign(tokens[pos + 1]->Ident_0, Box::new(value)),
                    next,
                ),
                Parsed::End => Parsed::Fail(ParseError::UnexpectedEnd),
                Parsed::Fail(e) => Parsed::Fail(e),
            }
        } else {
            Parsed::Fail(ParseError::ExpectedIdent)
        }
    } else {
        parse_expression(tokens, pos)
    }
}

/// The statements from `pos` on, up to the end of the tokens. (The test
/// `pos < next <= tokens.len()` holds of every statement; it is stated for
/// the sake of termination.)
pub open spec fn parse_statements(tokens: Seq<SpecToken>, pos: int) -> Result<
    Seq<SpecNode>,
    ParseError,
>
    decreases tokens.len() - pos,
{
    match parse_statement(tokens, pos) {
        Parsed::End => Ok(Seq::empty()),
        Parsed::Fail(e) => Err(e),
        Parsed::Tree(node, next) => if pos < next <= tokens.len() {
            match parse_statements(tokens, next) {
                Ok(rest) => Ok(seq![node] + rest),
                Err(e) => Err(e),
            }
        } else {
            Ok(seq![node])
        },
    }
}

/// The program that a token sequence stands for, or the reason why it
/// stands for none.
pub open spec fn parse_program(tokens: Seq<SpecToken>) -> Result<Seq<SpecNode>, ParseError> {
    parse_statements(tokens, 0)
}

/// A primary expression ends behind its start and within the tokens.
pub proof fn lemma_primary_advances(tokens: Seq<SpecToken>, pos: int)
    requires
        0 <= pos <= tokens.len(),
    ensures
        parse_primary(tokens, pos) matches Parsed::Tree(_, next) ==> pos < next <= tokens.len(),
    decreases tokens.len() - pos, 0int,
{
    if pos < tokens.len() && tokens[pos] is Ident && pos + 1 < tokens.len() && tokens[pos + 1]
        is LParen {
        lemma_expression_advances(tokens, pos + 2);
    }
}

/// An expression ends behind its start and within the tokens.
pub proof fn lemma_expression_advances(tokens: Seq<SpecToken>, pos: int)
    requires
        0 <= pos <= tokens.len(),
    ensures
        parse_expression(tokens, pos) matches Parsed::Tree(_, next) ==> pos < next
            <= tokens.len(),
    decreases tokens.len() - pos, 1int,
{
    lemma_primary_advances(tokens, pos);
    match parse_primary(tokens, pos) {
        Parsed::Tree(_, next) => {
            if next < tokens.len() && tokens[next] is Plus {
                lemma_expression_advances(tokens, next + 1);
            }
        },
        _ => {},
    }
}

/// A statement ends behind its start and within the tokens.
pub proof fn lemma_statement_advances(tokens: Seq<SpecToken>, pos: int)
    requires
        0 <= pos <= tokens.len(),
    ensures
        parse_statement(tokens, pos) matches Parsed::Tree(_, next) ==> pos < next
            <= tokens.len(),
{
    if pos < tokens.len() && tokens[pos] is Let {
        if pos + 1 < tokens.len() && tokens[pos + 1] is Ident {
            lemma_expression_advances(tokens, skip_token(tokens, pos + 2));
        }
    } else {
        lemma_expression_advances(tokens, pos);
    }
}

/// A token that begins neither a binding nor a primary expression.
pub open spec fn begins_no_statement(token: SpecToken) -> bool {
    token is Plus || token is LParen || token is RParen || token is Equal
}

/// A statement never begins with `+`, `(`, `)` or `=`: where such a token
/// leads a statement the parse fails, whatever follows, and no node is made
/// of it.
pub proof fn lemma_stray_token_fails(tokens: Seq<SpecToken>, pos: int)
    requires
        0 <= pos < tokens.len(),
        begins_no_statement(tokens[pos]),
    ensures
        parse_statement(tokens, pos) == Parsed::Fail(ParseError::UnexpectedToken),
        parse_statements(tokens, pos) == Err::<Seq<SpecNode>, ParseError>(
            ParseError::UnexpectedToken,
        ),
        pos == 0 ==> parse_program(tokens) == Err::<Seq<SpecNode>, ParseError>(
            ParseError::UnexpectedToken,
        ),
{
    assert(parse_primary(tokens, pos) == Parsed::Fail(ParseError::UnexpectedToken));
    assert(parse_expression(tokens, pos) == Parsed::Fail(ParseError::UnexpectedToken));
}

/// What the parsing functions hand back, as an outcome.
pub open spec fn outcome(res: Result<Option<(Node, usize)>, ParseError>) -> Parsed {
    match res {
        Ok(Some((node, next))) => Parsed::Tree(node.deep_view(), next as int),
        Ok(None) => Parsed::End,
        Err(e) => Parsed::Fail(e),
    }
}

/// A construct ends behind its start and within the tokens.
pub open spec fn advances(res: Result<Option<(Node, usize)>, ParseError>, pos: usize, len: nat) -> bool {
    res matches Ok(Some((_, next))) ==> pos < next <= len
}

pub struct Parser;

impl Parser {
    /// The program that the tokens stand for. The tokens must stand for
    /// one.
    pub fn parse(tokens: Vec<Token>) -> (program: Program)
        requires
            parse_program(tokens.deep_view()) is Ok,
        ensures
            Ok::<Seq<SpecNode>, ParseError>(program.deep_view()) == parse_program(
                tokens.deep_view(),
            ),
    {
        Self::try_parse(tokens).unwrap()
    }

    /// The program that the tokens stand for, or the reason why they stand
    /// for none.
    pub fn try_parse(tokens: Vec<Token>) -> (res: Result<Program, ParseError>)
        ensures
            match res {
                Ok(program) => parse_program(tokens.deep_view()) == Ok::<
                    Seq<SpecNode>,
                    ParseError,
                >(program.deep_view()),
                Err(e) => parse_program(tokens.deep_view()) == Err::<Seq<SpecNode>, ParseError>(e),
            },
    {
        let ghost all = tokens.deep_view();
        let mut program: Program = Vec::new();
        let mut pos: usize = 0;
        loop
            invariant
                pos <= tokens.len(),
                all == tokens.deep_view(),
                match parse_statements(all, pos as int) {
                    Ok(rest) => parse_program(all) == Ok::<Seq<SpecNode>, ParseError>(
                        program.deep_view() + rest,
                    ),
                    Err(e) => parse_program(all) == Err::<Seq<SpecNode>, ParseError>(e),
                },
            decreases tokens.len() - pos,
        {
            let ghost done = program.deep_view();
            match Self::parse_token(&tokens, pos) {
                Ok(Some((node, next))) => {
                    program.push(node);
                    proof {
                        assert(program.deep_view() == done.push(node.deep_view()));
                        match parse_statements(all, next as int) {
                            Ok(rest) => {
                                assert(done + (seq![node.deep_view()] + rest) == done.push(
                                    node.deep_view(),
                                ) + rest);
                            },
                            Err(_) => {},
                        }
                    }
                    pos = next;
                },
                Ok(None) => {
                    proof {
                        assert(done + Seq::<SpecNode>::empty() == done);
                    }
                    return Ok(program);
                },
                Err(e) => {
                    return Err(e);
                },
            }
        }
    }

    /// One statement at `pos`.
    fn parse_token(tokens: &Vec<Token>, pos: usize) -> (res: Result<
        Option<(Node, usize)>,
        ParseError,
    >)
        requires
            pos <= tokens.len(),
        ensures
            outcome(res) == parse_statement(tokens.deep_view(), pos as int),
            advances(res, pos, tokens.len() as nat),
    {
        if pos < tokens.len() {
            if let Token::Let = &tokens[pos] {
                if pos + 1 < tokens.len() {
                    if let Token::Ident(name) = &tokens[pos + 1] {
                        let name = name.clone();
                        // The separator is passed over unseen.
                        let start = if pos + 2 < tokens.len() {
                            pos + 3
                        } else {
                            pos + 2
                        };
                        return match Self::parse_expression(tokens, start) {
                            Ok(Some((value, next))) => Ok(
                                Some((Node::Assign(name, Box::new(value)), next)),
                            ),
                            Ok(None) => Err(ParseError::UnexpectedEnd),
                            Err(e) => Err(e),
                        };
                    }
                }
                return Err(ParseError::ExpectedIdent);
            }
        }
        Self::parse_expression(tokens, pos)
    }

    /// One expression at `pos`.
    fn parse_expression(tokens: &Vec<Token>, pos: usize) -> (res: Result<
        Option<(Node, usize)>,
        ParseError,
    >)
        requires
            pos <= tokens.len(),
        ensures
            outcome(res) == parse_expression(tokens.deep_view(), pos as int),
            advances(res, pos, tokens.len() as nat),
        decreases tokens.len() - pos, 1int,
    {
        match Self::parse_primary(tokens, pos) {
            Ok(Some((lhs, next))) => {
                if next < tokens.len() {
                    if let Token::Plus = &tokens[next] {
                        return match Self::parse_expression(tokens, next + 1) {
                            Ok(Some((rhs, end))) => Ok(
                                Some(
                                    (
                                        Node::Infix {
                                            op: Op::Add,
                                            lhs: Box::new(lhs),
                                            rhs: Box::new(rhs),
                                        },
                                        end,
                                    ),
                                ),
                            ),
                            Ok(None) => Ok(None),
                            Err(e) => Err(e),
                        };
                    }
                }
                Ok(Some((lhs, next)))
            },
            Ok(None) => Ok(None),
            Err(e) => Err(e),
        }
    }

    /// One primary expression at `pos`.
    fn parse_primary(tokens: &Vec<Token>, pos: usize) -> (res: Result<
        Option<(Node, usize)>,
        ParseError,
    >)
        requires
            pos <= tokens.len(),
        ensures
            outcome(res) == parse_primary(tokens.deep_view(), pos as int),
            advances(res, pos, tokens.len() as nat),
        decreases tokens.len() - pos, 0int,
    {
        if pos >= tokens.len() {
            return Ok(None);
        }
        match &tokens[pos] {
            Token::Literal(Literal::Int(v)) => Ok(Some((Node::Literal(Literal::Int(*v)), pos + 1))),
            Token::Ident(ident) => {
                if pos + 1 < tokens.len() {
                    if let Token::LParen = &tokens[pos + 1] {
                        return match Self::parse_expression(tokens, pos + 2) {
                            Ok(Some((param, next))) => {
                                // The closing parenthesis is passed over unseen.
                                let end = if next < tokens.len() {
                                    next + 1
                                } else {
                                    next
                                };
                                Ok(Some((Node::Fn(InBuiltFn::Print(Box::new(param))), end)))
                            },
                            Ok(None) => Err(ParseError::UnexpectedEnd),
                            Err(e) => Err(e),
                        };
                    }
                }
                Ok(Some((Node::Ident(ident.clone()), pos + 1)))
            },
            _ => Err(ParseError::UnexpectedToken),
        }
    }
}

} // verus!
