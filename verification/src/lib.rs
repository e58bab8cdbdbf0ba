//! A small ahead-of-time compiler from a tiny expression language to textual
//! 32-bit x86 assembly: a lexer, a recursive-descent parser, an assembly-text
//! builder and a tree-walking code generator, each with a verified contract.

pub mod assembler;
pub mod ast;
pub mod compiler;
pub mod lexer;
pub mod parser;
pub mod pattern;
pub mod text;

pub use assembler::{AsmState, Assembler};
pub use ast::{InBuiltFn, Literal, Node, Op, Program, SpecNode};
pub use compiler::Compiler;
pub use lexer::{ident, lex, try_lex, LexError, SpecToken, Token};
pub use parser::{ParseError, Parser};
