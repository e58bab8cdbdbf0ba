//! The syntax tree that the parser builds and the code generator walks, and
//! its mathematical model.

use vstd::prelude::*;

verus! {

/// Arithmetic operations of the language.
#[derive(Debug, Clone, Copy, PartialEq, Eq)]
pub enum Op {
    Add,
    Sub,
}

/// Literals of the language.
#[derive(Debug, PartialEq, Eq)]
pub enum Literal {
    Int(i64),
}

/// Built-in functions of the language.
#[derive(Debug, PartialEq, Eq)]
pub enum InBuiltFn {
    Print(Box<Node>),
}

/// A node of the syntax tree.
#[derive(Debug, PartialEq, Eq)]
pub enum Node {
    Infix { lhs: Box<Node>, rhs: Box<Node>, op: Op },
    Literal(Literal),
    Fn(InBuiltFn),
    Ident(String),
    Assign(String, Box<Node>),
}

/// A program: its top-level statements, in source order.
pub type Program = Vec<Node>;

/// The model of a [`Node`]: names are sequences of characters, integers are
/// unbounded, and the one built-in call is a variant of its own.
pub enum SpecNode {
    Infix { lhs: Box<SpecNode>, rhs: Box<SpecNode>, op: Op },
    Literal(int),
    Print(Box<SpecNode>),
    Ident(Seq<char>),
    Assign(Seq<char>, Box<SpecNode>),
}

/// The model of a tree, node by node.
pub open spec fn node_model(node: Node) -> SpecNode
    decreases node,
{
    match node {
        Node::Infix { lhs, rhs, op } => SpecNode::Infix {
            lhs: Box::new(node_model(*lhs)),
            rhs: Box::new(node_model(*rhs)),
            op,
        },
        Node::Literal(Literal::Int(v)) => SpecNode::Literal(v as int),
        Node::Fn(InBuiltFn::Print(value)) => SpecNode::Print(Box::new(node_model(*value))),
        Node::Ident(name) => SpecNode::Ident(name@),
        Node::Assign(name, value) => SpecNode::Assign(name@, Box::new(node_model(*value))),
    }
}

impl DeepView for Node {
    type V = SpecNode;

    open spec fn deep_view(&self) -> SpecNode {
        node_model(*self)
    }
}

/// The number of nodes in a tree.
pub open spec fn node_count(node: SpecNode) -> nat
    decreases node,
{
    match node {
        SpecNode::Infix { lhs, rhs, .. } => 1 + node_count(*lhs) + node_count(*rhs),
        SpecNode::Literal(_) => 1,
        SpecNode::Print(value) => 1 + node_count(*value),
        SpecNode::Ident(_) => 1,
        SpecNode::Assign(_, value) => 1 + node_count(*value),
    }
}

/// The number of nodes in the first `n` statements of a program.
pub open spec fn program_node_count(program: Seq<SpecNode>, n: int) -> nat
    decreases n,
{
    if n <= 0 || n > program.len() {
        0
    } else {
        program_node_count(program, n - 1) + node_count(program[n - 1])
    }
}

} // verus!
