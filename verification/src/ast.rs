//! Abstract syntax of the language.
//!
//! The tree is external input: a grammar-driven parser builds it and the
//! evaluator walks it read-only.  The evaluator trusts structural
//! well-formedness (record-literal keys unique, commands non-empty) as far
//! as it can, and reports a fatal error otherwise.

use vstd::prelude::*;

use crate::types::Type;

verus! {

#[derive(Debug)]
pub enum AstNode {
    Unit,
    InfixExpr { verb: InfixVerb, lhs: Box<AstNode>, rhs: Box<AstNode> },
    Integer(i64),
    Boolean(bool),
    Ident(String),
    Type(Type),
    /// A quoted string: literal parts interleaved with interpolated
    /// expressions, each converted to text and concatenated.
    QuoteString(Vec<AstNode>),
    StringLiteral(String),
    Block(Vec<AstNode>),
    Binding { ident: String, ty: Type, expr: Box<AstNode> },
    Assign { ident: String, expr: Box<AstNode> },
    Command(Vec<CommandToken>),
    IfThenElse { cond: Box<AstNode>, t_block: Box<AstNode>, f_block: Box<AstNode> },
    RecordValue(Vec<(String, AstNode)>),
    Call { name: String, args: Vec<AstNode> },
    Function { name: String, params: Vec<(String, Type)>, out: Type, block: Box<AstNode> },
}

#[derive(Debug)]
pub enum InfixVerb {
    Plus,
    Minus,
    Times,
    Divide,
}

/// One argument-word of a command.  The parts concatenate into a single
/// string: each part is either literal text or an expression whose value is
/// converted to text.
#[derive(Debug)]
pub struct CommandToken(pub Vec<AstNode>);

} // verus!
