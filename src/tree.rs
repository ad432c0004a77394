use vstd::prelude::*;

use crate::lexer::{Literal, Token};

verus! {

/// A leaf of an expression.
pub enum Primary {
    Identifier(Vec<u8>),
    Literal(Literal),
}

/// An expression; each node carries its source position.
pub enum Expression {
    Binary(Box<Expression>, (Token, i32), Box<Expression>),
    Primary(Primary, i32),
    PrintExpr(Box<Expression>, i32),
}

/// An expression with a flag that says whether its value is discarded.
pub enum Statement {
    ExpressionStmt(Expression, bool, i32),
}

/// A top-level item of a program.
pub enum Declaration {
    Statement(Statement, i32),
}

} // verus!
