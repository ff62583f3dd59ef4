use vstd::prelude::*;

use crate::token::{Literal, Token};

verus! {

/// An expression tree. `Null` is the parser's placeholder for a variable
/// declaration without an initializer; it is never evaluated.
#[derive(PartialEq, Debug)]
pub enum Expr {
    Literal(Literal),
    Grouping { expression: Box<Expr> },
    Assign { name: Token, value: Box<Expr> },
    Binary { left: Box<Expr>, operator: Token, right: Box<Expr> },
    Unary { operator: Token, right: Box<Expr> },
    Logical { left: Box<Expr>, operator: Token, right: Box<Expr> },
    Variable { name: Token },
    Null,
}

/// A statement. `for` loops never appear here: the parser lowers them to
/// `While` wrapped in `Block`.
#[derive(PartialEq, Debug)]
pub enum Stmt {
    Expr(Expr),
    Print(Expr),
    Var { name: Token, initializer: Expr },
    Block { statements: Vec<Stmt> },
    If { condition: Expr, then_branch: Box<Stmt>, else_branch: Option<Box<Stmt>> },
    While { condition: Expr, body: Box<Stmt> },
}

} // verus!
