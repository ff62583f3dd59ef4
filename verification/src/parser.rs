use vstd::prelude::*;

use crate::ast::{Expr, Stmt};
use crate::interpreter::{wf_expr, wf_stmt};
use crate::token::{Literal, Token, TokenType};

verus! {

// A recursive-descent parser with precedence climbing and panic-mode
// recovery. The grammar, lowest precedence first:
//
//   program     -> declaration* EOF
//   declaration -> "var" IDENT ( "=" expression )? ";" | statement
//   statement   -> exprStmt | printStmt | block | ifStmt | whileStmt | forStmt
//   expression  -> assignment
//   assignment  -> IDENT "=" assignment | logic_or
//   logic_or    -> logic_and ( "or" logic_and )*
//   logic_and   -> equality ( "and" equality )*
//   equality    -> comparison ( ( "!=" | "==" ) comparison )*
//   comparison  -> term ( ( ">" | ">=" | "<" | "<=" ) term )*
//   term        -> factor ( ( "-" | "+" ) factor )*
//   factor      -> unary ( ( "/" | "*" ) unary )*
//   unary       -> ( "!" | "-" ) unary | primary
//   primary     -> "true" | "false" | "nil" | NUMBER | STRING | IDENT
//                | "(" expression ")"
//
// `for` is lowered to `while` wrapped in blocks and never reaches the tree.

#[derive(Clone, PartialEq, Debug)]
pub struct ParseError {
    pub kind: ParseErrorKind,
}

impl ParseError {
    pub fn new(kind: ParseErrorKind) -> (e: ParseError)
        ensures
            e.kind == kind,
    {
        ParseError { kind }
    }
}

/// What went wrong, with the offending token.
#[derive(Clone, PartialEq, Debug)]
pub enum ParseErrorKind {
    UnmatchedParen(Token),
    ExpectExpression(Token),
    ExpectSemicolon(Token),
    ExpectVariableName(Token),
    ExpectLeftOperand(Token),
    InvalidAssignmentTarget(Token),
}

/// The token tag at `p`; past the end it reads as end-of-input.
pub open spec fn kind_at(toks: Seq<Token>, p: int) -> TokenType {
    if 0 <= p < toks.len() {
        toks[p].token_type
    } else {
        TokenType::Eof
    }
}

/// A parse position may only move forward; the clamp to `p + 1` makes that
/// manifest so the mutual recursion below visibly terminates.
pub open spec fn adv(toks: Seq<Token>, p: int, q: int) -> int {
    if p < q <= toks.len() {
        q
    } else {
        p + 1
    }
}

/// As `adv`, for a step down the precedence ladder, where standing still is
/// already fine.
pub open spec fn after(toks: Seq<Token>, p: int, q: int) -> int {
    if p < q <= toks.len() {
        q
    } else {
        p
    }
}

/// How much input is left at `p`; the measure the recursion goes down on.
pub open spec fn room(toks: Seq<Token>, p: int) -> int {
    if p < toks.len() {
        toks.len() - p
    } else {
        0
    }
}

/// The outcome of parsing one expression: the tree or the first error, and
/// the position the parser stands at afterwards.
pub struct PRes {
    pub out: Result<Expr, ParseError>,
    pub pos: int,
}

/// The statement shape the parser is meant to produce; blocks hold their
/// statements as a sequence.
pub enum StmtS {
    Expr(Expr),
    Print(Expr),
    Var(Token, Expr),
    Block(Seq<StmtS>),
    If(Expr, Box<StmtS>, Option<Box<StmtS>>),
    While(Expr, Box<StmtS>),
}

/// The outcome of parsing one statement.
pub struct SRes {
    pub out: Result<StmtS, ParseError>,
    pub pos: int,
}

/// A built statement agrees with a statement shape, block contents compared
/// pointwise.
pub open spec fn stmt_matches(s: Stmt, v: StmtS) -> bool
    decreases s,
{
    match s {
        Stmt::Expr(e) => v matches StmtS::Expr(e2) && e == e2,
        Stmt::Print(e) => v matches StmtS::Print(e2) && e == e2,
        Stmt::Var { name, initializer } => v matches StmtS::Var(n2, i2) && name == n2
            && initializer == i2,
        Stmt::Block { statements } => v matches StmtS::Block(ss) && statements@.len() == ss.len()
            && (forall|i: int|
            0 <= i < ss.len() ==> stmt_matches(#[trigger] statements@[i], ss[i])),
        Stmt::If { condition, then_branch, else_branch } => v matches StmtS::If(c2, t2, e2)
            && condition == c2 && stmt_matches(*then_branch, *t2) && (match (else_branch, e2) {
            (Some(eb), Some(ev)) => stmt_matches(*eb, *ev),
            (None, None) => true,
            _ => false,
        }),
        Stmt::While { condition, body } => v matches StmtS::While(c2, b2) && condition == c2
            && stmt_matches(*body, *b2),
    }
}

pub open spec fn stmts_match(ss: Seq<Stmt>, vs: Seq<StmtS>) -> bool {
    ss.len() == vs.len() && (forall|i: int|
        0 <= i < ss.len() ==> stmt_matches(#[trigger] ss[i], vs[i]))
}

pub open spec fn p_expression(toks: Seq<Token>, p: int) -> PRes
    decreases room(toks, p), 120int,
{
    p_assignment(toks, p)
}

/// Assignment is right-associative, and its target must be a plain
/// variable.
pub open spec fn p_assignment(toks: Seq<Token>, p: int) -> PRes
    decreases room(toks, p), 110int,
{
    let r = p_or(toks, p);
    match r.out {
        Ok(expr) => {
            if kind_at(toks, r.pos) == TokenType::Equal && p < toks.len() {
                let eq = toks[r.pos];
                let v = p_assignment(toks, adv(toks, p, r.pos + 1));
                match v.out {
                    Ok(value) => match expr {
                        Expr::Variable { name } => PRes {
                            out: Ok(Expr::Assign { name, value: Box::new(value) }),
                            pos: v.pos,
                        },
                        _ => PRes {
                            out: Err(
                                ParseError { kind: ParseErrorKind::InvalidAssignmentTarget(eq) },
                            ),
                            pos: v.pos,
                        },
                    },
                    Err(e) => PRes { out: Err(e), pos: v.pos },
                }
            } else {
                r
            }
        },
        Err(e) => r,
    }
}

pub open spec fn p_or(toks: Seq<Token>, p: int) -> PRes
    decreases room(toks, p), 100int,
{
    let r = p_and(toks, p);
    match r.out {
        Ok(expr) => p_or_rest(toks, expr, after(toks, p, r.pos)),
        Err(e) => r,
    }
}

pub open spec fn p_or_rest(toks: Seq<Token>, left: Expr, p: int) -> PRes
    decreases room(toks, p), 95int,
{
    if kind_at(toks, p) == TokenType::Or {
        let op = toks[p];
        let r = p_and(toks, p + 1);
        match r.out {
            Ok(right) => p_or_rest(
                toks,
                Expr::Logical { left: Box::new(left), operator: op, right: Box::new(right) },
                adv(toks, p, r.pos),
            ),
            Err(e) => r,
        }
    } else {
        PRes { out: Ok(left), pos: p }
    }
}

pub open spec fn p_and(toks: Seq<Token>, p: int) -> PRes
    decreases room(toks, p), 90int,
{
    let r = p_equality(toks, p);
    match r.out {
        Ok(expr) => p_and_rest(toks, expr, after(toks, p, r.pos)),
        Err(e) => r,
    }
}

pub open spec fn p_and_rest(toks: Seq<Token>, left: Expr, p: int) -> PRes
    decreases room(toks, p), 85int,
{
    if kind_at(toks, p) == TokenType::And {
        let op = toks[p];
        let r = p_equality(toks, p + 1);
        match r.out {
            Ok(right) => p_and_rest(
                toks,
                Expr::Logical { left: Box::new(left), operator: op, right: Box::new(right) },
                adv(toks, p, r.pos),
            ),
            Err(e) => r,
        }
    } else {
        PRes { out: Ok(left), pos: p }
    }
}

pub open spec fn is_equality_op(t: TokenType) -> bool {
    t == TokenType::BangEqual || t == TokenType::EqualEqual
}

pub open spec fn p_equality(toks: Seq<Token>, p: int) -> PRes
    decreases room(toks, p), 80int,
{
    let r = p_comparison(toks, p);
    match r.out {
        Ok(expr) => p_equality_rest(toks, expr, after(toks, p, r.pos)),
        Err(e) => r,
    }
}

pub open spec fn p_equality_rest(toks: Seq<Token>, left: Expr, p: int) -> PRes
    decreases room(toks, p), 75int,
{
    if is_equality_op(kind_at(toks, p)) {
        let op = toks[p];
        let r = p_comparison(toks, p + 1);
        match r.out {
            Ok(right) => p_equality_rest(
                toks,
                Expr::Binary { left: Box::new(left), operator: op, right: Box::new(right) },
                adv(toks, p, r.pos),
            ),
            Err(e) => r,
        }
    } else {
        PRes { out: Ok(left), pos: p }
    }
}

pub open spec fn is_comparison_op(t: TokenType) -> bool {
    ||| t == TokenType::Greater
    ||| t == TokenType::GreaterEqual
    ||| t == TokenType::Less
    ||| t == TokenType::LessEqual
}

pub open spec fn p_comparison(toks: Seq<Token>, p: int) -> PRes
    decreases room(toks, p), 70int,
{
    let r = p_term(toks, p);
    match r.out {
        Ok(expr) => p_comparison_rest(toks, expr, after(toks, p, r.pos)),
        Err(e) => r,
    }
}

pub open spec fn p_comparison_rest(toks: Seq<Token>, left: Expr, p: int) -> PRes
    decreases room(toks, p), 65int,
{
    if is_comparison_op(kind_at(toks, p)) {
        let op = toks[p];
        let r = p_term(toks, p + 1);
        match r.out {
            Ok(right) => p_comparison_rest(
                toks,
                Expr::Binary { left: Box::new(left), operator: op, right: Box::new(right) },
                adv(toks, p, r.pos),
            ),
            Err(e) => r,
        }
    } else {
        PRes { out: Ok(left), pos: p }
    }
}

pub open spec fn is_term_op(t: TokenType) -> bool {
    t == TokenType::Plus || t == TokenType::Minus
}

pub open spec fn p_term(toks: Seq<Token>, p: int) -> PRes
    decreases room(toks, p), 60int,
{
    let r = p_factor(toks, p);
    match r.out {
        Ok(expr) => p_term_rest(toks, expr, after(toks, p, r.pos)),
        Err(e) => r,
    }
}

pub open spec fn p_term_rest(toks: Seq<Token>, left: Expr, p: int) -> PRes
    decreases room(toks, p), 55int,
{
    if is_term_op(kind_at(toks, p)) {
        let op = toks[p];
        let r = p_factor(toks, p + 1);
        match r.out {
            Ok(right) => p_term_rest(
                toks,
                Expr::Binary { left: Box::new(left), operator: op, right: Box::new(right) },
                adv(toks, p, r.pos),
            ),
            Err(e) => r,
        }
    } else {
        PRes { out: Ok(left), pos: p }
    }
}

pub open spec fn is_factor_op(t: TokenType) -> bool {
    t == TokenType::Slash || t == TokenType::Star
}

pub open spec fn p_factor(toks: Seq<Token>, p: int) -> PRes
    decreases room(toks, p), 50int,
{
    let r = p_unary(toks, p);
    match r.out {
        Ok(expr) => p_factor_rest(toks, expr, after(toks, p, r.pos)),
        Err(e) => r,
    }
}

pub open spec fn p_factor_rest(toks: Seq<Token>, left: Expr, p: int) -> PRes
    decreases room(toks, p), 45int,
{
    if is_factor_op(kind_at(toks, p)) {
        let op = toks[p];
        let r = p_unary(toks, p + 1);
        match r.out {
            Ok(right) => p_factor_rest(
                toks,
                Expr::Binary { left: Box::new(left), operator: op, right: Box::new(right) },
                adv(toks, p, r.pos),
            ),
            Err(e) => r,
        }
    } else {
        PRes { out: Ok(left), pos: p }
    }
}

pub open spec fn p_unary(toks: Seq<Token>, p: int) -> PRes
    decreases room(toks, p), 40int,
{
    if kind_at(toks, p) == TokenType::Bang || kind_at(toks, p) == TokenType::Minus {
        let op = toks[p];
        let r = p_unary(toks, p + 1);
        match r.out {
            Ok(right) => PRes {
                out: Ok(Expr::Unary { operator: op, right: Box::new(right) }),
                pos: r.pos,
            },
            Err(e) => r,
        }
    } else {
        p_primary(toks, p)
    }
}

/// A binary operator with no left operand is recognised here so that a
/// targeted diagnostic can be given; the right operand is still consumed at
/// the appropriate precedence so recovery can continue past it.
pub open spec fn p_primary(toks: Seq<Token>, p: int) -> PRes
    decreases room(toks, p), 30int,
{
    let k = kind_at(toks, p);
    if k == TokenType::False {
        PRes { out: Ok(Expr::Literal(Literal::Boolean(false))), pos: p + 1 }
    } else if k == TokenType::True {
        PRes { out: Ok(Expr::Literal(Literal::Boolean(true))), pos: p + 1 }
    } else if k == TokenType::Nil {
        PRes { out: Ok(Expr::Literal(Literal::Nil)), pos: p + 1 }
    } else if k == TokenType::Number || k == TokenType::String {
        PRes { out: Ok(Expr::Literal(toks[p].literal)), pos: p + 1 }
    } else if k == TokenType::Identifier {
        PRes { out: Ok(Expr::Variable { name: toks[p] }), pos: p + 1 }
    } else if k == TokenType::LeftParen {
        let r = p_expression(toks, p + 1);
        match r.out {
            Ok(expr) => {
                if kind_at(toks, r.pos) == TokenType::RightParen {
                    PRes {
                        out: Ok(Expr::Grouping { expression: Box::new(expr) }),
                        pos: r.pos + 1,
                    }
                } else {
                    PRes {
                        out: Err(
                            ParseError { kind: ParseErrorKind::UnmatchedParen(toks[r.pos]) },
                        ),
                        pos: r.pos,
                    }
                }
            },
            Err(e) => r,
        }
    } else if is_factor_op(k) {
        let r = p_factor(toks, p + 1);
        match r.out {
            Ok(_) => PRes {
                out: Err(ParseError { kind: ParseErrorKind::ExpectLeftOperand(toks[p]) }),
                pos: r.pos,
            },
            Err(e) => r,
        }
    } else if is_comparison_op(k) {
        let r = p_comparison(toks, p + 1);
        match r.out {
            Ok(_) => PRes {
                out: Err(ParseError { kind: ParseErrorKind::ExpectLeftOperand(toks[p]) }),
                pos: r.pos,
            },
            Err(e) => r,
        }
    } else if is_equality_op(k) {
        let r = p_equality(toks, p + 1);
        match r.out {
            Ok(_) => PRes {
                out: Err(ParseError { kind: ParseErrorKind::ExpectLeftOperand(toks[p]) }),
                pos: r.pos,
            },
            Err(e) => r,
        }
    } else if k == TokenType::Plus {
        let r = p_term(toks, p + 1);
        match r.out {
            Ok(_) => PRes {
                out: Err(ParseError { kind: ParseErrorKind::ExpectLeftOperand(toks[p]) }),
                pos: r.pos,
            },
            Err(e) => r,
        }
    } else {
        PRes { out: Err(ParseError { kind: ParseErrorKind::ExpectExpression(toks[p]) }), pos: p }
    }
}

#[verifier::opaque]
pub open spec fn p_declaration(toks: Seq<Token>, p: int) -> SRes
    decreases room(toks, p), 220int,
{
    if kind_at(toks, p) == TokenType::Var {
        p_var_declaration(toks, p + 1)
    } else {
        p_statement(toks, p)
    }
}

pub open spec fn p_var_declaration(toks: Seq<Token>, p: int) -> SRes
    decreases room(toks, p), 200int,
{
    if kind_at(toks, p) == TokenType::Identifier {
        let name = toks[p];
        if kind_at(toks, p + 1) == TokenType::Equal {
            let r = p_expression(toks, p + 2);
            match r.out {
                Ok(init) => {
                    if kind_at(toks, r.pos) == TokenType::Semicolon {
                        SRes { out: Ok(StmtS::Var(name, init)), pos: r.pos + 1 }
                    } else {
                        SRes {
                            out: Err(
                                ParseError { kind: ParseErrorKind::ExpectSemicolon(toks[r.pos]) },
                            ),
                            pos: r.pos,
                        }
                    }
                },
                Err(e) => SRes { out: Err(e), pos: r.pos },
            }
        } else {
            if kind_at(toks, p + 1) == TokenType::Semicolon {
                SRes { out: Ok(StmtS::Var(name, Expr::Null)), pos: p + 2 }
            } else {
                SRes {
                    out: Err(ParseError { kind: ParseErrorKind::ExpectSemicolon(toks[p + 1]) }),
                    pos: p + 1,
                }
            }
        }
    } else {
        SRes {
            out: Err(ParseError { kind: ParseErrorKind::ExpectVariableName(toks[p]) }),
            pos: p,
        }
    }
}

pub open spec fn p_statement(toks: Seq<Token>, p: int) -> SRes
    decreases room(toks, p), 210int,
{
    let k = kind_at(toks, p);
    if k == TokenType::Print {
        p_print_statement(toks, p + 1)
    } else if k == TokenType::LeftBrace {
        p_block(toks, Seq::<StmtS>::empty(), p + 1)
    } else if k == TokenType::If {
        p_if_statement(toks, p + 1)
    } else if k == TokenType::While {
        p_while_statement(toks, p + 1)
    } else if k == TokenType::For {
        p_for_statement(toks, p + 1)
    } else {
        p_expression_statement(toks, p)
    }
}

pub open spec fn p_print_statement(toks: Seq<Token>, p: int) -> SRes
    decreases room(toks, p), 200int,
{
    let r = p_expression(toks, p);
    match r.out {
        Ok(e) => {
            if kind_at(toks, r.pos) == TokenType::Semicolon {
                SRes { out: Ok(StmtS::Print(e)), pos: r.pos + 1 }
            } else {
                SRes {
                    out: Err(ParseError { kind: ParseErrorKind::ExpectSemicolon(toks[r.pos]) }),
                    pos: r.pos,
                }
            }
        },
        Err(e) => SRes { out: Err(e), pos: r.pos },
    }
}

pub open spec fn p_expression_statement(toks: Seq<Token>, p: int) -> SRes
    decreases room(toks, p), 200int,
{
    let r = p_expression(toks, p);
    match r.out {
        Ok(e) => {
            if kind_at(toks, r.pos) == TokenType::Semicolon {
                SRes { out: Ok(StmtS::Expr(e)), pos: r.pos + 1 }
            } else {
                SRes {
                    out: Err(ParseError { kind: ParseErrorKind::ExpectSemicolon(toks[r.pos]) }),
                    pos: r.pos,
                }
            }
        },
        Err(e) => SRes { out: Err(e), pos: r.pos },
    }
}

/// Declarations up to the closing brace, gathered into a block.
pub open spec fn p_block(toks: Seq<Token>, done: Seq<StmtS>, p: int) -> SRes
    decreases room(toks, p), 230int,
{
    if kind_at(toks, p) == TokenType::RightBrace {
        SRes { out: Ok(StmtS::Block(done)), pos: p + 1 }
    } else if kind_at(toks, p) == TokenType::Eof {
        SRes {
            out: Err(ParseError { kind: ParseErrorKind::ExpectExpression(toks[p]) }),
            pos: p,
        }
    } else {
        let r = p_declaration(toks, p);
        match r.out {
            Ok(s) => p_block(toks, done.push(s), adv(toks, p, r.pos)),
            Err(e) => SRes { out: Err(e), pos: r.pos },
        }
    }
}

pub open spec fn p_if_statement(toks: Seq<Token>, p: int) -> SRes
    decreases room(toks, p), 200int,
{
    if kind_at(toks, p) != TokenType::LeftParen {
        SRes { out: Err(ParseError { kind: ParseErrorKind::UnmatchedParen(toks[p]) }), pos: p }
    } else {
        let c = p_expression(toks, p + 1);
        match c.out {
            Ok(cond) => {
                if kind_at(toks, c.pos) != TokenType::RightParen {
                    SRes {
                        out: Err(ParseError { kind: ParseErrorKind::UnmatchedParen(toks[c.pos]) }),
                        pos: c.pos,
                    }
                } else {
                    let t = p_statement(toks, adv(toks, p, c.pos + 1));
                    match t.out {
                        Ok(then_s) => {
                            if kind_at(toks, t.pos) == TokenType::Else {
                                let e = p_statement(toks, adv(toks, p, t.pos + 1));
                                match e.out {
                                    Ok(else_s) => SRes {
                                        out: Ok(
                                            StmtS::If(
                                                cond,
                                                Box::new(then_s),
                                                Some(Box::new(else_s)),
                                            ),
                                        ),
                                        pos: e.pos,
                                    },
                                    Err(er) => SRes { out: Err(er), pos: e.pos },
                                }
                            } else {
                                SRes {
                                    out: Ok(StmtS::If(cond, Box::new(then_s), None)),
                                    pos: t.pos,
                                }
                            }
                        },
                        Err(er) => SRes { out: Err(er), pos: t.pos },
                    }
                }
            },
            Err(er) => SRes { out: Err(er), pos: c.pos },
        }
    }
}

pub open spec fn p_while_statement(toks: Seq<Token>, p: int) -> SRes
    decreases room(toks, p), 200int,
{
    if kind_at(toks, p) != TokenType::LeftParen {
        SRes { out: Err(ParseError { kind: ParseErrorKind::UnmatchedParen(toks[p]) }), pos: p }
    } else {
        let c = p_expression(toks, p + 1);
        match c.out {
            Ok(cond) => {
                if kind_at(toks, c.pos) != TokenType::RightParen {
                    SRes {
                        out: Err(ParseError { kind: ParseErrorKind::UnmatchedParen(toks[c.pos]) }),
                        pos: c.pos,
                    }
                } else {
                    let b = p_statement(toks, adv(toks, p, c.pos + 1));
                    match b.out {
                        Ok(body) => SRes {
                            out: Ok(StmtS::While(cond, Box::new(body))),
                            pos: b.pos,
                        },
                        Err(er) => SRes { out: Err(er), pos: b.pos },
                    }
                }
            },
            Err(er) => SRes { out: Err(er), pos: c.pos },
        }
    }
}

/// The `for` clauses, lowered on the spot: the increment joins the body in
/// a block, a missing condition becomes the literal `true`, and the
/// initializer wraps the loop in one more block.
pub open spec fn p_for_init(toks: Seq<Token>, pi: int) -> (Result<Option<StmtS>, ParseError>, int)
    decreases room(toks, pi), 190int,
{
    if kind_at(toks, pi) == TokenType::Semicolon {
        (Ok(None), pi + 1)
    } else if kind_at(toks, pi) == TokenType::Var {
        let r = p_var_declaration(toks, pi + 1);
        match r.out {
            Ok(s) => (Ok(Some(s)), r.pos),
            Err(e) => (Err(e), r.pos),
        }
    } else {
        let r = p_expression_statement(toks, pi);
        match r.out {
            Ok(s) => (Ok(Some(s)), r.pos),
            Err(e) => (Err(e), r.pos),
        }
    }
}

pub open spec fn p_for_cond(toks: Seq<Token>, pc: int) -> (Result<Option<Expr>, ParseError>, int)
    decreases room(toks, pc), 190int,
{
    if kind_at(toks, pc) == TokenType::Semicolon {
        (Ok(None), pc)
    } else {
        let r = p_expression(toks, pc);
        match r.out {
            Ok(e) => (Ok(Some(e)), r.pos),
            Err(e) => (Err(e), r.pos),
        }
    }
}

pub open spec fn p_for_inc(toks: Seq<Token>, pinc: int) -> (Result<Option<Expr>, ParseError>, int)
    decreases room(toks, pinc), 190int,
{
    if kind_at(toks, pinc) != TokenType::RightParen {
        let r = p_expression(toks, pinc);
        match r.out {
            Ok(e) => (Ok(Some(e)), r.pos),
            Err(e) => (Err(e), r.pos),
        }
    } else {
        (Ok(None), pinc)
    }
}

pub open spec fn p_for_header(toks: Seq<Token>, p: int) -> (
    Result<(Option<StmtS>, Option<Expr>, Option<Expr>), ParseError>,
    int,
)
    decreases room(toks, p), 195int,
{
    if kind_at(toks, p) != TokenType::LeftParen {
        (Err(ParseError { kind: ParseErrorKind::UnmatchedParen(toks[p]) }), p)
    } else {
        let init_res = p_for_init(toks, p + 1);
        match init_res.0 {
            Err(e) => (Err(e), init_res.1),
            Ok(initializer) => {
                let cond_res = p_for_cond(toks, adv(toks, p, init_res.1));
                match cond_res.0 {
                    Err(e) => (Err(e), cond_res.1),
                    Ok(condition) => {
                        if kind_at(toks, cond_res.1) != TokenType::Semicolon {
                            (
                                Err(
                                    ParseError {
                                        kind: ParseErrorKind::ExpectSemicolon(toks[cond_res.1]),
                                    },
                                ),
                                cond_res.1,
                            )
                        } else {
                            let inc_res = p_for_inc(toks, adv(toks, p, cond_res.1 + 1));
                            match inc_res.0 {
                                Err(e) => (Err(e), inc_res.1),
                                Ok(increment) => {
                                    if kind_at(toks, inc_res.1) != TokenType::RightParen {
                                        (
                                            Err(
                                                ParseError {
                                                    kind: ParseErrorKind::UnmatchedParen(
                                                        toks[inc_res.1],
                                                    ),
                                                },
                                            ),
                                            inc_res.1,
                                        )
                                    } else {
                                        (
                                            Ok((initializer, condition, increment)),
                                            adv(toks, p, inc_res.1 + 1),
                                        )
                                    }
                                },
                            }
                        }
                    },
                }
            },
        }
    }
}

pub open spec fn p_for_statement(toks: Seq<Token>, p: int) -> SRes
    decreases room(toks, p), 240int,
{
    let h = p_for_header(toks, p);
    match h.0 {
        Err(e) => SRes { out: Err(e), pos: h.1 },
        Ok(t3) => {
            let b = p_statement(toks, adv(toks, p, h.1));
            match b.out {
                Ok(body) => SRes {
                    out: Ok(desugar_for(t3.0, t3.1, t3.2, body)),
                    pos: b.pos,
                },
                Err(er) => SRes { out: Err(er), pos: b.pos },
            }
        },
    }
}

/// The lowering of `for`: body plus increment, `true` for a missing
/// condition, and the initializer in front.
pub open spec fn desugar_for(
    initializer: Option<StmtS>,
    condition: Option<Expr>,
    increment: Option<Expr>,
    body: StmtS,
) -> StmtS {
    let body2 = match increment {
        Some(inc) => StmtS::Block(seq![body, StmtS::Expr(inc)]),
        None => body,
    };
    let cond = match condition {
        Some(c) => c,
        None => Expr::Literal(Literal::Boolean(true)),
    };
    let whole = StmtS::While(cond, Box::new(body2));
    match initializer {
        Some(init) => StmtS::Block(seq![init, whole]),
        None => whole,
    }
}

pub open spec fn is_boundary(t: TokenType) -> bool {
    ||| t == TokenType::Class
    ||| t == TokenType::Fun
    ||| t == TokenType::Var
    ||| t == TokenType::For
    ||| t == TokenType::If
    ||| t == TokenType::While
    ||| t == TokenType::Print
    ||| t == TokenType::Return
}

/// Panic-mode recovery: from `p`, the first position that stands just after
/// a semicolon or at a token that can begin a statement.
pub open spec fn sync_pos(toks: Seq<Token>, p: int) -> int
    decreases room(toks, p),
{
    if kind_at(toks, p) == TokenType::Eof {
        p
    } else if kind_at(toks, p - 1) == TokenType::Semicolon {
        p
    } else if is_boundary(kind_at(toks, p)) {
        p
    } else {
        sync_pos(toks, p + 1)
    }
}

/// Recovery first discards the token the error was found at, then skips to
/// a statement boundary.
pub open spec fn sync_from(toks: Seq<Token>, p: int) -> int {
    if kind_at(toks, p) == TokenType::Eof {
        p
    } else {
        sync_pos(toks, p + 1)
    }
}

/// Recovery never moves backwards.
pub proof fn lemma_sync_pos_ge(toks: Seq<Token>, p: int)
    ensures
        sync_pos(toks, p) >= p,
    decreases room(toks, p),
{
    if kind_at(toks, p) != TokenType::Eof && kind_at(toks, p - 1) != TokenType::Semicolon
        && !is_boundary(kind_at(toks, p)) {
        lemma_sync_pos_ge(toks, p + 1);
    }
}

/// A parsed program: the statements that parsed, and the first error if any
/// statement did not.
pub struct ProgRes {
    pub stmts: Seq<StmtS>,
    pub err: Option<ParseError>,
}

/// The program loop: declarations until end of input. A declaration that
/// fails is reported once, the parser synchronizes, and parsing goes on, so
/// the statements after an error still come through.
#[verifier::opaque]
pub open spec fn p_program(toks: Seq<Token>, p: int) -> ProgRes
    decreases room(toks, p),
{
    if kind_at(toks, p) == TokenType::Eof {
        ProgRes { stmts: Seq::<StmtS>::empty(), err: None }
    } else {
        let d = p_declaration(toks, p);
        match d.out {
            Ok(s) => {
                let rest = p_program(toks, adv(toks, p, d.pos));
                ProgRes { stmts: seq![s] + rest.stmts, err: rest.err }
            },
            Err(e) => {
                let q = sync_from(toks, d.pos);
                let rest = p_program(toks, adv(toks, p, q));
                ProgRes { stmts: rest.stmts, err: Some(e) }
            },
        }
    }
}

/// At the end of input the program is complete.
pub proof fn lemma_program_eof(toks: Seq<Token>, p: int)
    requires
        kind_at(toks, p) == TokenType::Eof,
    ensures
        p_program(toks, p) == (ProgRes { stmts: Seq::<StmtS>::empty(), err: None }),
{
    reveal(p_program);
}

/// One successful declaration prepends its statement to the rest.
pub proof fn lemma_program_step_ok(toks: Seq<Token>, p: int)
    requires
        kind_at(toks, p) != TokenType::Eof,
        p_declaration(toks, p).out is Ok,
    ensures
        ({
            let d = p_declaration(toks, p);
            let rest = p_program(toks, adv(toks, p, d.pos));
            p_program(toks, p) == (ProgRes {
                stmts: seq![d.out->Ok_0] + rest.stmts,
                err: rest.err,
            })
        }),
{
    reveal(p_program);
}

/// One failed declaration is recorded and skipped over.
pub proof fn lemma_program_step_err(toks: Seq<Token>, p: int)
    requires
        kind_at(toks, p) != TokenType::Eof,
        p_declaration(toks, p).out is Err,
    ensures
        ({
            let d = p_declaration(toks, p);
            let q = sync_from(toks, d.pos);
            let rest = p_program(toks, adv(toks, p, q));
            p_program(toks, p) == (ProgRes { stmts: rest.stmts, err: Some(d.out->Err_0) })
        }),
{
    reveal(p_program);
}

// Recovery is worth having: after a declaration that fails to parse, the
// parser synchronizes and the next well-formed declaration still comes
// through, as the first statement of the program.
pub proof fn lemma_recovery_keeps_statements(toks: Seq<Token>, p: int)
    requires
        kind_at(toks, p) != TokenType::Eof,
        p_declaration(toks, p).out is Err,
        ({
            let q = adv(toks, p, sync_from(toks, p_declaration(toks, p).pos));
            kind_at(toks, q) != TokenType::Eof && p_declaration(toks, q).out is Ok
        }),
    ensures
        ({
            let q = adv(toks, p, sync_from(toks, p_declaration(toks, p).pos));
            &&& p_program(toks, p).stmts.len() >= 1
            &&& p_program(toks, p).stmts[0] == p_declaration(toks, q).out->Ok_0
            &&& p_program(toks, p).err == Some(p_declaration(toks, p).out->Err_0)
        }),
{
    reveal(p_program);
    let q = adv(toks, p, sync_from(toks, p_declaration(toks, p).pos));
    lemma_program_step_err(toks, p);
    lemma_program_step_ok(toks, q);
}

/// A scanner's output: at least the end-of-input token, which comes last.
pub open spec fn terminated(toks: Seq<Token>) -> bool {
    toks.len() >= 1 && toks[toks.len() - 1].token_type == TokenType::Eof
}

pub struct Parser {
    tokens: Vec<Token>,
    current: usize,
}

impl Parser {
    pub closed spec fn toks(&self) -> Seq<Token> {
        self.tokens@
    }

    pub closed spec fn pos(&self) -> int {
        self.current as int
    }

    /// The cursor never leaves the token sequence: the end-of-input token
    /// stops it.
    pub open spec fn wf(&self) -> bool {
        &&& terminated(self.toks())
        &&& 0 <= self.pos() < self.toks().len()
    }

    pub fn new(tokens: Vec<Token>) -> (p: Parser)
        ensures
            p.toks() == tokens@,
            p.pos() == 0,
    {
        Parser { tokens, current: 0 }
    }

    fn peek_kind(&self) -> (k: TokenType)
        requires
            self.wf(),
        ensures
            k == kind_at(self.toks(), self.pos()),
    {
        self.tokens[self.current].token_type
    }

    fn is_at_end(&self) -> (r: bool)
        requires
            self.wf(),
        ensures
            r == (kind_at(self.toks(), self.pos()) == TokenType::Eof),
    {
        self.peek_kind() == TokenType::Eof
    }

    /// Whether the current token has the given tag; end of input matches
    /// nothing.
    fn check(&self, t: TokenType) -> (r: bool)
        requires
            self.wf(),
        ensures
            r == if kind_at(self.toks(), self.pos()) == TokenType::Eof {
                false
            } else {
                kind_at(self.toks(), self.pos()) == t
            },
    {
        if self.is_at_end() {
            false
        } else {
            self.peek_kind() == t
        }
    }

    /// A copy of the current token.
    fn current_token(&self) -> (t: Token)
        requires
            self.wf(),
        ensures
            t == self.toks()[self.pos()],
    {
        self.tokens[self.current].duplicate()
    }

    /// Steps over the current token, which must not be the end of input.
    fn advance_one(&mut self)
        requires
            old(self).wf(),
            kind_at(old(self).toks(), old(self).pos()) != TokenType::Eof,
        ensures
            final(self).wf(),
            final(self).toks() == old(self).toks(),
            final(self).pos() == old(self).pos() + 1,
    {
        if self.current < self.tokens.len() {
            self.current = self.current + 1;
        }
    }

    /// expression -> assignment
    pub fn expression(&mut self) -> (res: Result<Expr, ParseError>)
        requires
            old(self).wf(),
        ensures
            final(self).wf(),
            final(self).toks() == old(self).toks(),
            final(self).pos() >= old(self).pos(),
            res is Ok ==> final(self).pos() > old(self).pos(),
            ({
                let r = p_expression(old(self).toks(), old(self).pos());
                &&& final(self).pos() == r.pos
                &&& match res {
                    Ok(e) => r.out == Ok::<Expr, ParseError>(e) && wf_expr(e),
                    Err(pe) => r.out == Err::<Expr, ParseError>(pe),
                }
            }),
        decreases room(self.toks(), self.pos()), 120int,
    {
        self.assignment()
    }

    /// assignment -> IDENT "=" assignment | logic_or
    #[verifier::rlimit(100)]
    #[verifier::spinoff_prover]
    fn assignment(&mut self) -> (res: Result<Expr, ParseError>)
        requires
            old(self).wf(),
        ensures
            final(self).wf(),
            final(self).toks() == old(self).toks(),
            final(self).pos() >= old(self).pos(),
            res is Ok ==> final(self).pos() > old(self).pos(),
            ({
                let r = p_assignment(old(self).toks(), old(self).pos());
                &&& final(self).pos() == r.pos
                &&& match res {
                    Ok(e) => r.out == Ok::<Expr, ParseError>(e) && wf_expr(e),
                    Err(pe) => r.out == Err::<Expr, ParseError>(pe),
                }
            }),
        decreases room(self.toks(), self.pos()), 110int,
    {
        match self.or() {
            Ok(expr) => {
                if self.check(TokenType::Equal) {
                    let eq = self.current_token();
                    self.advance_one();
                    match self.assignment() {
                        Ok(value) => match expr {
                            Expr::Variable { name } => Ok(
                                Expr::Assign { name, value: Box::new(value) },
                            ),
                            _ => Err(
                                ParseError { kind: ParseErrorKind::InvalidAssignmentTarget(eq) },
                            ),
                        },
                        Err(e) => Err(e),
                    }
                } else {
                    Ok(expr)
                }
            },
            Err(e) => Err(e),
        }
    }

    /// logic_or -> logic_and ( "or" logic_and )*
    #[verifier::loop_isolation(false)]
    fn or(&mut self) -> (res: Result<Expr, ParseError>)
        requires
            old(self).wf(),
        ensures
            final(self).wf(),
            final(self).toks() == old(self).toks(),
            final(self).pos() >= old(self).pos(),
            res is Ok ==> final(self).pos() > old(self).pos(),
            ({
                let r = p_or(old(self).toks(), old(self).pos());
                &&& final(self).pos() == r.pos
                &&& match res {
                    Ok(e) => r.out == Ok::<Expr, ParseError>(e) && wf_expr(e),
                    Err(pe) => r.out == Err::<Expr, ParseError>(pe),
                }
            }),
        decreases room(self.toks(), self.pos()), 100int,
    {
        let ghost toks = old(self).toks();
        let ghost p0 = old(self).pos();
        match self.and() {
            Ok(first) => {
                let mut expr = first;
                loop
                    invariant
                        self.wf(),
                        self.toks() == toks,
                        self.pos() > p0,
                        wf_expr(expr),
                        p_or_rest(toks, expr, self.pos()) == p_or(toks, p0),
                    decreases toks.len() - self.pos(),
                {
                    if !self.check(TokenType::Or) {
                        return Ok(expr);
                    }
                    let op = self.current_token();
                    self.advance_one();
                    match self.and() {
                        Ok(right) => {
                            expr = Expr::Logical {
                                left: Box::new(expr),
                                operator: op,
                                right: Box::new(right),
                            };
                        },
                        Err(e) => {
                            return Err(e);
                        },
                    }
                }
            },
            Err(e) => Err(e),
        }
    }

    /// logic_and -> equality ( "and" equality )*
    #[verifier::loop_isolation(false)]
    fn and(&mut self) -> (res: Result<Expr, ParseError>)
        requires
            old(self).wf(),
        ensures
            final(self).wf(),
            final(self).toks() == old(self).toks(),
            final(self).pos() >= old(self).pos(),
            res is Ok ==> final(self).pos() > old(self).pos(),
            ({
                let r = p_and(old(self).toks(), old(self).pos());
                &&& final(self).pos() == r.pos
                &&& match res {
                    Ok(e) => r.out == Ok::<Expr, ParseError>(e) && wf_expr(e),
                    Err(pe) => r.out == Err::<Expr, ParseError>(pe),
                }
            }),
        decreases room(self.toks(), self.pos()), 90int,
    {
        let ghost toks = old(self).toks();
        let ghost p0 = old(self).pos();
        match self.equality() {
            Ok(first) => {
                let mut expr = first;
                loop
                    invariant
                        self.wf(),
                        self.toks() == toks,
                        self.pos() > p0,
                        wf_expr(expr),
                        p_and_rest(toks, expr, self.pos()) == p_and(toks, p0),
                    decreases toks.len() - self.pos(),
                {
                    if !self.check(TokenType::And) {
                        return Ok(expr);
                    }
                    let op = self.current_token();
                    self.advance_one();
                    match self.equality() {
                        Ok(right) => {
                            expr = Expr::Logical {
                                left: Box::new(expr),
                                operator: op,
                                right: Box::new(right),
                            };
                        },
                        Err(e) => {
                            return Err(e);
                        },
                    }
                }
            },
            Err(e) => Err(e),
        }
    }

    /// equality -> comparison ( ( "!=" | "==" ) comparison )*
    #[verifier::loop_isolation(false)]
    fn equality(&mut self) -> (res: Result<Expr, ParseError>)
        requires
            old(self).wf(),
        ensures
            final(self).wf(),
            final(self).toks() == old(self).toks(),
            final(self).pos() >= old(self).pos(),
            res is Ok ==> final(self).pos() > old(self).pos(),
            ({
                let r = p_equality(old(self).toks(), old(self).pos());
                &&& final(self).pos() == r.pos
                &&& match res {
                    Ok(e) => r.out == Ok::<Expr, ParseError>(e) && wf_expr(e),
                    Err(pe) => r.out == Err::<Expr, ParseError>(pe),
                }
            }),
        decreases room(self.toks(), self.pos()), 80int,
    {
        let ghost toks = old(self).toks();
        let ghost p0 = old(self).pos();
        match self.comparison() {
            Ok(first) => {
                let mut expr = first;
                loop
                    invariant
                        self.wf(),
                        self.toks() == toks,
                        self.pos() > p0,
                        wf_expr(expr),
                        p_equality_rest(toks, expr, self.pos()) == p_equality(toks, p0),
                    decreases toks.len() - self.pos(),
                {
                    let more = self.check(TokenType::BangEqual) || self.check(
                        TokenType::EqualEqual,
                    );
                    if !more {
                        return Ok(expr);
                    }
                    let op = self.current_token();
                    self.advance_one();
                    match self.comparison() {
                        Ok(right) => {
                            expr = Expr::Binary {
                                left: Box::new(expr),
                                operator: op,
                                right: Box::new(right),
                            };
                        },
                        Err(e) => {
                            return Err(e);
                        },
                    }
                }
            },
            Err(e) => Err(e),
        }
    }

    /// comparison -> term ( ( ">" | ">=" | "<" | "<=" ) term )*
    #[verifier::loop_isolation(false)]
    fn comparison(&mut self) -> (res: Result<Expr, ParseError>)
        requires
            old(self).wf(),
        ensures
            final(self).wf(),
            final(self).toks() == old(self).toks(),
            final(self).pos() >= old(self).pos(),
            res is Ok ==> final(self).pos() > old(self).pos(),
            ({
                let r = p_comparison(old(self).toks(), old(self).pos());
                &&& final(self).pos() == r.pos
                &&& match res {
                    Ok(e) => r.out == Ok::<Expr, ParseError>(e) && wf_expr(e),
                    Err(pe) => r.out == Err::<Expr, ParseError>(pe),
                }
            }),
        decreases room(self.toks(), self.pos()), 70int,
    {
        let ghost toks = old(self).toks();
        let ghost p0 = old(self).pos();
        match self.term() {
            Ok(first) => {
                let mut expr = first;
                loop
                    invariant
                        self.wf(),
                        self.toks() == toks,
                        self.pos() > p0,
                        wf_expr(expr),
                        p_comparison_rest(toks, expr, self.pos()) == p_comparison(toks, p0),
                    decreases toks.len() - self.pos(),
                {
                    let more = self.check(TokenType::Greater) || self.check(
                        TokenType::GreaterEqual,
                    ) || self.check(TokenType::Less) || self.check(TokenType::LessEqual);
                    if !more {
                        return Ok(expr);
                    }
                    let op = self.current_token();
                    self.advance_one();
                    match self.term() {
                        Ok(right) => {
                            expr = Expr::Binary {
                                left: Box::new(expr),
                                operator: op,
                                right: Box::new(right),
                            };
                        },
                        Err(e) => {
                            return Err(e);
                        },
                    }
                }
            },
            Err(e) => Err(e),
        }
    }

    /// term -> factor ( ( "-" | "+" ) factor )*
    #[verifier::loop_isolation(false)]
    fn term(&mut self) -> (res: Result<Expr, ParseError>)
        requires
            old(self).wf(),
        ensures
            final(self).wf(),
            final(self).toks() == old(self).toks(),
            final(self).pos() >= old(self).pos(),
            res is Ok ==> final(self).pos() > old(self).pos(),
            ({
                let r = p_term(old(self).toks(), old(self).pos());
                &&& final(self).pos() == r.pos
                &&& match res {
                    Ok(e) => r.out == Ok::<Expr, ParseError>(e) && wf_expr(e),
                    Err(pe) => r.out == Err::<Expr, ParseError>(pe),
                }
            }),
        decreases room(self.toks(), self.pos()), 60int,
    {
        let ghost toks = old(self).toks();
        let ghost p0 = old(self).pos();
        match self.factor() {
            Ok(first) => {
                let mut expr = first;
                loop
                    invariant
                        self.wf(),
                        self.toks() == toks,
                        self.pos() > p0,
                        wf_expr(expr),
                        p_term_rest(toks, expr, self.pos()) == p_term(toks, p0),
                    decreases toks.len() - self.pos(),
                {
                    let more = self.check(TokenType::Plus) || self.check(TokenType::Minus);
                    if !more {
                        return Ok(expr);
                    }
                    let op = self.current_token();
                    self.advance_one();
                    match self.factor() {
                        Ok(right) => {
                            expr = Expr::Binary {
                                left: Box::new(expr),
                                operator: op,
                                right: Box::new(right),
                            };
                        },
                        Err(e) => {
                            return Err(e);
                        },
                    }
                }
            },
            Err(e) => Err(e),
        }
    }

    /// factor -> unary ( ( "/" | "*" ) unary )*
    #[verifier::loop_isolation(false)]
    fn factor(&mut self) -> (res: Result<Expr, ParseError>)
        requires
            old(self).wf(),
        ensures
            final(self).wf(),
            final(self).toks() == old(self).toks(),
            final(self).pos() >= old(self).pos(),
            res is Ok ==> final(self).pos() > old(self).pos(),
            ({
                let r = p_factor(old(self).toks(), old(self).pos());
                &&& final(self).pos() == r.pos
                &&& match res {
                    Ok(e) => r.out == Ok::<Expr, ParseError>(e) && wf_expr(e),
                    Err(pe) => r.out == Err::<Expr, ParseError>(pe),
                }
            }),
        decreases room(self.toks(), self.pos()), 50int,
    {
        let ghost toks = old(self).toks();
        let ghost p0 = old(self).pos();
        match self.unary() {
            Ok(first) => {
                let mut expr = first;
                loop
                    invariant
                        self.wf(),
                        self.toks() == toks,
                        self.pos() > p0,
                        wf_expr(expr),
                        p_factor_rest(toks, expr, self.pos()) == p_factor(toks, p0),
                    decreases toks.len() - self.pos(),
                {
                    let more = self.check(TokenType::Slash) || self.check(TokenType::Star);
                    if !more {
                        return Ok(expr);
                    }
                    let op = self.current_token();
                    self.advance_one();
                    match self.unary() {
                        Ok(right) => {
                            expr = Expr::Binary {
                                left: Box::new(expr),
                                operator: op,
                                right: Box::new(right),
                            };
                        },
                        Err(e) => {
                            return Err(e);
                        },
                    }
                }
            },
            Err(e) => Err(e),
        }
    }

    /// unary -> ( "!" | "-" ) unary | primary
    fn unary(&mut self) -> (res: Result<Expr, ParseError>)
        requires
            old(self).wf(),
        ensures
            final(self).wf(),
            final(self).toks() == old(self).toks(),
            final(self).pos() >= old(self).pos(),
            res is Ok ==> final(self).pos() > old(self).pos(),
            ({
                let r = p_unary(old(self).toks(), old(self).pos());
                &&& final(self).pos() == r.pos
                &&& match res {
                    Ok(e) => r.out == Ok::<Expr, ParseError>(e) && wf_expr(e),
                    Err(pe) => r.out == Err::<Expr, ParseError>(pe),
                }
            }),
        decreases room(self.toks(), self.pos()), 40int,
    {
        if self.check(TokenType::Bang) || self.check(TokenType::Minus) {
            let op = self.current_token();
            self.advance_one();
            match self.unary() {
                Ok(right) => Ok(Expr::Unary { operator: op, right: Box::new(right) }),
                Err(e) => Err(e),
            }
        } else {
            self.primary()
        }
    }

    /// primary -> literal | IDENT | "(" expression ")", with a targeted
    /// diagnostic for a binary operator that has no left operand.
    fn primary(&mut self) -> (res: Result<Expr, ParseError>)
        requires
            old(self).wf(),
        ensures
            final(self).wf(),
            final(self).toks() == old(self).toks(),
            final(self).pos() >= old(self).pos(),
            res is Ok ==> final(self).pos() > old(self).pos(),
            ({
                let r = p_primary(old(self).toks(), old(self).pos());
                &&& final(self).pos() == r.pos
                &&& match res {
                    Ok(e) => r.out == Ok::<Expr, ParseError>(e) && wf_expr(e),
                    Err(pe) => r.out == Err::<Expr, ParseError>(pe),
                }
            }),
        decreases room(self.toks(), self.pos()), 30int,
    {
        let k = self.peek_kind();
        if k == TokenType::False {
            self.advance_one();
            Ok(Expr::Literal(Literal::Boolean(false)))
        } else if k == TokenType::True {
            self.advance_one();
            Ok(Expr::Literal(Literal::Boolean(true)))
        } else if k == TokenType::Nil {
            self.advance_one();
            Ok(Expr::Literal(Literal::Nil))
        } else if k == TokenType::Number || k == TokenType::String {
            let t = self.current_token();
            self.advance_one();
            Ok(Expr::Literal(t.literal))
        } else if k == TokenType::Identifier {
            let t = self.current_token();
            self.advance_one();
            Ok(Expr::Variable { name: t })
        } else if k == TokenType::LeftParen {
            self.advance_one();
            match self.expression() {
                Ok(expr) => {
                    if self.check(TokenType::RightParen) {
                        self.advance_one();
                        Ok(Expr::Grouping { expression: Box::new(expr) })
                    } else {
                        Err(
                            ParseError {
                                kind: ParseErrorKind::UnmatchedParen(self.current_token()),
                            },
                        )
                    }
                },
                Err(e) => Err(e),
            }
        } else if k == TokenType::Slash || k == TokenType::Star {
            let t = self.current_token();
            self.advance_one();
            match self.factor() {
                Ok(_) => Err(ParseError { kind: ParseErrorKind::ExpectLeftOperand(t) }),
                Err(e) => Err(e),
            }
        } else if k == TokenType::Greater || k == TokenType::GreaterEqual || k == TokenType::Less
            || k == TokenType::LessEqual {
            let t = self.current_token();
            self.advance_one();
            match self.comparison() {
                Ok(_) => Err(ParseError { kind: ParseErrorKind::ExpectLeftOperand(t) }),
                Err(e) => Err(e),
            }
        } else if k == TokenType::BangEqual || k == TokenType::EqualEqual {
            let t = self.current_token();
            self.advance_one();
            match self.equality() {
                Ok(_) => Err(ParseError { kind: ParseErrorKind::ExpectLeftOperand(t) }),
                Err(e) => Err(e),
            }
        } else if k == TokenType::Plus {
            let t = self.current_token();
            self.advance_one();
            match self.term() {
                Ok(_) => Err(ParseError { kind: ParseErrorKind::ExpectLeftOperand(t) }),
                Err(e) => Err(e),
            }
        } else {
            Err(ParseError { kind: ParseErrorKind::ExpectExpression(self.current_token()) })
        }
    }

    /// declaration -> "var" varDecl | statement
    fn declaration(&mut self) -> (res: Result<Stmt, ParseError>)
        requires
            old(self).wf(),
        ensures
            final(self).wf(),
            final(self).toks() == old(self).toks(),
            final(self).pos() >= old(self).pos(),
            res is Ok ==> final(self).pos() > old(self).pos(),
            ({
                let r = p_declaration(old(self).toks(), old(self).pos());
                &&& final(self).pos() == r.pos
                &&& match res {
                    Ok(s) => r.out matches Ok(v) && stmt_matches(s, v) && wf_stmt(s),
                    Err(pe) => r.out == Err::<StmtS, ParseError>(pe),
                }
            }),
        decreases room(self.toks(), self.pos()), 220int,
    {
        proof {
            reveal(p_declaration);
        }
        if self.check(TokenType::Var) {
            self.advance_one();
            self.var_declaration()
        } else {
            self.statement()
        }
    }

    /// varDecl -> IDENT ( "=" expression )? ";" (after the `var` keyword)
    fn var_declaration(&mut self) -> (res: Result<Stmt, ParseError>)
        requires
            old(self).wf(),
        ensures
            final(self).wf(),
            final(self).toks() == old(self).toks(),
            final(self).pos() >= old(self).pos(),
            res is Ok ==> final(self).pos() > old(self).pos(),
            ({
                let r = p_var_declaration(old(self).toks(), old(self).pos());
                &&& final(self).pos() == r.pos
                &&& match res {
                    Ok(s) => r.out matches Ok(v) && stmt_matches(s, v) && wf_stmt(s),
                    Err(pe) => r.out == Err::<StmtS, ParseError>(pe),
                }
            }),
        decreases room(self.toks(), self.pos()), 200int,
    {
        if !self.check(TokenType::Identifier) {
            return Err(
                ParseError { kind: ParseErrorKind::ExpectVariableName(self.current_token()) },
            );
        }
        let name = self.current_token();
        self.advance_one();
        if self.check(TokenType::Equal) {
            self.advance_one();
            match self.expression() {
                Ok(init) => {
                    if self.check(TokenType::Semicolon) {
                        self.advance_one();
                        Ok(Stmt::Var { name, initializer: init })
                    } else {
                        Err(
                            ParseError {
                                kind: ParseErrorKind::ExpectSemicolon(self.current_token()),
                            },
                        )
                    }
                },
                Err(e) => Err(e),
            }
        } else {
            if self.check(TokenType::Semicolon) {
                self.advance_one();
                Ok(Stmt::Var { name, initializer: Expr::Null })
            } else {
                Err(ParseError { kind: ParseErrorKind::ExpectSemicolon(self.current_token()) })
            }
        }
    }

    /// statement -> printStmt | block | ifStmt | whileStmt | forStmt
    ///            | exprStmt
    fn statement(&mut self) -> (res: Result<Stmt, ParseError>)
        requires
            old(self).wf(),
        ensures
            final(self).wf(),
            final(self).toks() == old(self).toks(),
            final(self).pos() >= old(self).pos(),
            res is Ok ==> final(self).pos() > old(self).pos(),
            ({
                let r = p_statement(old(self).toks(), old(self).pos());
                &&& final(self).pos() == r.pos
                &&& match res {
                    Ok(s) => r.out matches Ok(v) && stmt_matches(s, v) && wf_stmt(s),
                    Err(pe) => r.out == Err::<StmtS, ParseError>(pe),
                }
            }),
        decreases room(self.toks(), self.pos()), 210int,
    {
        let k = self.peek_kind();
        if k == TokenType::Print {
            self.advance_one();
            self.print_statement()
        } else if k == TokenType::LeftBrace {
            self.advance_one();
            self.block()
        } else if k == TokenType::If {
            self.advance_one();
            self.if_statement()
        } else if k == TokenType::While {
            self.advance_one();
            self.while_statement()
        } else if k == TokenType::For {
            self.advance_one();
            self.for_statement()
        } else {
            self.expression_statement()
        }
    }

    /// printStmt -> expression ";" (after the `print` keyword)
    fn print_statement(&mut self) -> (res: Result<Stmt, ParseError>)
        requires
            old(self).wf(),
        ensures
            final(self).wf(),
            final(self).toks() == old(self).toks(),
            final(self).pos() >= old(self).pos(),
            res is Ok ==> final(self).pos() > old(self).pos(),
            ({
                let r = p_print_statement(old(self).toks(), old(self).pos());
                &&& final(self).pos() == r.pos
                &&& match res {
                    Ok(s) => r.out matches Ok(v) && stmt_matches(s, v) && wf_stmt(s),
                    Err(pe) => r.out == Err::<StmtS, ParseError>(pe),
                }
            }),
        decreases room(self.toks(), self.pos()), 200int,
    {
        match self.expression() {
            Ok(value) => {
                if self.check(TokenType::Semicolon) {
                    self.advance_one();
                    Ok(Stmt::Print(value))
                } else {
                    Err(ParseError { kind: ParseErrorKind::ExpectSemicolon(self.current_token()) })
                }
            },
            Err(e) => Err(e),
        }
    }

    /// exprStmt -> expression ";"
    fn expression_statement(&mut self) -> (res: Result<Stmt, ParseError>)
        requires
            old(self).wf(),
        ensures
            final(self).wf(),
            final(self).toks() == old(self).toks(),
            final(self).pos() >= old(self).pos(),
            res is Ok ==> final(self).pos() > old(self).pos(),
            ({
                let r = p_expression_statement(old(self).toks(), old(self).pos());
                &&& final(self).pos() == r.pos
                &&& match res {
                    Ok(s) => r.out matches Ok(v) && stmt_matches(s, v) && wf_stmt(s),
                    Err(pe) => r.out == Err::<StmtS, ParseError>(pe),
                }
            }),
        decreases room(self.toks(), self.pos()), 200int,
    {
        match self.expression() {
            Ok(value) => {
                if self.check(TokenType::Semicolon) {
                    self.advance_one();
                    Ok(Stmt::Expr(value))
                } else {
                    Err(ParseError { kind: ParseErrorKind::ExpectSemicolon(self.current_token()) })
                }
            },
            Err(e) => Err(e),
        }
    }

    /// block -> declaration* "}" (after the opening brace)
    #[verifier::loop_isolation(false)]
    fn block(&mut self) -> (res: Result<Stmt, ParseError>)
        requires
            old(self).wf(),
        ensures
            final(self).wf(),
            final(self).toks() == old(self).toks(),
            final(self).pos() >= old(self).pos(),
            res is Ok ==> final(self).pos() > old(self).pos(),
            ({
                let r = p_block(old(self).toks(), Seq::<StmtS>::empty(), old(self).pos());
                &&& final(self).pos() == r.pos
                &&& match res {
                    Ok(s) => r.out matches Ok(v) && stmt_matches(s, v) && wf_stmt(s),
                    Err(pe) => r.out == Err::<StmtS, ParseError>(pe),
                }
            }),
        decreases room(self.toks(), self.pos()), 230int,
    {
        let ghost toks = old(self).toks();
        let ghost p0 = old(self).pos();
        let mut statements: Vec<Stmt> = Vec::new();
        let ghost done = Seq::<StmtS>::empty();
        proof {
            assert(stmts_match(statements@, done));
        }
        loop
            invariant
                self.wf(),
                self.toks() == toks,
                self.pos() >= p0,
                stmts_match(statements@, done),
                forall|i: int| 0 <= i < statements@.len() ==> wf_stmt(#[trigger] statements@[i]),
                p_block(toks, done, self.pos()) == p_block(toks, Seq::<StmtS>::empty(), p0),
            decreases toks.len() - self.pos(),
        {
            proof {
                reveal(p_declaration);
            }
            if self.check(TokenType::RightBrace) {
                self.advance_one();
                let out = Stmt::Block { statements };
                proof {
                    assert(stmt_matches(out, StmtS::Block(done)));
                }
                return Ok(out);
            }
            if self.is_at_end() {
                return Err(
                    ParseError { kind: ParseErrorKind::ExpectExpression(self.current_token()) },
                );
            }
            let ghost pos_b = self.pos();
            match self.declaration() {
                Ok(s) => {
                    let ghost shape = match p_declaration(toks, pos_b).out {
                        Ok(v) => v,
                        Err(_) => arbitrary(),
                    };
                    statements.push(s);
                    proof {
                        done = done.push(shape);
                        assert forall|i: int| 0 <= i < statements@.len() implies stmt_matches(
                            #[trigger] statements@[i],
                            done[i],
                        ) by {}
                    }
                },
                Err(e) => {
                    return Err(e);
                },
            }
        }
    }

    /// ifStmt -> "(" expression ")" statement ( "else" statement )?
    fn if_statement(&mut self) -> (res: Result<Stmt, ParseError>)
        requires
            old(self).wf(),
        ensures
            final(self).wf(),
            final(self).toks() == old(self).toks(),
            final(self).pos() >= old(self).pos(),
            res is Ok ==> final(self).pos() > old(self).pos(),
            ({
                let r = p_if_statement(old(self).toks(), old(self).pos());
                &&& final(self).pos() == r.pos
                &&& match res {
                    Ok(s) => r.out matches Ok(v) && stmt_matches(s, v) && wf_stmt(s),
                    Err(pe) => r.out == Err::<StmtS, ParseError>(pe),
                }
            }),
        decreases room(self.toks(), self.pos()), 200int,
    {
        if !self.check(TokenType::LeftParen) {
            return Err(ParseError { kind: ParseErrorKind::UnmatchedParen(self.current_token()) });
        }
        self.advance_one();
        let condition = match self.expression() {
            Ok(c) => c,
            Err(e) => {
                return Err(e);
            },
        };
        if !self.check(TokenType::RightParen) {
            return Err(ParseError { kind: ParseErrorKind::UnmatchedParen(self.current_token()) });
        }
        self.advance_one();
        let then_branch = match self.statement() {
            Ok(s) => s,
            Err(e) => {
                return Err(e);
            },
        };
        if self.check(TokenType::Else) {
            self.advance_one();
            match self.statement() {
                Ok(else_s) => Ok(
                    Stmt::If {
                        condition,
                        then_branch: Box::new(then_branch),
                        else_branch: Some(Box::new(else_s)),
                    },
                ),
                Err(e) => Err(e),
            }
        } else {
            Ok(Stmt::If { condition, then_branch: Box::new(then_branch), else_branch: None })
        }
    }

    /// whileStmt -> "(" expression ")" statement
    fn while_statement(&mut self) -> (res: Result<Stmt, ParseError>)
        requires
            old(self).wf(),
        ensures
            final(self).wf(),
            final(self).toks() == old(self).toks(),
            final(self).pos() >= old(self).pos(),
            res is Ok ==> final(self).pos() > old(self).pos(),
            ({
                let r = p_while_statement(old(self).toks(), old(self).pos());
                &&& final(self).pos() == r.pos
                &&& match res {
                    Ok(s) => r.out matches Ok(v) && stmt_matches(s, v) && wf_stmt(s),
                    Err(pe) => r.out == Err::<StmtS, ParseError>(pe),
                }
            }),
        decreases room(self.toks(), self.pos()), 200int,
    {
        if !self.check(TokenType::LeftParen) {
            return Err(ParseError { kind: ParseErrorKind::UnmatchedParen(self.current_token()) });
        }
        self.advance_one();
        let condition = match self.expression() {
            Ok(c) => c,
            Err(e) => {
                return Err(e);
            },
        };
        if !self.check(TokenType::RightParen) {
            return Err(ParseError { kind: ParseErrorKind::UnmatchedParen(self.current_token()) });
        }
        self.advance_one();
        match self.statement() {
            Ok(body) => Ok(Stmt::While { condition, body: Box::new(body) }),
            Err(e) => Err(e),
        }
    }

    /// The `for` initializer clause: empty, a declaration, or an
    /// expression statement.
    fn for_init(&mut self) -> (res: Result<Option<Stmt>, ParseError>)
        requires
            old(self).wf(),
        ensures
            final(self).wf(),
            final(self).toks() == old(self).toks(),
            final(self).pos() >= old(self).pos(),
            res is Ok ==> final(self).pos() > old(self).pos(),
            ({
                let r = p_for_init(old(self).toks(), old(self).pos());
                &&& final(self).pos() == r.1
                &&& match res {
                    Ok(None) => r.0 == Ok::<Option<StmtS>, ParseError>(None),
                    Ok(Some(s)) => (r.0 matches Ok(v) && v matches Some(vs) && stmt_matches(s, vs)
                        && wf_stmt(s)),
                    Err(e) => r.0 == Err::<Option<StmtS>, ParseError>(e),
                }
            }),
        decreases room(self.toks(), self.pos()), 190int,
    {
        if self.check(TokenType::Semicolon) {
            self.advance_one();
            Ok(None)
        } else if self.check(TokenType::Var) {
            self.advance_one();
            match self.var_declaration() {
                Ok(s) => Ok(Some(s)),
                Err(e) => Err(e),
            }
        } else {
            match self.expression_statement() {
                Ok(s) => Ok(Some(s)),
                Err(e) => Err(e),
            }
        }
    }

    /// The `for` condition clause, which may be empty.
    fn for_cond(&mut self) -> (res: Result<Option<Expr>, ParseError>)
        requires
            old(self).wf(),
        ensures
            final(self).wf(),
            final(self).toks() == old(self).toks(),
            final(self).pos() >= old(self).pos(),
            ({
                let r = p_for_cond(old(self).toks(), old(self).pos());
                &&& final(self).pos() == r.1
                &&& match res {
                    Ok(None) => r.0 == Ok::<Option<Expr>, ParseError>(None),
                    Ok(Some(e)) => r.0 == Ok::<Option<Expr>, ParseError>(Some(e)) && wf_expr(e),
                    Err(e) => r.0 == Err::<Option<Expr>, ParseError>(e),
                }
            }),
        decreases room(self.toks(), self.pos()), 190int,
    {
        if self.check(TokenType::Semicolon) {
            Ok(None)
        } else {
            match self.expression() {
                Ok(e) => Ok(Some(e)),
                Err(e) => Err(e),
            }
        }
    }

    /// The `for` increment clause, which may be empty.
    fn for_inc(&mut self) -> (res: Result<Option<Expr>, ParseError>)
        requires
            old(self).wf(),
        ensures
            final(self).wf(),
            final(self).toks() == old(self).toks(),
            final(self).pos() >= old(self).pos(),
            ({
                let r = p_for_inc(old(self).toks(), old(self).pos());
                &&& final(self).pos() == r.1
                &&& match res {
                    Ok(None) => r.0 == Ok::<Option<Expr>, ParseError>(None),
                    Ok(Some(e)) => r.0 == Ok::<Option<Expr>, ParseError>(Some(e)) && wf_expr(e),
                    Err(e) => r.0 == Err::<Option<Expr>, ParseError>(e),
                }
            }),
        decreases room(self.toks(), self.pos()), 190int,
    {
        if !self.check(TokenType::RightParen) {
            match self.expression() {
                Ok(e) => Ok(Some(e)),
                Err(e) => Err(e),
            }
        } else {
            Ok(None)
        }
    }

    /// The `for` clauses up to and including the closing parenthesis.
    #[verifier::rlimit(100)]
    #[verifier::spinoff_prover]
    fn for_header(&mut self) -> (res: Result<(Option<Stmt>, Option<Expr>, Option<Expr>), ParseError>)
        requires
            old(self).wf(),
        ensures
            final(self).wf(),
            final(self).toks() == old(self).toks(),
            final(self).pos() >= old(self).pos(),
            res is Ok ==> final(self).pos() > old(self).pos(),
            ({
                let r = p_for_header(old(self).toks(), old(self).pos());
                &&& final(self).pos() == r.1
                &&& match res {
                    Ok(t3) => r.0 matches Ok(v3) && (match (t3.0, v3.0) {
                        (Some(s), Some(vs)) => stmt_matches(s, vs) && wf_stmt(s),
                        (None, None) => true,
                        _ => false,
                    }) && t3.1 == v3.1 && t3.2 == v3.2 && (t3.1 matches Some(c) ==> wf_expr(c))
                        && (t3.2 matches Some(n) ==> wf_expr(n)),
                    Err(pe) => r.0 == Err::<(Option<StmtS>, Option<Expr>, Option<Expr>), ParseError>(
                        pe,
                    ),
                }
            }),
        decreases room(self.toks(), self.pos()), 195int,
    {
        if !self.check(TokenType::LeftParen) {
            return Err(ParseError { kind: ParseErrorKind::UnmatchedParen(self.current_token()) });
        }
        self.advance_one();
        let initializer: Option<Stmt> = match self.for_init() {
            Ok(o) => o,
            Err(e) => {
                return Err(e);
            },
        };
        let condition: Option<Expr> = match self.for_cond() {
            Ok(o) => o,
            Err(e) => {
                return Err(e);
            },
        };
        if !self.check(TokenType::Semicolon) {
            return Err(ParseError { kind: ParseErrorKind::ExpectSemicolon(self.current_token()) });
        }
        self.advance_one();
        let increment: Option<Expr> = match self.for_inc() {
            Ok(o) => o,
            Err(e) => {
                return Err(e);
            },
        };
        if !self.check(TokenType::RightParen) {
            return Err(ParseError { kind: ParseErrorKind::UnmatchedParen(self.current_token()) });
        }
        self.advance_one();
        Ok((initializer, condition, increment))
    }

    /// Builds the lowered `for`: body plus increment in a block, `true` for
    /// a missing condition, the initializer in front.
    fn build_for(
        initializer: Option<Stmt>,
        condition: Option<Expr>,
        increment: Option<Expr>,
        body: Stmt,
        Ghost(init_shape): Ghost<Option<StmtS>>,
        Ghost(body_shape): Ghost<StmtS>,
    ) -> (out: Stmt)
        requires
            match (initializer, init_shape) {
                (Some(s), Some(v)) => stmt_matches(s, v) && wf_stmt(s),
                (None, None) => true,
                _ => false,
            },
            stmt_matches(body, body_shape),
            wf_stmt(body),
            condition matches Some(c) ==> wf_expr(c),
            increment matches Some(n) ==> wf_expr(n),
        ensures
            stmt_matches(out, desugar_for(init_shape, condition, increment, body_shape)),
            wf_stmt(out),
    {
        let ghost inc_g = increment;
        let body2 = match increment {
            Some(inc) => {
                let mut v: Vec<Stmt> = Vec::new();
                v.push(body);
                v.push(Stmt::Expr(inc));
                Stmt::Block { statements: v }
            },
            None => body,
        };
        let ghost body2_shape: StmtS = match inc_g {
            Some(inc) => StmtS::Block(seq![body_shape, StmtS::Expr(inc)]),
            None => body_shape,
        };
        proof {
            match inc_g {
                Some(inc) => {
                    let ss = seq![body_shape, StmtS::Expr(inc)];
                    let bv = match &body2 {
                        Stmt::Block { statements } => statements@,
                        _ => arbitrary(),
                    };
                    assert(bv.len() == 2);
                    assert(bv[0] == body);
                    assert(bv[1] == Stmt::Expr(inc));
                    assert(ss[0] == body_shape);
                    assert(ss[1] == StmtS::Expr(inc));
                    assert(stmt_matches(bv[1], ss[1]));
                    assert forall|i: int| 0 <= i < ss.len() implies stmt_matches(
                        #[trigger] bv[i],
                        ss[i],
                    ) by {}
                    assert(stmt_matches(body2, body2_shape));
                    assert(wf_stmt(bv[1]));
                    assert forall|i: int| 0 <= i < bv.len() implies wf_stmt(#[trigger] bv[i]) by {}
                    assert(wf_stmt(body2));
                },
                None => {},
            }
        }
        let ghost cond_g = condition;
        let cond2 = match condition {
            Some(c) => c,
            None => Expr::Literal(Literal::Boolean(true)),
        };
        let ghost cond2_g = match cond_g {
            Some(c) => c,
            None => Expr::Literal(Literal::Boolean(true)),
        };
        let whole = Stmt::While { condition: cond2, body: Box::new(body2) };
        let ghost whole_shape = StmtS::While(cond2_g, Box::new(body2_shape));
        let ghost init_g = initializer;
        let out = match initializer {
            Some(init) => {
                let mut v: Vec<Stmt> = Vec::new();
                v.push(init);
                v.push(whole);
                Stmt::Block { statements: v }
            },
            None => whole,
        };
        proof {
            assert(wf_expr(cond2_g));
            assert(stmt_matches(whole, whole_shape));
            assert(wf_stmt(whole));
            let vshape = desugar_for(init_shape, cond_g, inc_g, body_shape);
            match init_g {
                Some(init) => {
                    let ss = seq![init_shape->0, whole_shape];
                    let bv = match &out {
                        Stmt::Block { statements } => statements@,
                        _ => arbitrary(),
                    };
                    assert(bv.len() == 2);
                    assert(bv[0] == init);
                    assert(bv[1] == whole);
                    assert(ss[0] == init_shape->0);
                    assert(ss[1] == whole_shape);
                    assert forall|i: int| 0 <= i < ss.len() implies stmt_matches(
                        #[trigger] bv[i],
                        ss[i],
                    ) by {}
                    assert(stmt_matches(out, StmtS::Block(ss)));
                    assert forall|i: int| 0 <= i < bv.len() implies wf_stmt(#[trigger] bv[i]) by {}
                    assert(wf_stmt(out));
                },
                None => {},
            }
            assert(stmt_matches(out, vshape));
        }
        out
    }

    /// forStmt, lowered to `while` on the spot (after the `for` keyword).
    #[verifier::rlimit(100)]
    #[verifier::spinoff_prover]
    fn for_statement(&mut self) -> (res: Result<Stmt, ParseError>)
        requires
            old(self).wf(),
        ensures
            final(self).wf(),
            final(self).toks() == old(self).toks(),
            final(self).pos() >= old(self).pos(),
            res is Ok ==> final(self).pos() > old(self).pos(),
            ({
                let r = p_for_statement(old(self).toks(), old(self).pos());
                &&& final(self).pos() == r.pos
                &&& match res {
                    Ok(s) => r.out matches Ok(v) && stmt_matches(s, v) && wf_stmt(s),
                    Err(pe) => r.out == Err::<StmtS, ParseError>(pe),
                }
            }),
        decreases room(self.toks(), self.pos()), 240int,
    {
        let ghost toks = old(self).toks();
        let ghost p0 = old(self).pos();
        let (initializer, condition, increment) = match self.for_header() {
            Ok(t3) => t3,
            Err(e) => {
                return Err(e);
            },
        };
        let ghost init_shape: Option<StmtS> = match p_for_header(toks, p0).0 {
            Ok(v3) => v3.0,
            Err(_) => arbitrary(),
        };
        let ghost pb = self.pos();
        let body = match self.statement() {
            Ok(s) => s,
            Err(e) => {
                return Err(e);
            },
        };
        let ghost body_shape: StmtS = match p_statement(toks, pb).out {
            Ok(v) => v,
            Err(_) => arbitrary(),
        };
        let out = Self::build_for(
            initializer,
            condition,
            increment,
            body,
            Ghost(init_shape),
            Ghost(body_shape),
        );
        Ok(out)
    }

    /// Panic-mode recovery: discards the token the error was found at, then
    /// everything up to a statement boundary.
    #[verifier::loop_isolation(false)]
    fn synchronize(&mut self)
        requires
            old(self).wf(),
        ensures
            final(self).wf(),
            final(self).toks() == old(self).toks(),
            final(self).pos() >= old(self).pos(),
            final(self).pos() == sync_from(old(self).toks(), old(self).pos()),
    {
        let ghost toks = old(self).toks();
        let ghost p0 = old(self).pos();
        if self.is_at_end() {
            return ;
        }
        self.advance_one();
        loop
            invariant
                self.wf(),
                self.toks() == toks,
                self.pos() >= p0 + 1,
                sync_pos(toks, self.pos()) == sync_pos(toks, p0 + 1),
            decreases toks.len() - self.pos(),
        {
            if self.is_at_end() {
                return ;
            }
            let prev = self.tokens[self.current - 1].token_type;
            if prev == TokenType::Semicolon {
                return ;
            }
            let k = self.peek_kind();
            let boundary = k == TokenType::Class || k == TokenType::Fun || k == TokenType::Var
                || k == TokenType::For || k == TokenType::If || k == TokenType::While || k
                == TokenType::Print || k == TokenType::Return;
            if boundary {
                return ;
            }
            self.advance_one();
        }
    }

    /// Parses the whole program, recovering after each failed declaration:
    /// the statements that parsed, and the first error if any failed.
    #[verifier::loop_isolation(false)]
    #[verifier::rlimit(100)]
    #[verifier::spinoff_prover]
    pub fn parse_program(&mut self) -> (res: (Vec<Stmt>, Option<ParseError>))
        requires
            old(self).wf(),
        ensures
            final(self).wf(),
            final(self).toks() == old(self).toks(),
            ({
                let pr = p_program(old(self).toks(), old(self).pos());
                &&& stmts_match(res.0@, pr.stmts)
                &&& res.1 == pr.err
                &&& forall|i: int| 0 <= i < res.0@.len() ==> wf_stmt(#[trigger] res.0@[i])
            }),
    {
        let ghost toks = old(self).toks();
        let ghost p0 = old(self).pos();
        let mut statements: Vec<Stmt> = Vec::new();
        let ghost done = Seq::<StmtS>::empty();
        let mut first_error: Option<ParseError> = None;
        loop
            invariant
                self.wf(),
                self.toks() == toks,
                self.pos() >= p0,
                stmts_match(statements@, done),
                forall|i: int| 0 <= i < statements@.len() ==> wf_stmt(#[trigger] statements@[i]),
                ({
                    let rest = p_program(toks, self.pos());
                    let whole = p_program(toks, p0);
                    &&& whole.stmts == done + rest.stmts
                    &&& whole.err == match first_error {
                        Some(e) => Some(e),
                        None => rest.err,
                    }
                }),
            decreases toks.len() - self.pos(),
        {
            if self.is_at_end() {
                proof {
                    lemma_program_eof(toks, self.pos());
                    assert(done + Seq::<StmtS>::empty() =~= done);
                }
                return (statements, first_error);
            }
            let ghost pos_b = self.pos();
            let ghost done_b = done;
            match self.declaration() {
                Ok(s) => {
                    let ghost shape = match p_declaration(toks, pos_b).out {
                        Ok(v) => v,
                        Err(_) => arbitrary(),
                    };
                    statements.push(s);
                    proof {
                        done = done.push(shape);
                        assert forall|i: int| 0 <= i < statements@.len() implies stmt_matches(
                            #[trigger] statements@[i],
                            done[i],
                        ) by {}
                        lemma_program_step_ok(toks, pos_b);
                        let rest = p_program(toks, self.pos());
                        assert(done_b + (seq![shape] + rest.stmts) =~= done + rest.stmts);
                    }
                },
                Err(e) => {
                    let ghost perr = self.pos();
                    self.synchronize();
                    if first_error.is_none() {
                        first_error = Some(e);
                    }
                    proof {
                        lemma_program_step_err(toks, pos_b);
                        lemma_sync_pos_ge(toks, perr + 1);
                        let q = sync_from(toks, perr);
                        if !(pos_b < q <= toks.len()) {
                            assert(kind_at(toks, perr) == TokenType::Eof);
                            assert(q == perr);
                            assert(perr < toks.len());
                            assert(toks[toks.len() - 1].token_type == TokenType::Eof);
                            assert(kind_at(toks, perr + 1) == TokenType::Eof);
                            lemma_program_eof(toks, perr);
                            lemma_program_eof(toks, perr + 1);
                        }
                    }
                },
            }
        }
    }

    /// Parses the program and returns its statements, or the first error
    /// the parser recovered from.
    pub fn parse(&mut self) -> (res: Result<Vec<Stmt>, ParseError>)
        requires
            old(self).wf(),
        ensures
            final(self).wf(),
            final(self).toks() == old(self).toks(),
            ({
                let pr = p_program(old(self).toks(), old(self).pos());
                match res {
                    Ok(v) => pr.err is None && stmts_match(v@, pr.stmts) && (forall|i: int|
                        0 <= i < v@.len() ==> wf_stmt(#[trigger] v@[i])),
                    Err(e) => pr.err == Some(e),
                }
            }),
    {
        let (statements, first_error) = self.parse_program();
        match first_error {
            Some(e) => Err(e),
            None => Ok(statements),
        }
    }
}

} // verus!
