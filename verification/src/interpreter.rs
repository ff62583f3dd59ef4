use vstd::prelude::*;

use crate::ast::{Expr, Stmt};
use crate::environment::{
    defining_scope, lemma_defining_scope_in_range, lookup, Cactus, EnvironmentError, ScopeView,
};
use crate::num::{
    answer_at, eq_bits, flip_sign, is_zero, le_bits, lt_bits, negate, num_eq, num_le, num_lt,
    zero_bits, AnswerV, NumAnswer, NumOp, NumQuery, QueryV,
};
use crate::token::{Literal, Token, TokenType};
use vstd::string::StringExecFns;

verus! {

/// The mathematical value of a runtime object: strings as character
/// sequences, numbers as their bit patterns.
pub enum Val {
    Str(Seq<char>),
    Num(u32),
    Bool(bool),
    Nil,
}

/// A runtime value. Objects are distinct from token literals: literals live
/// in the parser's domain, objects in the runtime domain. A number holds the
/// bit pattern of an IEEE 754 binary32 value.
#[derive(Clone, PartialEq, Debug)]
pub enum Object {
    String(String),
    Number(u32),
    Boolean(bool),
    Nil,
}

impl View for Object {
    type V = Val;

    open spec fn view(&self) -> Val {
        match self {
            Object::String(s) => Val::Str(s@),
            Object::Number(b) => Val::Num(*b),
            Object::Boolean(b) => Val::Bool(*b),
            Object::Nil => Val::Nil,
        }
    }
}

impl Object {
    /// A copy that provably equals the source, where a derived clone would
    /// say nothing.
    pub fn duplicate(&self) -> (r: Object)
        ensures
            r == *self,
    {
        match self {
            Object::String(s) => Object::String(s.clone()),
            Object::Number(b) => Object::Number(*b),
            Object::Boolean(b) => Object::Boolean(*b),
            Object::Nil => Object::Nil,
        }
    }
}

#[derive(Clone, PartialEq, Debug)]
pub struct InterpreterError {
    pub kind: ErrorKind,
}

impl InterpreterError {
    pub fn new(kind: ErrorKind) -> (e: InterpreterError)
        ensures
            e.kind == kind,
    {
        InterpreterError { kind }
    }
}

/// A runtime fault of the evaluator itself. A failed cast carries the two
/// operand values of the operation that demanded numbers; division by zero
/// carries the dividend's bit pattern.
#[derive(Clone, PartialEq, Debug)]
pub enum ErrorKind {
    FailedCast(Object, Object),
    DivideByZero(u32),
    UninitializedVariable,
}

/// Any runtime fault: the evaluator's own, or an undefined variable from the
/// scope chain.
#[derive(Clone, PartialEq, Debug)]
pub enum Fault {
    Interp(InterpreterError),
    Env(EnvironmentError),
}

/// The mathematical reading of a fault.
pub enum FaultV {
    Cast(Val, Val),
    DivZero(u32),
    Uninit,
    Undefined(Seq<char>, nat),
}

impl View for Fault {
    type V = FaultV;

    open spec fn view(&self) -> FaultV {
        match self {
            Fault::Interp(e) => match e.kind {
                ErrorKind::FailedCast(a, b) => FaultV::Cast(a@, b@),
                ErrorKind::DivideByZero(b) => FaultV::DivZero(b),
                ErrorKind::UninitializedVariable => FaultV::Uninit,
            },
            Fault::Env(e) => match e.kind {
                crate::environment::ErrorKind::UndefinedVariable(t, _) => FaultV::Undefined(
                    t.lexeme@,
                    t.line as nat,
                ),
            },
        }
    }
}

/// Why evaluation stopped early: a runtime fault, or a numeric computation
/// that the host must answer before the program is run again.
#[derive(Clone, PartialEq, Debug)]
pub enum Interrupt {
    Fault(Fault),
    Need(NumQuery),
    Exhausted,
}

/// Only `false` and nil are falsy; every other value, zero and the empty
/// string included, is truthy.
pub open spec fn truthy(v: Val) -> bool {
    match v {
        Val::Bool(b) => b,
        Val::Nil => false,
        _ => true,
    }
}

/// Structural equality: same variant and same inner value, with numbers
/// compared as floats (so the two zeros are equal and NaN equals nothing).
pub open spec fn val_eq(a: Val, b: Val) -> bool {
    match (a, b) {
        (Val::Str(x), Val::Str(y)) => x == y,
        (Val::Num(x), Val::Num(y)) => num_eq(x, y),
        (Val::Bool(x), Val::Bool(y)) => x == y,
        (Val::Nil, Val::Nil) => true,
        _ => false,
    }
}

/// The outcome of stringifying one value: the characters and the next tape
/// position, or the query the host still has to answer.
pub enum StrRes {
    Done(Seq<char>, int),
    Need(QueryV),
}

/// The decimal rendering used by `print` and by string concatenation. Only a
/// number consults the tape.
pub open spec fn stringify_v(v: Val, tape: Seq<AnswerV>, ti: int) -> StrRes {
    match v {
        Val::Str(s) => StrRes::Done(s, ti),
        Val::Bool(b) => StrRes::Done(if b { "true"@ } else { "false"@ }, ti),
        Val::Nil => StrRes::Done("null"@, ti),
        Val::Num(b) => match answer_at(tape, ti) {
            Some(AnswerV::Text(s)) => StrRes::Done(s, ti + 1),
            _ => StrRes::Need(QueryV::ToDec(b)),
        },
    }
}

/// How evaluating one expression ends.
pub enum OutV {
    Val(Val),
    Fault(FaultV),
    Need(QueryV),
}

/// The result of evaluating one expression: its outcome, the scopes after
/// it (assignment may change bindings, never the number of scopes), and the
/// next tape position.
pub struct ExprRes {
    pub out: OutV,
    pub scopes: Seq<ScopeView>,
    pub ti: int,
}

/// The `+` table: numbers add (through the tape); a string on either side
/// concatenates with the other side stringified; anything else is a failed
/// cast.
pub open spec fn plus_result(l: Val, r: Val, tape: Seq<AnswerV>, ti: int) -> (OutV, int) {
    match l {
        Val::Num(a) => match r {
            Val::Num(b) => match answer_at(tape, ti) {
                Some(AnswerV::Bits(c)) => (OutV::Val(Val::Num(c)), ti + 1),
                _ => (OutV::Need(QueryV::Arith(NumOp::Add, a, b)), ti),
            },
            Val::Str(s) => match answer_at(tape, ti) {
                Some(AnswerV::Text(ls)) => (OutV::Val(Val::Str(ls + s)), ti + 1),
                _ => (OutV::Need(QueryV::ToDec(a)), ti),
            },
            _ => (OutV::Fault(FaultV::Cast(l, r)), ti),
        },
        Val::Str(s) => match stringify_v(r, tape, ti) {
            StrRes::Done(rs, ti2) => (OutV::Val(Val::Str(s + rs)), ti2),
            StrRes::Need(q) => (OutV::Need(q), ti),
        },
        _ => (OutV::Fault(FaultV::Cast(l, r)), ti),
    }
}

/// The binary operator table over already-evaluated operands. `- * /` and
/// comparisons demand numbers; `/` by zero is a fault carrying the dividend;
/// equality never faults.
pub open spec fn binary_result(op: TokenType, l: Val, r: Val, tape: Seq<AnswerV>, ti: int) -> (
    OutV,
    int,
) {
    if op == TokenType::Minus || op == TokenType::Star || op == TokenType::Slash {
        match (l, r) {
            (Val::Num(a), Val::Num(b)) => {
                if op == TokenType::Slash && zero_bits(b) {
                    (OutV::Fault(FaultV::DivZero(a)), ti)
                } else {
                    let nop = if op == TokenType::Minus {
                        NumOp::Sub
                    } else if op == TokenType::Star {
                        NumOp::Mul
                    } else {
                        NumOp::Div
                    };
                    match answer_at(tape, ti) {
                        Some(AnswerV::Bits(c)) => (OutV::Val(Val::Num(c)), ti + 1),
                        _ => (OutV::Need(QueryV::Arith(nop, a, b)), ti),
                    }
                }
            },
            _ => (OutV::Fault(FaultV::Cast(l, r)), ti),
        }
    } else if op == TokenType::Plus {
        plus_result(l, r, tape, ti)
    } else if op == TokenType::Greater || op == TokenType::GreaterEqual || op == TokenType::Less
        || op == TokenType::LessEqual {
        match (l, r) {
            (Val::Num(a), Val::Num(b)) => {
                let c = if op == TokenType::Greater {
                    num_lt(b, a)
                } else if op == TokenType::GreaterEqual {
                    num_le(b, a)
                } else if op == TokenType::Less {
                    num_lt(a, b)
                } else {
                    num_le(a, b)
                };
                (OutV::Val(Val::Bool(c)), ti)
            },
            _ => (OutV::Fault(FaultV::Cast(l, r)), ti),
        }
    } else if op == TokenType::BangEqual {
        (OutV::Val(Val::Bool(!val_eq(l, r))), ti)
    } else {
        (OutV::Val(Val::Bool(val_eq(l, r))), ti)
    }
}

/// The operator kinds the parser can put in a `Binary` node.
pub open spec fn is_binary_op(t: TokenType) -> bool {
    ||| t == TokenType::Minus
    ||| t == TokenType::Slash
    ||| t == TokenType::Star
    ||| t == TokenType::Plus
    ||| t == TokenType::Greater
    ||| t == TokenType::GreaterEqual
    ||| t == TokenType::Less
    ||| t == TokenType::LessEqual
    ||| t == TokenType::BangEqual
    ||| t == TokenType::EqualEqual
}

/// A tree the parser can produce: operator tags match their node kinds, and
/// the `Null` placeholder stands nowhere an expression is evaluated.
pub open spec fn wf_expr(e: Expr) -> bool
    decreases e,
{
    match e {
        Expr::Literal(_) => true,
        Expr::Grouping { expression } => wf_expr(*expression),
        Expr::Assign { name: _, value } => wf_expr(*value),
        Expr::Binary { left, operator, right } => is_binary_op(operator.token_type) && wf_expr(
            *left,
        ) && wf_expr(*right),
        Expr::Unary { operator, right } => (operator.token_type == TokenType::Minus
            || operator.token_type == TokenType::Bang) && wf_expr(*right),
        Expr::Logical { left, operator, right } => (operator.token_type == TokenType::And
            || operator.token_type == TokenType::Or) && wf_expr(*left) && wf_expr(*right),
        Expr::Variable { name: _ } => true,
        Expr::Null => false,
    }
}

pub open spec fn wf_stmt(s: Stmt) -> bool
    decreases s,
{
    match s {
        Stmt::Expr(e) => wf_expr(e),
        Stmt::Print(e) => wf_expr(e),
        Stmt::Var { name: _, initializer } => initializer == Expr::Null || wf_expr(initializer),
        Stmt::Block { statements } => forall|j: int|
            0 <= j < statements@.len() ==> wf_stmt(#[trigger] statements@[j]),
        Stmt::If { condition, then_branch, else_branch } => wf_expr(condition) && wf_stmt(
            *then_branch,
        ) && (else_branch matches Some(e) ==> wf_stmt(*e)),
        Stmt::While { condition, body } => wf_expr(condition) && wf_stmt(*body),
    }
}

/// Big-step evaluation of one expression, strictly left to right. Evaluation
/// is a function of the scopes and of the answer tape alone; where the tape
/// ends before a needed answer, the outcome names the missing query.
pub open spec fn eval_expr(
    e: Expr,
    env: int,
    scopes: Seq<ScopeView>,
    tape: Seq<AnswerV>,
    ti: int,
) -> ExprRes
    decreases e,
{
    match e {
        Expr::Literal(lit) => match lit {
            Literal::Boolean(b) => ExprRes { out: OutV::Val(Val::Bool(b)), scopes, ti },
            Literal::Nil => ExprRes { out: OutV::Val(Val::Nil), scopes, ti },
            Literal::String(s) => ExprRes { out: OutV::Val(Val::Str(s@)), scopes, ti },
            Literal::Number(s) => match answer_at(tape, ti) {
                Some(AnswerV::Bits(b)) => ExprRes {
                    out: OutV::Val(Val::Num(b)),
                    scopes,
                    ti: ti + 1,
                },
                _ => ExprRes { out: OutV::Need(QueryV::FromDec(s@)), scopes, ti },
            },
        },
        Expr::Grouping { expression } => eval_expr(*expression, env, scopes, tape, ti),
        Expr::Unary { operator, right } => {
            let r = eval_expr(*right, env, scopes, tape, ti);
            match r.out {
                OutV::Val(v) => if operator.token_type == TokenType::Bang {
                    ExprRes { out: OutV::Val(Val::Bool(!truthy(v))), scopes: r.scopes, ti: r.ti }
                } else {
                    match v {
                        Val::Num(b) => ExprRes {
                            out: OutV::Val(Val::Num(flip_sign(b))),
                            scopes: r.scopes,
                            ti: r.ti,
                        },
                        _ => ExprRes {
                            out: OutV::Fault(FaultV::Cast(v, Val::Nil)),
                            scopes: r.scopes,
                            ti: r.ti,
                        },
                    }
                },
                _ => r,
            }
        },
        Expr::Binary { left, operator, right } => {
            let l = eval_expr(*left, env, scopes, tape, ti);
            match l.out {
                OutV::Val(lv) => {
                    let r = eval_expr(*right, env, l.scopes, tape, l.ti);
                    match r.out {
                        OutV::Val(rv) => {
                            let (o, ti2) = binary_result(operator.token_type, lv, rv, tape, r.ti);
                            ExprRes { out: o, scopes: r.scopes, ti: ti2 }
                        },
                        _ => r,
                    }
                },
                _ => l,
            }
        },
        Expr::Logical { left, operator, right } => {
            let l = eval_expr(*left, env, scopes, tape, ti);
            match l.out {
                OutV::Val(lv) => {
                    let short = if operator.token_type == TokenType::Or {
                        truthy(lv)
                    } else {
                        !truthy(lv)
                    };
                    if short {
                        l
                    } else {
                        eval_expr(*right, env, l.scopes, tape, l.ti)
                    }
                },
                _ => l,
            }
        },
        Expr::Variable { name } => match lookup(scopes, env, name.lexeme@) {
            Some(v) => ExprRes { out: OutV::Val(v), scopes, ti },
            None => ExprRes {
                out: OutV::Fault(FaultV::Undefined(name.lexeme@, name.line as nat)),
                scopes,
                ti,
            },
        },
        Expr::Assign { name, value } => {
            let r = eval_expr(*value, env, scopes, tape, ti);
            match r.out {
                OutV::Val(v) => match defining_scope(r.scopes, env, name.lexeme@) {
                    Some(d) => ExprRes {
                        out: OutV::Val(v),
                        scopes: r.scopes.update(
                            d,
                            ScopeView {
                                bindings: r.scopes[d].bindings.insert(name.lexeme@, v),
                                parent: r.scopes[d].parent,
                            },
                        ),
                        ti: r.ti,
                    },
                    None => ExprRes {
                        out: OutV::Fault(FaultV::Undefined(name.lexeme@, name.line as nat)),
                        scopes: r.scopes,
                        ti: r.ti,
                    },
                },
                _ => r,
            }
        },
        Expr::Null => ExprRes { out: OutV::Fault(FaultV::Uninit), scopes, ti },
    }
}

/// How executing one statement ends. `Exhausted` means the step budget ran
/// out, never that the program faulted.
pub enum StmtOutV {
    Done,
    Fault(FaultV),
    Need(QueryV),
    Exhausted,
}

/// The result of executing statements: the outcome, the scopes, the next
/// tape position, everything printed so far, and the remaining step budget.
pub struct StmtRes {
    pub out: StmtOutV,
    pub scopes: Seq<ScopeView>,
    pub ti: int,
    pub output: Seq<Seq<char>>,
    pub steps: nat,
}

/// The smaller of two budgets. Execution can only spend budget, so wherever
/// this caps a continuation it is the identity; it makes the recursion
/// visibly terminating.
pub open spec fn capped(a: nat, b: nat) -> nat {
    if a <= b {
        a
    } else {
        b
    }
}

/// Big-step execution of one statement. Every statement entered costs one
/// step of budget; a `while` loop costs one more for each iteration, so a
/// loop without an end exhausts any finite budget instead of having no
/// meaning.
pub open spec fn exec_stmt(
    s: Stmt,
    env: int,
    scopes: Seq<ScopeView>,
    tape: Seq<AnswerV>,
    ti: int,
    output: Seq<Seq<char>>,
    steps: nat,
) -> StmtRes
    decreases steps,
{
    if steps == 0 {
        StmtRes { out: StmtOutV::Exhausted, scopes, ti, output, steps: 0 }
    } else {
        let fl = (steps - 1) as nat;
        match s {
            Stmt::Expr(e) => {
                let r = eval_expr(e, env, scopes, tape, ti);
                StmtRes {
                    out: match r.out {
                        OutV::Val(_) => StmtOutV::Done,
                        OutV::Fault(f) => StmtOutV::Fault(f),
                        OutV::Need(q) => StmtOutV::Need(q),
                    },
                    scopes: r.scopes,
                    ti: r.ti,
                    output,
                    steps: fl,
                }
            },
            Stmt::Print(e) => {
                let r = eval_expr(e, env, scopes, tape, ti);
                match r.out {
                    OutV::Val(v) => if v is Nil {
                        StmtRes {
                            out: StmtOutV::Fault(FaultV::Uninit),
                            scopes: r.scopes,
                            ti: r.ti,
                            output,
                            steps: fl,
                        }
                    } else {
                        match stringify_v(v, tape, r.ti) {
                            StrRes::Done(text, ti2) => StmtRes {
                                out: StmtOutV::Done,
                                scopes: r.scopes,
                                ti: ti2,
                                output: output.push(text),
                                steps: fl,
                            },
                            StrRes::Need(q) => StmtRes {
                                out: StmtOutV::Need(q),
                                scopes: r.scopes,
                                ti: r.ti,
                                output,
                                steps: fl,
                            },
                        }
                    },
                    OutV::Fault(f) => StmtRes {
                        out: StmtOutV::Fault(f),
                        scopes: r.scopes,
                        ti: r.ti,
                        output,
                        steps: fl,
                    },
                    OutV::Need(q) => StmtRes {
                        out: StmtOutV::Need(q),
                        scopes: r.scopes,
                        ti: r.ti,
                        output,
                        steps: fl,
                    },
                }
            },
            Stmt::Var { name, initializer } => {
                let r = if initializer == Expr::Null {
                    ExprRes { out: OutV::Val(Val::Nil), scopes, ti }
                } else {
                    eval_expr(initializer, env, scopes, tape, ti)
                };
                match r.out {
                    OutV::Val(v) => if 0 <= env < r.scopes.len() {
                        StmtRes {
                            out: StmtOutV::Done,
                            scopes: r.scopes.update(
                                env,
                                ScopeView {
                                    bindings: r.scopes[env].bindings.insert(name.lexeme@, v),
                                    parent: r.scopes[env].parent,
                                },
                            ),
                            ti: r.ti,
                            output,
                            steps: fl,
                        }
                    } else {
                        StmtRes { out: StmtOutV::Done, scopes: r.scopes, ti: r.ti, output, steps: fl }
                    },
                    OutV::Fault(f) => StmtRes {
                        out: StmtOutV::Fault(f),
                        scopes: r.scopes,
                        ti: r.ti,
                        output,
                        steps: fl,
                    },
                    OutV::Need(q) => StmtRes {
                        out: StmtOutV::Need(q),
                        scopes: r.scopes,
                        ti: r.ti,
                        output,
                        steps: fl,
                    },
                }
            },
            Stmt::If { condition, then_branch, else_branch } => {
                let c = eval_expr(condition, env, scopes, tape, ti);
                match c.out {
                    OutV::Val(v) => if truthy(v) {
                        exec_stmt(*then_branch, env, c.scopes, tape, c.ti, output, fl)
                    } else {
                        match else_branch {
                            Some(e) => exec_stmt(*e, env, c.scopes, tape, c.ti, output, fl),
                            None => StmtRes {
                                out: StmtOutV::Done,
                                scopes: c.scopes,
                                ti: c.ti,
                                output,
                                steps: fl,
                            },
                        }
                    },
                    OutV::Fault(f) => StmtRes {
                        out: StmtOutV::Fault(f),
                        scopes: c.scopes,
                        ti: c.ti,
                        output,
                        steps: fl,
                    },
                    OutV::Need(q) => StmtRes {
                        out: StmtOutV::Need(q),
                        scopes: c.scopes,
                        ti: c.ti,
                        output,
                        steps: fl,
                    },
                }
            },
            Stmt::While { condition, body } => {
                let c = eval_expr(condition, env, scopes, tape, ti);
                match c.out {
                    OutV::Val(v) => if !truthy(v) {
                        StmtRes { out: StmtOutV::Done, scopes: c.scopes, ti: c.ti, output, steps: fl }
                    } else {
                        let b = exec_stmt(*body, env, c.scopes, tape, c.ti, output, fl);
                        match b.out {
                            StmtOutV::Done => exec_stmt(
                                Stmt::While { condition, body },
                                env,
                                b.scopes,
                                tape,
                                b.ti,
                                b.output,
                                capped(b.steps, fl),
                            ),
                            _ => b,
                        }
                    },
                    OutV::Fault(f) => StmtRes {
                        out: StmtOutV::Fault(f),
                        scopes: c.scopes,
                        ti: c.ti,
                        output,
                        steps: fl,
                    },
                    OutV::Need(q) => StmtRes {
                        out: StmtOutV::Need(q),
                        scopes: c.scopes,
                        ti: c.ti,
                        output,
                        steps: fl,
                    },
                }
            },
            Stmt::Block { statements } => {
                let entered = scopes.push(
                    ScopeView { bindings: Map::<Seq<char>, Val>::empty(), parent: Some(env as usize) },
                );
                let r = exec_stmts(statements@, 0, scopes.len() as int, entered, tape, ti, output, fl);
                StmtRes {
                    out: r.out,
                    scopes: r.scopes.drop_last(),
                    ti: r.ti,
                    output: r.output,
                    steps: r.steps,
                }
            },
        }
    }
}

/// Executes `ss[i..]` in order, stopping at the first fault, missing answer
/// or exhausted budget.
pub open spec fn exec_stmts(
    ss: Seq<Stmt>,
    i: int,
    env: int,
    scopes: Seq<ScopeView>,
    tape: Seq<AnswerV>,
    ti: int,
    output: Seq<Seq<char>>,
    steps: nat,
) -> StmtRes
    decreases steps,
{
    if i < 0 || i >= ss.len() {
        StmtRes { out: StmtOutV::Done, scopes, ti, output, steps }
    } else if steps == 0 {
        StmtRes { out: StmtOutV::Exhausted, scopes, ti, output, steps: 0 }
    } else {
        let fl = (steps - 1) as nat;
        let r = exec_stmt(ss[i], env, scopes, tape, ti, output, fl);
        match r.out {
            StmtOutV::Done => exec_stmts(
                ss,
                i + 1,
                env,
                r.scopes,
                tape,
                r.ti,
                r.output,
                capped(r.steps, fl),
            ),
            _ => r,
        }
    }
}

/// Execution only spends budget, so the cap in the definitions above is the
/// identity.
pub proof fn lemma_stmt_spends(
    s: Stmt,
    env: int,
    scopes: Seq<ScopeView>,
    tape: Seq<AnswerV>,
    ti: int,
    output: Seq<Seq<char>>,
    steps: nat,
)
    ensures
        exec_stmt(s, env, scopes, tape, ti, output, steps).steps <= steps,
    decreases steps,
{
    if steps > 0 {
        let fl = (steps - 1) as nat;
        match s {
            Stmt::If { condition, then_branch, else_branch } => {
                let c = eval_expr(condition, env, scopes, tape, ti);
                match c.out {
                    OutV::Val(v) => {
                        if truthy(v) {
                            lemma_stmt_spends(*then_branch, env, c.scopes, tape, c.ti, output, fl);
                        } else {
                            if let Some(e) = else_branch {
                                lemma_stmt_spends(*e, env, c.scopes, tape, c.ti, output, fl);
                            }
                        }
                    },
                    _ => {},
                }
            },
            Stmt::While { condition, body } => {
                let c = eval_expr(condition, env, scopes, tape, ti);
                match c.out {
                    OutV::Val(v) => {
                        if truthy(v) {
                            lemma_stmt_spends(*body, env, c.scopes, tape, c.ti, output, fl);
                            let b = exec_stmt(*body, env, c.scopes, tape, c.ti, output, fl);
                            if b.out is Done {
                                lemma_stmt_spends(
                                    Stmt::While { condition, body },
                                    env,
                                    b.scopes,
                                    tape,
                                    b.ti,
                                    b.output,
                                    capped(b.steps, fl),
                                );
                            }
                        }
                    },
                    _ => {},
                }
            },
            Stmt::Block { statements } => {
                let entered = scopes.push(
                    ScopeView { bindings: Map::<Seq<char>, Val>::empty(), parent: Some(env as usize) },
                );
                lemma_stmts_spends(
                    statements@,
                    0,
                    scopes.len() as int,
                    entered,
                    tape,
                    ti,
                    output,
                    fl,
                );
            },
            _ => {},
        }
    }
}

pub proof fn lemma_stmts_spends(
    ss: Seq<Stmt>,
    i: int,
    env: int,
    scopes: Seq<ScopeView>,
    tape: Seq<AnswerV>,
    ti: int,
    output: Seq<Seq<char>>,
    steps: nat,
)
    ensures
        exec_stmts(ss, i, env, scopes, tape, ti, output, steps).steps <= steps,
    decreases steps,
{
    if 0 <= i < ss.len() && steps > 0 {
        let fl = (steps - 1) as nat;
        lemma_stmt_spends(ss[i], env, scopes, tape, ti, output, fl);
        let r = exec_stmt(ss[i], env, scopes, tape, ti, output, fl);
        if r.out is Done {
            lemma_stmts_spends(ss, i + 1, env, r.scopes, tape, r.ti, r.output, capped(r.steps, fl));
        }
    }
}

// Scope balance: evaluation never changes how many scopes there are, and
// however a statement ends (normally, on a fault, on a missing answer, or
// out of budget) it leaves exactly as many scopes as it found: a block's
// scope never outlives the block. For a whole program run against a fresh
// evaluator, that is the root scope alone.
#[verifier::rlimit(60)]
#[verifier::spinoff_prover]
pub proof fn lemma_eval_scope_balance(
    e: Expr,
    env: int,
    scopes: Seq<ScopeView>,
    tape: Seq<AnswerV>,
    ti: int,
)
    ensures
        eval_expr(e, env, scopes, tape, ti).scopes.len() == scopes.len(),
    decreases e,
{
    match e {
        Expr::Grouping { expression } => {
            lemma_eval_scope_balance(*expression, env, scopes, tape, ti);
        },
        Expr::Unary { operator: _, right } => {
            lemma_eval_scope_balance(*right, env, scopes, tape, ti);
        },
        Expr::Binary { left, operator: _, right } => {
            lemma_eval_scope_balance(*left, env, scopes, tape, ti);
            let l = eval_expr(*left, env, scopes, tape, ti);
            lemma_eval_scope_balance(*right, env, l.scopes, tape, l.ti);
        },
        Expr::Logical { left, operator: _, right } => {
            lemma_eval_scope_balance(*left, env, scopes, tape, ti);
            let l = eval_expr(*left, env, scopes, tape, ti);
            lemma_eval_scope_balance(*right, env, l.scopes, tape, l.ti);
        },
        Expr::Assign { name, value } => {
            lemma_eval_scope_balance(*value, env, scopes, tape, ti);
            let r = eval_expr(*value, env, scopes, tape, ti);
            lemma_defining_scope_in_range(r.scopes, env, name.lexeme@);
        },
        _ => {},
    }
}

pub proof fn lemma_stmt_scope_balance(
    s: Stmt,
    env: int,
    scopes: Seq<ScopeView>,
    tape: Seq<AnswerV>,
    ti: int,
    output: Seq<Seq<char>>,
    steps: nat,
)
    ensures
        exec_stmt(s, env, scopes, tape, ti, output, steps).scopes.len() == scopes.len(),
    decreases steps,
{
    if steps > 0 {
        let fl = (steps - 1) as nat;
        match s {
            Stmt::Expr(e) => {
                lemma_eval_scope_balance(e, env, scopes, tape, ti);
            },
            Stmt::Print(e) => {
                lemma_eval_scope_balance(e, env, scopes, tape, ti);
            },
            Stmt::Var { name: _, initializer } => {
                if initializer != Expr::Null {
                    lemma_eval_scope_balance(initializer, env, scopes, tape, ti);
                }
            },
            Stmt::If { condition, then_branch, else_branch } => {
                lemma_eval_scope_balance(condition, env, scopes, tape, ti);
                let c = eval_expr(condition, env, scopes, tape, ti);
                match c.out {
                    OutV::Val(v) => {
                        if truthy(v) {
                            lemma_stmt_scope_balance(
                                *then_branch,
                                env,
                                c.scopes,
                                tape,
                                c.ti,
                                output,
                                fl,
                            );
                        } else {
                            if let Some(e) = else_branch {
                                lemma_stmt_scope_balance(*e, env, c.scopes, tape, c.ti, output, fl);
                            }
                        }
                    },
                    _ => {},
                }
            },
            Stmt::While { condition, body } => {
                lemma_eval_scope_balance(condition, env, scopes, tape, ti);
                let c = eval_expr(condition, env, scopes, tape, ti);
                match c.out {
                    OutV::Val(v) => {
                        if truthy(v) {
                            lemma_stmt_scope_balance(*body, env, c.scopes, tape, c.ti, output, fl);
                            let b = exec_stmt(*body, env, c.scopes, tape, c.ti, output, fl);
                            if b.out is Done {
                                lemma_stmt_scope_balance(
                                    Stmt::While { condition, body },
                                    env,
                                    b.scopes,
                                    tape,
                                    b.ti,
                                    b.output,
                                    capped(b.steps, fl),
                                );
                            }
                        }
                    },
                    _ => {},
                }
            },
            Stmt::Block { statements } => {
                let entered = scopes.push(
                    ScopeView {
                        bindings: Map::<Seq<char>, Val>::empty(),
                        parent: Some(env as usize),
                    },
                );
                lemma_stmts_scope_balance(
                    statements@,
                    0,
                    scopes.len() as int,
                    entered,
                    tape,
                    ti,
                    output,
                    fl,
                );
            },
        }
    }
}

pub proof fn lemma_stmts_scope_balance(
    ss: Seq<Stmt>,
    i: int,
    env: int,
    scopes: Seq<ScopeView>,
    tape: Seq<AnswerV>,
    ti: int,
    output: Seq<Seq<char>>,
    steps: nat,
)
    ensures
        exec_stmts(ss, i, env, scopes, tape, ti, output, steps).scopes.len() == scopes.len(),
    decreases steps,
{
    if 0 <= i < ss.len() && steps > 0 {
        let fl = (steps - 1) as nat;
        lemma_stmt_scope_balance(ss[i], env, scopes, tape, ti, output, fl);
        let r = exec_stmt(ss[i], env, scopes, tape, ti, output, fl);
        if r.out is Done {
            lemma_stmts_scope_balance(
                ss,
                i + 1,
                env,
                r.scopes,
                tape,
                r.ti,
                r.output,
                capped(r.steps, fl),
            );
        }
    }
}

/// The spec-level outcome a runtime result denotes.
pub open spec fn stmt_out_of(r: Result<(), Interrupt>) -> StmtOutV {
    match r {
        Ok(_) => StmtOutV::Done,
        Err(Interrupt::Fault(f)) => StmtOutV::Fault(f@),
        Err(Interrupt::Need(q)) => StmtOutV::Need(q@),
        Err(Interrupt::Exhausted) => StmtOutV::Exhausted,
    }
}

pub open spec fn expr_outcome_matches(r: Result<Object, Interrupt>, out: OutV) -> bool {
    match r {
        Ok(o) => out == OutV::Val(o@),
        Err(Interrupt::Fault(f)) => out == OutV::Fault(f@),
        Err(Interrupt::Need(q)) => out == OutV::Need(q@),
        Err(Interrupt::Exhausted) => false,
    }
}

impl Expr {
    /// Evaluates this expression with the given evaluator.
    pub fn accept(&self, visitor: &mut InterpreterVisitor) -> (r: Result<Object, Interrupt>)
        requires
            old(visitor).wf(),
            wf_expr(*self),
        ensures
            final(visitor).wf(),
            final(visitor).env_id() == old(visitor).env_id(),
            final(visitor).tape_v() == old(visitor).tape_v(),
            final(visitor).out_v() == old(visitor).out_v(),
            final(visitor).steps_v() == old(visitor).steps_v(),
            final(visitor).scopes().len() == old(visitor).scopes().len(),
            ({
                let r0 = eval_expr(
                    *self,
                    old(visitor).env_id(),
                    old(visitor).scopes(),
                    old(visitor).tape_v(),
                    old(visitor).ti_v(),
                );
                &&& final(visitor).scopes() =~~= r0.scopes
                &&& final(visitor).ti_v() == r0.ti
                &&& expr_outcome_matches(r, r0.out)
            }),
    {
        visitor.evaluate(self)
    }
}

// Evaluation order is strictly left to right: a binary node first evaluates
// its left operand, and whatever bindings and tape position the left operand
// leaves behind are exactly what the right operand starts from; a fault in
// the left operand pre-empts the right operand entirely.
pub proof fn lemma_binary_left_to_right(
    left: Expr,
    operator: Token,
    right: Expr,
    env: int,
    scopes: Seq<ScopeView>,
    tape: Seq<AnswerV>,
    ti: int,
)
    ensures
        ({
            let l = eval_expr(left, env, scopes, tape, ti);
            let whole = eval_expr(
                Expr::Binary { left: Box::new(left), operator, right: Box::new(right) },
                env,
                scopes,
                tape,
                ti,
            );
            match l.out {
                OutV::Val(lv) => ({
                    let r = eval_expr(right, env, l.scopes, tape, l.ti);
                    match r.out {
                        OutV::Val(rv) => whole == (ExprRes {
                            out: binary_result(operator.token_type, lv, rv, tape, r.ti).0,
                            scopes: r.scopes,
                            ti: binary_result(operator.token_type, lv, rv, tape, r.ti).1,
                        }),
                        _ => whole == r,
                    }
                }),
                _ => whole == l,
            }
        }),
{
}

// Short-circuit: in `A or B`, a truthy `A` decides the whole expression.
// The result is `A`'s value and `A`'s state, whatever expression stands on
// the right: `B` contributes nothing, so it was not evaluated.
pub proof fn lemma_or_short_circuit(
    left: Expr,
    operator: Token,
    right: Expr,
    env: int,
    scopes: Seq<ScopeView>,
    tape: Seq<AnswerV>,
    ti: int,
)
    requires
        operator.token_type == TokenType::Or,
        ({
            let l = eval_expr(left, env, scopes, tape, ti);
            l.out matches OutV::Val(v) && truthy(v)
        }),
    ensures
        eval_expr(
            Expr::Logical { left: Box::new(left), operator, right: Box::new(right) },
            env,
            scopes,
            tape,
            ti,
        ) == eval_expr(left, env, scopes, tape, ti),
{
}

// Symmetrically, in `A and B` a falsy `A` decides the whole expression and
// `B` is not evaluated.
pub proof fn lemma_and_short_circuit(
    left: Expr,
    operator: Token,
    right: Expr,
    env: int,
    scopes: Seq<ScopeView>,
    tape: Seq<AnswerV>,
    ti: int,
)
    requires
        operator.token_type == TokenType::And,
        ({
            let l = eval_expr(left, env, scopes, tape, ti);
            l.out matches OutV::Val(v) && !truthy(v)
        }),
    ensures
        eval_expr(
            Expr::Logical { left: Box::new(left), operator, right: Box::new(right) },
            env,
            scopes,
            tape,
            ti,
        ) == eval_expr(left, env, scopes, tape, ti),
{
}

/// The tree-walking evaluator: a scope chain, the id of the scope it is
/// executing in, the answer tape and step budget its host supplied, and
/// everything the program has printed.
#[derive(Debug)]
pub struct InterpreterVisitor {
    cactus: Cactus,
    curr_env: usize,
    answers: Vec<NumAnswer>,
    next_answer: usize,
    output: Vec<String>,
    steps: u64,
}

impl InterpreterVisitor {
    pub closed spec fn scopes(&self) -> Seq<ScopeView> {
        self.cactus@
    }

    pub closed spec fn env_id(&self) -> int {
        self.curr_env as int
    }

    pub closed spec fn tape_v(&self) -> Seq<AnswerV> {
        self.answers@.map(|i: int, a: NumAnswer| a@)
    }

    pub closed spec fn ti_v(&self) -> int {
        self.next_answer as int
    }

    pub closed spec fn out_v(&self) -> Seq<Seq<char>> {
        self.output@.map(|i: int, s: String| s@)
    }

    pub closed spec fn steps_v(&self) -> nat {
        self.steps as nat
    }

    pub closed spec fn wf(&self) -> bool {
        &&& self.cactus.wf()
        &&& 0 <= self.env_id() < self.scopes().len()
    }

    pub fn new() -> (iv: InterpreterVisitor)
        ensures
            iv.wf(),
            iv.scopes().len() == 1,
            iv.scopes()[0].bindings =~= Map::<Seq<char>, Val>::empty(),
            iv.scopes()[0].parent is None,
            iv.env_id() == 0,
            iv.tape_v() =~= Seq::<AnswerV>::empty(),
            iv.ti_v() == 0,
            iv.out_v() =~= Seq::<Seq<char>>::empty(),
            iv.steps_v() == u64::MAX as nat,
    {
        let iv = InterpreterVisitor {
            cactus: Cactus::new(),
            curr_env: 0,
            answers: Vec::new(),
            next_answer: 0,
            output: Vec::new(),
            steps: u64::MAX,
        };
        proof {
            assert(iv.tape_v() =~= Seq::<AnswerV>::empty());
            assert(iv.out_v() =~= Seq::<Seq<char>>::empty());
        }
        iv
    }

    /// Hands the evaluator the host's answers, oldest first. Execution is a
    /// function of program, tape and budget, so a run that stopped for a
    /// missing answer is simply started over with one more answer on the
    /// tape.
    pub fn set_answers(&mut self, answers: Vec<NumAnswer>)
        ensures
            final(self).tape_v() == answers@.map(|i: int, a: NumAnswer| a@),
            final(self).ti_v() == old(self).ti_v(),
            final(self).scopes() == old(self).scopes(),
            final(self).env_id() == old(self).env_id(),
            final(self).out_v() == old(self).out_v(),
            final(self).steps_v() == old(self).steps_v(),
            old(self).wf() ==> final(self).wf(),
    {
        self.answers = answers;
    }

    /// Bounds how many statement entries and loop iterations a run may
    /// spend before it reports its budget exhausted.
    pub fn set_budget(&mut self, budget: u64)
        ensures
            final(self).steps_v() == budget as nat,
            final(self).tape_v() == old(self).tape_v(),
            final(self).ti_v() == old(self).ti_v(),
            final(self).scopes() == old(self).scopes(),
            final(self).env_id() == old(self).env_id(),
            final(self).out_v() == old(self).out_v(),
            old(self).wf() ==> final(self).wf(),
    {
        self.steps = budget;
    }

    /// Gives up everything printed so far and clears the buffer.
    pub fn take_output(&mut self) -> (out: Vec<String>)
        ensures
            final(self).out_v() =~= Seq::<Seq<char>>::empty(),
            out@.len() == old(self).out_v().len(),
            forall|i: int| 0 <= i < out@.len() ==> out@[i]@ == old(self).out_v()[i],
            final(self).scopes() == old(self).scopes(),
            final(self).env_id() == old(self).env_id(),
            final(self).tape_v() == old(self).tape_v(),
            final(self).ti_v() == old(self).ti_v(),
            final(self).steps_v() == old(self).steps_v(),
            old(self).wf() ==> final(self).wf(),
    {
        let mut out: Vec<String> = Vec::new();
        core::mem::swap(&mut out, &mut self.output);
        proof {
            assert(final(self).out_v() =~= Seq::<Seq<char>>::empty());
        }
        out
    }

    fn next_bits(&mut self, q: NumQuery) -> (r: Result<u32, Interrupt>)
        ensures
            final(self).scopes() == old(self).scopes(),
            final(self).env_id() == old(self).env_id(),
            final(self).tape_v() == old(self).tape_v(),
            final(self).out_v() == old(self).out_v(),
            final(self).steps_v() == old(self).steps_v(),
            old(self).wf() ==> final(self).wf(),
            match r {
                Ok(b) => answer_at(old(self).tape_v(), old(self).ti_v()) == Some(AnswerV::Bits(b))
                    && final(self).ti_v() == old(self).ti_v() + 1,
                Err(e) => {
                    &&& e == Interrupt::Need(q)
                    &&& match answer_at(old(self).tape_v(), old(self).ti_v()) {
                        Some(a) => !(a is Bits),
                        None => true,
                    }
                    &&& final(self).ti_v() == old(self).ti_v()
                },
            },
    {
        if self.next_answer < self.answers.len() {
            proof {
                assert(self.tape_v()[self.next_answer as int] == self.answers@[self.next_answer as int]@);
            }
            match &self.answers[self.next_answer] {
                NumAnswer::Bits(b) => {
                    let bv = *b;
                    self.next_answer = self.next_answer + 1;
                    return Ok(bv);
                },
                _ => {},
            }
        }
        Err(Interrupt::Need(q))
    }

    fn next_text(&mut self, q: NumQuery) -> (r: Result<String, Interrupt>)
        ensures
            final(self).scopes() == old(self).scopes(),
            final(self).env_id() == old(self).env_id(),
            final(self).tape_v() == old(self).tape_v(),
            final(self).out_v() == old(self).out_v(),
            final(self).steps_v() == old(self).steps_v(),
            old(self).wf() ==> final(self).wf(),
            match r {
                Ok(s) => answer_at(old(self).tape_v(), old(self).ti_v()) == Some(
                    AnswerV::Text(s@),
                ) && final(self).ti_v() == old(self).ti_v() + 1,
                Err(e) => {
                    &&& e == Interrupt::Need(q)
                    &&& match answer_at(old(self).tape_v(), old(self).ti_v()) {
                        Some(a) => !(a is Text),
                        None => true,
                    }
                    &&& final(self).ti_v() == old(self).ti_v()
                },
            },
    {
        if self.next_answer < self.answers.len() {
            proof {
                assert(self.tape_v()[self.next_answer as int] == self.answers@[self.next_answer as int]@);
            }
            match &self.answers[self.next_answer] {
                NumAnswer::Text(s) => {
                    let sv = s.clone();
                    self.next_answer = self.next_answer + 1;
                    return Ok(sv);
                },
                _ => {},
            }
        }
        Err(Interrupt::Need(q))
    }

    fn is_truthy(ob: &Object) -> (r: bool)
        ensures
            r == truthy(ob@),
    {
        match ob {
            Object::Boolean(b) => *b,
            Object::Nil => false,
            _ => true,
        }
    }

    fn object_equals(a: &Object, b: &Object) -> (r: bool)
        ensures
            r == val_eq(a@, b@),
    {
        match (a, b) {
            (Object::String(x), Object::String(y)) => *x == *y,
            (Object::Number(x), Object::Number(y)) => eq_bits(*x, *y),
            (Object::Boolean(x), Object::Boolean(y)) => x == y,
            (Object::Nil, Object::Nil) => true,
            _ => false,
        }
    }

    /// The decimal rendering used by `print` and by concatenation; numbers
    /// go through the tape.
    fn stringify(&mut self, o: Object) -> (r: Result<String, Interrupt>)
        ensures
            final(self).scopes() == old(self).scopes(),
            final(self).env_id() == old(self).env_id(),
            final(self).tape_v() == old(self).tape_v(),
            final(self).out_v() == old(self).out_v(),
            final(self).steps_v() == old(self).steps_v(),
            old(self).wf() ==> final(self).wf(),
            match stringify_v(o@, old(self).tape_v(), old(self).ti_v()) {
                StrRes::Done(text, t2) => (r matches Ok(s) && s@ == text) && final(self).ti_v()
                    == t2,
                StrRes::Need(qv) => (r matches Err(e) && e == Interrupt::Need(
                    NumQuery::ToDecimal(qv->ToDec_0),
                )) && final(self).ti_v() == old(self).ti_v(),
            },
    {
        match o {
            Object::String(s) => Ok(s),
            Object::Boolean(b) => Ok(
                if b {
                    "true".to_owned()
                } else {
                    "false".to_owned()
                },
            ),
            Object::Nil => Ok("null".to_owned()),
            Object::Number(bits) => self.next_text(NumQuery::ToDecimal(bits)),
        }
    }

    /// The binary operator table, applied to evaluated operands.
    fn binary_op(&mut self, op: TokenType, l: Object, r: Object) -> (res: Result<Object, Interrupt>)
        requires
            old(self).wf(),
            is_binary_op(op),
        ensures
            final(self).wf(),
            final(self).scopes() == old(self).scopes(),
            final(self).env_id() == old(self).env_id(),
            final(self).tape_v() == old(self).tape_v(),
            final(self).out_v() == old(self).out_v(),
            final(self).steps_v() == old(self).steps_v(),
            ({
                let o = binary_result(op, l@, r@, old(self).tape_v(), old(self).ti_v());
                expr_outcome_matches(res, o.0) && final(self).ti_v() == o.1
            }),
    {
        match op {
            TokenType::Minus | TokenType::Star | TokenType::Slash => match (l, r) {
                (Object::Number(a), Object::Number(b)) => {
                    if op == TokenType::Slash && is_zero(b) {
                        Err(
                            Interrupt::Fault(
                                Fault::Interp(
                                    InterpreterError { kind: ErrorKind::DivideByZero(a) },
                                ),
                            ),
                        )
                    } else {
                        let nop = if op == TokenType::Minus {
                            NumOp::Sub
                        } else if op == TokenType::Star {
                            NumOp::Mul
                        } else {
                            NumOp::Div
                        };
                        match self.next_bits(NumQuery::Arith(nop, a, b)) {
                            Ok(c) => Ok(Object::Number(c)),
                            Err(e) => Err(e),
                        }
                    }
                },
                (x, y) => Err(
                    Interrupt::Fault(
                        Fault::Interp(InterpreterError { kind: ErrorKind::FailedCast(x, y) }),
                    ),
                ),
            },
            TokenType::Plus => match (l, r) {
                (Object::Number(a), Object::Number(b)) => match self.next_bits(
                    NumQuery::Arith(NumOp::Add, a, b),
                ) {
                    Ok(c) => Ok(Object::Number(c)),
                    Err(e) => Err(e),
                },
                (Object::Number(a), Object::String(s)) => match self.next_text(
                    NumQuery::ToDecimal(a),
                ) {
                    Ok(ls) => Ok(Object::String(ls.concat(s.as_str()))),
                    Err(e) => Err(e),
                },
                (Object::Number(a), y) => Err(
                    Interrupt::Fault(
                        Fault::Interp(
                            InterpreterError {
                                kind: ErrorKind::FailedCast(Object::Number(a), y),
                            },
                        ),
                    ),
                ),
                (Object::String(s), y) => match self.stringify(y) {
                    Ok(rs) => Ok(Object::String(s.concat(rs.as_str()))),
                    Err(e) => Err(e),
                },
                (x, y) => Err(
                    Interrupt::Fault(
                        Fault::Interp(InterpreterError { kind: ErrorKind::FailedCast(x, y) }),
                    ),
                ),
            },
            TokenType::Greater | TokenType::GreaterEqual | TokenType::Less
                | TokenType::LessEqual => match (l, r) {
                (Object::Number(a), Object::Number(b)) => {
                    let c = if op == TokenType::Greater {
                        lt_bits(b, a)
                    } else if op == TokenType::GreaterEqual {
                        le_bits(b, a)
                    } else if op == TokenType::Less {
                        lt_bits(a, b)
                    } else {
                        le_bits(a, b)
                    };
                    Ok(Object::Boolean(c))
                },
                (x, y) => Err(
                    Interrupt::Fault(
                        Fault::Interp(InterpreterError { kind: ErrorKind::FailedCast(x, y) }),
                    ),
                ),
            },
            TokenType::BangEqual => Ok(Object::Boolean(!Self::object_equals(&l, &r))),
            TokenType::EqualEqual => Ok(Object::Boolean(Self::object_equals(&l, &r))),
            _ => vstd::pervasive::unreached(),
        }
    }

    /// Evaluates one expression against the current scope. The result is
    /// exactly what `eval_expr` says of it.
    pub fn evaluate(&mut self, expr: &Expr) -> (r: Result<Object, Interrupt>)
        requires
            old(self).wf(),
            wf_expr(*expr),
        ensures
            final(self).wf(),
            final(self).env_id() == old(self).env_id(),
            final(self).tape_v() == old(self).tape_v(),
            final(self).out_v() == old(self).out_v(),
            final(self).steps_v() == old(self).steps_v(),
            final(self).scopes().len() == old(self).scopes().len(),
            ({
                let r0 = eval_expr(
                    *expr,
                    old(self).env_id(),
                    old(self).scopes(),
                    old(self).tape_v(),
                    old(self).ti_v(),
                );
                &&& final(self).scopes() =~~= r0.scopes
                &&& final(self).ti_v() == r0.ti
                &&& expr_outcome_matches(r, r0.out)
            }),
        decreases *expr,
    {
        match expr {
            Expr::Literal(lit) => match lit {
                Literal::Boolean(b) => Ok(Object::Boolean(*b)),
                Literal::Nil => Ok(Object::Nil),
                Literal::String(s) => Ok(Object::String(s.clone())),
                Literal::Number(text) => match self.next_bits(NumQuery::FromDecimal(text.clone())) {
                    Ok(b) => Ok(Object::Number(b)),
                    Err(e) => Err(e),
                },
            },
            Expr::Grouping { expression } => self.evaluate(expression),
            Expr::Unary { operator, right } => match self.evaluate(right) {
                Ok(v) => {
                    if operator.token_type == TokenType::Bang {
                        Ok(Object::Boolean(!Self::is_truthy(&v)))
                    } else {
                        match v {
                            Object::Number(b) => Ok(Object::Number(negate(b))),
                            other => Err(
                                Interrupt::Fault(
                                    Fault::Interp(
                                        InterpreterError {
                                            kind: ErrorKind::FailedCast(other, Object::Nil),
                                        },
                                    ),
                                ),
                            ),
                        }
                    }
                },
                Err(e) => Err(e),
            },
            Expr::Binary { left, operator, right } => match self.evaluate(left) {
                Ok(lv) => match self.evaluate(right) {
                    Ok(rv) => self.binary_op(operator.token_type, lv, rv),
                    Err(e) => Err(e),
                },
                Err(e) => Err(e),
            },
            Expr::Logical { left, operator, right } => match self.evaluate(left) {
                Ok(lv) => {
                    let short = if operator.token_type == TokenType::Or {
                        Self::is_truthy(&lv)
                    } else {
                        !Self::is_truthy(&lv)
                    };
                    if short {
                        Ok(lv)
                    } else {
                        self.evaluate(right)
                    }
                },
                Err(e) => Err(e),
            },
            Expr::Variable { name } => match self.cactus.get(name, self.curr_env) {
                Ok(o) => Ok(o.duplicate()),
                Err(e) => Err(Interrupt::Fault(Fault::Env(e))),
            },
            Expr::Assign { name, value } => match self.evaluate(value) {
                Ok(v) => {
                    let dup = v.duplicate();
                    match self.cactus.assign(name, dup, self.curr_env) {
                        Ok(_) => Ok(v),
                        Err(e) => Err(Interrupt::Fault(Fault::Env(e))),
                    }
                },
                Err(e) => Err(e),
            },
            Expr::Null => vstd::pervasive::unreached(),
        }
    }

    /// Executes one statement: exactly what `exec_stmt` says of it. On
    /// every path, the error paths included, the number of scopes and the
    /// executing scope are restored (scope balance).
    #[verifier::loop_isolation(false)]
    pub fn execute(&mut self, stmt: &Stmt) -> (r: Result<(), Interrupt>)
        requires
            old(self).wf(),
            wf_stmt(*stmt),
        ensures
            final(self).wf(),
            final(self).env_id() == old(self).env_id(),
            final(self).tape_v() == old(self).tape_v(),
            final(self).scopes().len() == old(self).scopes().len(),
            ({
                let rr = exec_stmt(
                    *stmt,
                    old(self).env_id(),
                    old(self).scopes(),
                    old(self).tape_v(),
                    old(self).ti_v(),
                    old(self).out_v(),
                    old(self).steps_v(),
                );
                &&& final(self).scopes() =~~= rr.scopes
                &&& final(self).ti_v() == rr.ti
                &&& final(self).out_v() == rr.output
                &&& final(self).steps_v() == rr.steps
                &&& stmt_out_of(r) == rr.out
            }),
        decreases *stmt, 0int,
    {
        let ghost env0 = old(self).env_id();
        let ghost sc0 = old(self).scopes();
        let ghost tape0 = old(self).tape_v();
        let ghost ti0 = old(self).ti_v();
        let ghost out0 = old(self).out_v();
        let ghost steps0 = old(self).steps_v();
        if self.steps == 0 {
            return Err(Interrupt::Exhausted);
        }
        self.steps = self.steps - 1;
        match stmt {
            Stmt::Expr(e) => {
                match self.evaluate(e) {
                    Ok(_) => Ok(()),
                    Err(e2) => Err(e2),
                }
            },
            Stmt::Print(e) => {
                match self.evaluate(e) {
                    Ok(v) => {
                        let nil = match v {
                            Object::Nil => true,
                            _ => false,
                        };
                        if nil {
                            Err(
                                Interrupt::Fault(
                                    Fault::Interp(
                                        InterpreterError {
                                            kind: ErrorKind::UninitializedVariable,
                                        },
                                    ),
                                ),
                            )
                        } else {
                            match self.stringify(v) {
                                Ok(text) => {
                                    let ghost out_mid = self.out_v();
                                    let ghost text_v = text@;
                                    self.output.push(text);
                                    proof {
                                        assert forall|j: int|
                                            0 <= j < self.out_v().len() implies self.out_v()[j]
                                            == out_mid.push(text_v)[j] by {}
                                        assert(self.out_v() =~= out_mid.push(text_v));
                                    }
                                    Ok(())
                                },
                                Err(e2) => Err(e2),
                            }
                        }
                    },
                    Err(e2) => Err(e2),
                }
            },
            Stmt::Var { name, initializer } => {
                let evaluated = match initializer {
                    Expr::Null => Ok(Object::Nil),
                    init => self.evaluate(init),
                };
                match evaluated {
                    Ok(v) => {
                        self.cactus.define(name.lexeme.as_str(), v, self.curr_env);
                        Ok(())
                    },
                    Err(e2) => Err(e2),
                }
            },
            Stmt::If { condition, then_branch, else_branch } => {
                match self.evaluate(condition) {
                    Ok(v) => {
                        if Self::is_truthy(&v) {
                            self.execute(then_branch)
                        } else {
                            match else_branch {
                                Some(els) => self.execute(els),
                                None => Ok(()),
                            }
                        }
                    },
                    Err(e2) => Err(e2),
                }
            },
            Stmt::While { condition, body } => {
                let ghost w = *stmt;
                loop
                    invariant
                        self.wf(),
                        self.env_id() == env0,
                        self.tape_v() == tape0,
                        self.scopes().len() == sc0.len(),
                        exec_stmt(w, env0, sc0, tape0, ti0, out0, steps0) == exec_stmt(
                            w,
                            env0,
                            self.scopes(),
                            tape0,
                            self.ti_v(),
                            self.out_v(),
                            (self.steps_v() + 1) as nat,
                        ),
                        self.steps_v() < steps0,
                    decreases self.steps_v(),
                {
                    let ghost out_top = self.out_v();
                    let ghost st_top = self.steps_v();
                    match self.evaluate(condition) {
                        Ok(v) => {
                            if !Self::is_truthy(&v) {
                                return Ok(());
                            }
                            let ghost sc_cond = self.scopes();
                            let ghost ti_cond = self.ti_v();
                            match self.execute(body) {
                                Ok(_) => {
                                    proof {
                                        lemma_stmt_spends(
                                            **body,
                                            env0,
                                            sc_cond,
                                            tape0,
                                            ti_cond,
                                            out_top,
                                            st_top,
                                        );
                                    }
                                    if self.steps == 0 {
                                        proof {
                                            assert(exec_stmt(
                                                w,
                                                env0,
                                                self.scopes(),
                                                tape0,
                                                self.ti_v(),
                                                self.out_v(),
                                                0nat,
                                            ) == (StmtRes {
                                                out: StmtOutV::Exhausted,
                                                scopes: self.scopes(),
                                                ti: self.ti_v(),
                                                output: self.out_v(),
                                                steps: 0,
                                            }));
                                        }
                                        return Err(Interrupt::Exhausted);
                                    }
                                    self.steps = self.steps - 1;
                                },
                                Err(e2) => {
                                    return Err(e2);
                                },
                            }
                        },
                        Err(e2) => {
                            return Err(e2);
                        },
                    }
                }
            },
            Stmt::Block { statements } => {
                let previous = self.curr_env;
                let new_env = self.cactus.push_child(previous);
                self.curr_env = new_env;
                proof {
                    assert(decreases_to!(*stmt => statements@));
                }
                let r2 = self.execute_stmts(statements, 0);
                self.cactus.pop();
                self.curr_env = previous;
                r2
            },
        }
    }

    /// Dispatches one statement; `execute` is its public face.
    pub fn accept(&mut self, stmt: &Stmt) -> (r: Result<(), Interrupt>)
        requires
            old(self).wf(),
            wf_stmt(*stmt),
        ensures
            final(self).wf(),
            final(self).env_id() == old(self).env_id(),
            final(self).tape_v() == old(self).tape_v(),
            final(self).scopes().len() == old(self).scopes().len(),
            ({
                let rr = exec_stmt(
                    *stmt,
                    old(self).env_id(),
                    old(self).scopes(),
                    old(self).tape_v(),
                    old(self).ti_v(),
                    old(self).out_v(),
                    old(self).steps_v(),
                );
                &&& final(self).scopes() =~~= rr.scopes
                &&& final(self).ti_v() == rr.ti
                &&& final(self).out_v() == rr.output
                &&& final(self).steps_v() == rr.steps
                &&& stmt_out_of(r) == rr.out
            }),
    {
        self.execute(stmt)
    }

    /// Executes `stmts[i..]` in order, stopping at the first interrupt.
    fn execute_stmts(&mut self, stmts: &Vec<Stmt>, i: usize) -> (r: Result<(), Interrupt>)
        requires
            old(self).wf(),
            i <= stmts@.len(),
            forall|j: int| 0 <= j < stmts@.len() ==> wf_stmt(#[trigger] stmts@[j]),
        ensures
            final(self).wf(),
            final(self).env_id() == old(self).env_id(),
            final(self).tape_v() == old(self).tape_v(),
            final(self).scopes().len() == old(self).scopes().len(),
            ({
                let rr = exec_stmts(
                    stmts@,
                    i as int,
                    old(self).env_id(),
                    old(self).scopes(),
                    old(self).tape_v(),
                    old(self).ti_v(),
                    old(self).out_v(),
                    old(self).steps_v(),
                );
                &&& final(self).scopes() =~~= rr.scopes
                &&& final(self).ti_v() == rr.ti
                &&& final(self).out_v() == rr.output
                &&& final(self).steps_v() == rr.steps
                &&& stmt_out_of(r) == rr.out
            }),
        decreases stmts@, stmts@.len() - i,
    {
        let ghost env0 = old(self).env_id();
        let ghost sc0 = old(self).scopes();
        let ghost tape0 = old(self).tape_v();
        let ghost ti0 = old(self).ti_v();
        let ghost out0 = old(self).out_v();
        let ghost steps0 = old(self).steps_v();
        if i == stmts.len() {
            return Ok(());
        }
        if self.steps == 0 {
            return Err(Interrupt::Exhausted);
        }
        self.steps = self.steps - 1;
        proof {
            assert(decreases_to!(stmts@ => stmts@[i as int]));
        }
        let r1 = self.execute(&stmts[i]);
        match r1 {
            Ok(_) => {
                proof {
                    lemma_stmt_spends(
                        stmts@[i as int],
                        env0,
                        sc0,
                        tape0,
                        ti0,
                        out0,
                        (steps0 - 1) as nat,
                    );
                }
                self.execute_stmts(stmts, i + 1)
            },
            Err(e2) => Err(e2),
        }
    }

    /// Runs a program. Scope balance holds on every outcome: the number of
    /// scopes and the executing scope end as they began (for a fresh
    /// evaluator, the root scope alone).
    pub fn interpret(&mut self, stmts: Vec<Stmt>) -> (r: Result<(), Interrupt>)
        requires
            old(self).wf(),
            forall|j: int| 0 <= j < stmts@.len() ==> wf_stmt(#[trigger] stmts@[j]),
        ensures
            final(self).wf(),
            final(self).env_id() == old(self).env_id(),
            final(self).tape_v() == old(self).tape_v(),
            final(self).scopes().len() == old(self).scopes().len(),
            ({
                let rr = exec_stmts(
                    stmts@,
                    0,
                    old(self).env_id(),
                    old(self).scopes(),
                    old(self).tape_v(),
                    old(self).ti_v(),
                    old(self).out_v(),
                    old(self).steps_v(),
                );
                &&& final(self).scopes() =~~= rr.scopes
                &&& final(self).ti_v() == rr.ti
                &&& final(self).out_v() == rr.output
                &&& final(self).steps_v() == rr.steps
                &&& stmt_out_of(r) == rr.out
            }),
    {
        self.execute_stmts(&stmts, 0)
    }
}

} // verus!
