use vstd::prelude::*;

pub mod token;
pub mod ast;
pub mod error;
pub mod scanner;
pub mod parser;
pub mod num;
pub mod environment;
pub mod interpreter;
pub mod printer;
pub mod rpn;

use crate::ast::Stmt;
use crate::interpreter::{exec_stmts, Interrupt, InterpreterVisitor, StmtOutV};
use crate::parser::{p_program, stmts_match, terminated, ParseError, Parser};
use crate::scanner::{lemma_scan_terminated, scan_from, Scanner};
use crate::token::{token_views, Token, TokenV};

verus! {

/// Any way a run can stop early: a lexical error, a parse error, or a
/// runtime interrupt (a fault, a numeric query for the host, or an
/// exhausted step budget).
#[derive(Clone, PartialEq, Debug)]
pub enum RunError {
    Lex(crate::error::Error),
    Parse(ParseError),
    Runtime(Interrupt),
}

/// The whole pipeline: scan, parse, execute. The scan and the parse are
/// exactly `scan_from` and `p_program` of the source; execution is exactly
/// `exec_stmts` of the parsed statements against the evaluator's state.
/// Scope balance holds on every outcome: the evaluator keeps as many scopes,
/// and the same executing scope, as it began with.
pub fn run(src: String, interpreter: &mut InterpreterVisitor) -> (r: Result<(), RunError>)
    requires
        old(interpreter).wf(),
    ensures
        final(interpreter).wf(),
        final(interpreter).env_id() == old(interpreter).env_id(),
        final(interpreter).scopes().len() == old(interpreter).scopes().len(),
        match r {
            Err(RunError::Lex(e)) => scan_from(src@, 0, 1) == Err::<
                Seq<TokenV>,
                crate::error::Error,
            >(e),
            _ => scan_from(src@, 0, 1) is Ok,
        },
        (r matches Err(RunError::Lex(_)) || r matches Err(RunError::Parse(_)))
            ==> *final(interpreter) == *old(interpreter),
        (scan_from(src@, 0, 1) matches Ok(tvs) ==> exists|toks: Seq<Token>|
            {
                &&& #[trigger] token_views(toks) == tvs
                &&& terminated(toks)
                &&& ({
                    let pr = p_program(toks, 0);
                    match pr.err {
                        Some(pe) => r == Err::<(), RunError>(RunError::Parse(pe)),
                        None => exists|stmts: Seq<Stmt>|
                            {
                                &&& #[trigger] stmts_match(stmts, pr.stmts)
                                &&& ({
                                    let rr = exec_stmts(
                                        stmts,
                                        0,
                                        old(interpreter).env_id(),
                                        old(interpreter).scopes(),
                                        old(interpreter).tape_v(),
                                        old(interpreter).ti_v(),
                                        old(interpreter).out_v(),
                                        old(interpreter).steps_v(),
                                    );
                                    &&& final(interpreter).scopes() =~~= rr.scopes
                                    &&& final(interpreter).ti_v() == rr.ti
                                    &&& final(interpreter).out_v() == rr.output
                                    &&& rr.out == match r {
                                        Ok(_) => StmtOutV::Done,
                                        Err(
                                            RunError::Runtime(Interrupt::Fault(f)),
                                        ) => StmtOutV::Fault(f@),
                                        Err(
                                            RunError::Runtime(Interrupt::Need(q)),
                                        ) => StmtOutV::Need(q@),
                                        Err(
                                            RunError::Runtime(Interrupt::Exhausted),
                                        ) => StmtOutV::Exhausted,
                                        _ => StmtOutV::Done,
                                    }
                                })
                            },
                    }
                })
            }),
{
    let ghost src_v = src@;
    let mut scanner = Scanner::new(src);
    match scanner.scan_tokens() {
        Err(e) => {
            return Err(RunError::Lex(e));
        },
        Ok(_) => {},
    }
    let tokens = scanner.into_tokens();
    let ghost toks_g = tokens@;
    proof {
        lemma_scan_terminated(src_v, 0, 1);
        let n = toks_g.len() as int;
        assert(token_views(toks_g)[n - 1] == toks_g[n - 1]@);
    }
    let mut parser = Parser::new(tokens);
    let statements = match parser.parse() {
        Ok(s) => s,
        Err(e) => {
            proof {
                assert(token_views(toks_g) == scan_from(src_v, 0, 1)->Ok_0);
            }
            return Err(RunError::Parse(e));
        },
    };
    let ghost stmts_g = statements@;
    let res: Result<(), RunError> = match interpreter.interpret(statements) {
        Ok(_) => Ok(()),
        Err(i) => Err(RunError::Runtime(i)),
    };
    proof {
        assert(token_views(toks_g) == scan_from(src_v, 0, 1)->Ok_0);
        assert(stmts_match(stmts_g, p_program(toks_g, 0).stmts));
    }
    res
}

} // verus!
