use vstd::prelude::*;

use crate::ast::Expr;
use crate::printer::{printable, render_lit};
use crate::token::{Literal, Token, TokenType};

verus! {

// A reverse Polish rendering of expression trees by the shunting-yard
// discipline: operands go straight to the output, operators wait on a stack
// until one of no lower priority arrives, and parentheses fence the stack.

/// Operator priority: parentheses highest, then `* /`, then `+ -`; anything
/// else is no operator.
pub open spec fn spec_prio(t: TokenType) -> int {
    if t == TokenType::Star || t == TokenType::Slash {
        2
    } else if t == TokenType::Plus || t == TokenType::Minus {
        1
    } else if t == TokenType::RightParen {
        3
    } else if t == TokenType::LeftParen {
        4
    } else {
        -1
    }
}

/// The stack as a contract sees it: each entry's tag and lexeme.
pub open spec fn stack_entry(t: Token) -> (TokenType, Seq<char>) {
    (t.token_type, t.lexeme@)
}

/// Popping for a closing parenthesis: everything down to the matching
/// opening parenthesis moves to the output; the parenthesis itself is
/// dropped.
pub open spec fn pop_to_lparen(
    stack: Seq<(TokenType, Seq<char>)>,
    out: Seq<Seq<char>>,
) -> (Seq<(TokenType, Seq<char>)>, Seq<Seq<char>>)
    decreases stack.len(),
{
    if stack.len() == 0 {
        (stack, out)
    } else if stack.last().0 == TokenType::LeftParen {
        (stack.drop_last(), out)
    } else {
        pop_to_lparen(stack.drop_last(), out.push(stack.last().1))
    }
}

/// Popping for an ordinary operator: operators of no lower priority move to
/// the output; an opening parenthesis stops the popping.
pub open spec fn pop_ge(
    stack: Seq<(TokenType, Seq<char>)>,
    out: Seq<Seq<char>>,
    p: int,
) -> (Seq<(TokenType, Seq<char>)>, Seq<Seq<char>>)
    decreases stack.len(),
{
    if stack.len() == 0 {
        (stack, out)
    } else if stack.last().0 != TokenType::LeftParen && p <= spec_prio(stack.last().0) {
        pop_ge(stack.drop_last(), out.push(stack.last().1), p)
    } else {
        (stack, out)
    }
}

/// What pushing one operator does to stack and output.
pub open spec fn spec_push_op(
    stack: Seq<(TokenType, Seq<char>)>,
    out: Seq<Seq<char>>,
    t: (TokenType, Seq<char>),
) -> (Seq<(TokenType, Seq<char>)>, Seq<Seq<char>>) {
    if spec_prio(t.0) == 3 {
        pop_to_lparen(stack, out)
    } else {
        let r = pop_ge(stack, out, spec_prio(t.0));
        (r.0.push(t), r.1)
    }
}

/// Walking one tree: operands out, operators through the stack, groupings
/// fenced by parenthesis entries.
pub open spec fn spec_visit(
    e: Expr,
    stack: Seq<(TokenType, Seq<char>)>,
    out: Seq<Seq<char>>,
) -> (Seq<(TokenType, Seq<char>)>, Seq<Seq<char>>)
    decreases e,
{
    match e {
        Expr::Literal(lit) => (stack, out.push(render_lit(lit))),
        Expr::Binary { left, operator, right } => {
            let a = spec_visit(*left, stack, out);
            let b = spec_push_op(a.0, a.1, (operator.token_type, operator.lexeme@));
            spec_visit(*right, b.0, b.1)
        },
        Expr::Unary { operator, right } => {
            let a = spec_push_op(stack, out, (operator.token_type, operator.lexeme@));
            spec_visit(*right, a.0, a.1)
        },
        Expr::Grouping { expression } => {
            let a = spec_push_op(stack, out, (TokenType::LeftParen, "("@));
            let b = spec_visit(*expression, a.0, a.1);
            spec_push_op(b.0, b.1, (TokenType::RightParen, ")"@))
        },
        _ => (stack, out),
    }
}

/// Draining what is left on the stack, top first.
pub open spec fn drained(stack: Seq<(TokenType, Seq<char>)>, out: Seq<Seq<char>>) -> Seq<
    Seq<char>,
>
    decreases stack.len(),
{
    if stack.len() == 0 {
        out
    } else {
        drained(stack.drop_last(), out.push(stack.last().1))
    }
}

/// The output words, space separated.
pub open spec fn joined(parts: Seq<Seq<char>>) -> Seq<char>
    decreases parts.len(),
{
    if parts.len() == 0 {
        Seq::<char>::empty()
    } else if parts.len() == 1 {
        parts[0]
    } else {
        joined(parts.drop_last()) + " "@ + parts.last()
    }
}

/// The shunting-yard state: operators waiting, and the words already out.
pub struct ReversePolishNotation {
    stack: Vec<Token>,
    output: Vec<String>,
}

impl ReversePolishNotation {
    pub closed spec fn stack_v(&self) -> Seq<(TokenType, Seq<char>)> {
        self.stack@.map(|i: int, t: Token| stack_entry(t))
    }

    pub closed spec fn out_v(&self) -> Seq<Seq<char>> {
        self.output@.map(|i: int, s: String| s@)
    }

    pub fn new() -> (r: ReversePolishNotation)
        ensures
            r.stack_v() =~= Seq::<(TokenType, Seq<char>)>::empty(),
            r.out_v() =~= Seq::<Seq<char>>::empty(),
    {
        let r = ReversePolishNotation { stack: Vec::new(), output: Vec::new() };
        proof {
            assert(r.stack_v() =~= Seq::<(TokenType, Seq<char>)>::empty());
            assert(r.out_v() =~= Seq::<Seq<char>>::empty());
        }
        r
    }

    pub fn prio(token: &Token) -> (p: i32)
        ensures
            p as int == spec_prio(token.token_type),
    {
        match token.token_type {
            TokenType::Star => 2,
            TokenType::Slash => 2,
            TokenType::Plus => 1,
            TokenType::Minus => 1,
            TokenType::RightParen => 3,
            TokenType::LeftParen => 4,
            _ => -1,
        }
    }

    /// Moves the stack's top word to the output.
    fn pop_one(&mut self)
        requires
            old(self).stack_v().len() > 0,
        ensures
            final(self).stack_v() =~= old(self).stack_v().drop_last(),
            final(self).out_v() =~= old(self).out_v().push(old(self).stack_v().last().1),
    {
        let ghost st0 = self.stack_v();
        let ghost out0 = self.out_v();
        match self.stack.pop() {
            Some(t) => {
                self.output.push(t.lexeme);
                proof {
                    assert forall|i: int| 0 <= i < self.stack_v().len() implies self.stack_v()[i]
                        == st0.drop_last()[i] by {}
                    assert forall|i: int| 0 <= i < self.out_v().len() implies self.out_v()[i]
                        == out0.push(st0.last().1)[i] by {}
                }
            },
            None => {},
        }
    }

    /// Feeds one operator through the stack, as `spec_push_op` says.
    #[verifier::loop_isolation(false)]
    pub fn push_operator(&mut self, token: &Token)
        ensures
            ({
                let r = spec_push_op(
                    old(self).stack_v(),
                    old(self).out_v(),
                    (token.token_type, token.lexeme@),
                );
                final(self).stack_v() =~= r.0 && final(self).out_v() =~= r.1
            }),
    {
        let ghost st0 = self.stack_v();
        let ghost out0 = self.out_v();
        let prio = Self::prio(token);
        if prio == 3 {
            loop
                invariant
                    pop_to_lparen(self.stack_v(), self.out_v()) == pop_to_lparen(st0, out0),
                decreases self.stack_v().len(),
            {
                match self.stack.last() {
                    Some(c) => {
                        if c.token_type == TokenType::LeftParen {
                            let ghost pre = self.stack_v();
                            proof {
                                assert(pre.last() == stack_entry(self.stack@.last()));
                            }
                            self.stack.pop();
                            proof {
                                assert forall|i: int|
                                    0 <= i < self.stack_v().len() implies self.stack_v()[i]
                                    == pre.drop_last()[i] by {}
                                assert(self.stack_v() =~= pre.drop_last());
                            }
                            return ;
                        }
                        proof {
                            assert(self.stack_v().last() == stack_entry(self.stack@.last()));
                        }
                        self.pop_one();
                    },
                    None => {
                        return ;
                    },
                }
            }
        } else {
            loop
                invariant
                    ({
                        let r = pop_ge(self.stack_v(), self.out_v(), prio as int);
                        pop_ge(st0, out0, prio as int) == r
                    }),
                decreases self.stack_v().len(),
            {
                match self.stack.last() {
                    Some(c) => {
                        let keep_popping = c.token_type != TokenType::LeftParen && prio
                            <= Self::prio(c);
                        if !keep_popping {
                            break ;
                        }
                        proof {
                            assert(self.stack_v().last() == stack_entry(self.stack@.last()));
                        }
                        self.pop_one();
                    },
                    None => {
                        break ;
                    },
                }
            }
            let ghost stb = self.stack_v();
            self.stack.push(token.duplicate());
            proof {
                assert forall|i: int| 0 <= i < self.stack_v().len() implies self.stack_v()[i]
                    == stb.push((token.token_type, token.lexeme@))[i] by {}
                assert(self.stack_v() =~= stb.push((token.token_type, token.lexeme@)));
            }
        }
    }

    pub fn visit_literal(&mut self, lit: &Literal)
        ensures
            final(self).stack_v() =~= old(self).stack_v(),
            final(self).out_v() =~= old(self).out_v().push(render_lit(*lit)),
    {
        let ghost out0 = self.out_v();
        let word = match lit {
            Literal::String(s) => s.clone(),
            Literal::Number(s) => s.clone(),
            Literal::Boolean(b) => if *b {
                "true".to_owned()
            } else {
                "false".to_owned()
            },
            Literal::Nil => "nil".to_owned(),
        };
        self.output.push(word);
        proof {
            assert forall|i: int| 0 <= i < self.out_v().len() implies self.out_v()[i] == out0.push(
                render_lit(*lit),
            )[i] by {}
        }
    }

    /// Empties stack and output and hands back the whole rendering, words
    /// space separated.
    #[verifier::loop_isolation(false)]
    pub fn output(&mut self) -> (r: String)
        ensures
            r@ == joined(drained(old(self).stack_v(), old(self).out_v())),
            final(self).stack_v() =~= Seq::<(TokenType, Seq<char>)>::empty(),
            final(self).out_v() =~= Seq::<Seq<char>>::empty(),
    {
        let ghost st0 = self.stack_v();
        let ghost out0 = self.out_v();
        loop
            invariant
                drained(self.stack_v(), self.out_v()) == drained(st0, out0),
            decreases self.stack_v().len(),
        {
            if self.stack.len() == 0 {
                break ;
            }
            proof {
                assert(self.stack_v().last() == stack_entry(self.stack@.last()));
            }
            self.pop_one();
        }
        proof {
            assert(self.stack_v().len() == 0);
            assert(self.stack_v() =~= Seq::<(TokenType, Seq<char>)>::empty());
            assert(drained(self.stack_v(), self.out_v()) == self.out_v());
        }
        let ghost parts = self.out_v();
        let mut joined_out = String::new();
        let n = self.output.len();
        let mut i: usize = 0;
        while i < n
            invariant
                n == self.output@.len(),
                parts == self.out_v(),
                0 <= i <= n,
                joined_out@ == joined(parts.subrange(0, i as int)),
            decreases n - i,
        {
            if i > 0 {
                joined_out.append(" ");
            }
            joined_out.append(self.output[i].as_str());
            proof {
                assert(parts.subrange(0, i + 1 as int).drop_last() =~= parts.subrange(
                    0,
                    i as int,
                ));
                assert(parts.subrange(0, i + 1 as int).last() == parts[i as int]);
            }
            i = i + 1;
        }
        proof {
            assert(parts.subrange(0, n as int) =~= parts);
        }
        self.output.clear();
        proof {
            assert(self.out_v() =~= Seq::<Seq<char>>::empty());
        }
        joined_out
    }
}

impl Default for ReversePolishNotation {
    fn default() -> (r: ReversePolishNotation)
        ensures
            r.stack_v() =~= Seq::<(TokenType, Seq<char>)>::empty(),
            r.out_v() =~= Seq::<Seq<char>>::empty(),
    {
        ReversePolishNotation::new()
    }
}

impl Expr {
    /// Walks the tree through the shunting yard, as `spec_visit` says.
    pub fn accept_mut(&self, visitor: &mut ReversePolishNotation)
        requires
            printable(*self),
        ensures
            ({
                let r = spec_visit(*self, old(visitor).stack_v(), old(visitor).out_v());
                final(visitor).stack_v() =~= r.0 && final(visitor).out_v() =~= r.1
            }),
        decreases *self,
    {
        match self {
            Expr::Literal(lit) => visitor.visit_literal(lit),
            Expr::Binary { left, operator, right } => {
                left.accept_mut(visitor);
                visitor.push_operator(operator);
                right.accept_mut(visitor);
            },
            Expr::Unary { operator, right } => {
                visitor.push_operator(operator);
                right.accept_mut(visitor);
            },
            Expr::Grouping { expression } => {
                let open = Token::new(
                    TokenType::LeftParen,
                    "(".to_owned(),
                    Literal::Nil,
                    1,
                );
                visitor.push_operator(&open);
                expression.accept_mut(visitor);
                let close = Token::new(
                    TokenType::RightParen,
                    ")".to_owned(),
                    Literal::Nil,
                    1,
                );
                visitor.push_operator(&close);
            },
            _ => vstd::pervasive::unreached(),
        }
    }
}

} // verus!
