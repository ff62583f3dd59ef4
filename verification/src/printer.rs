use vstd::prelude::*;

use crate::ast::Expr;
use crate::token::Literal;

verus! {

// A parenthesised rendering of expression trees, useful when inspecting
// what the parser built: `(* (- 123) (group 45.67))`.

/// What a literal shows as: a string its content, a number its numeral.
pub open spec fn render_lit(lit: Literal) -> Seq<char> {
    match lit {
        Literal::String(s) => s@,
        Literal::Number(s) => s@,
        Literal::Boolean(b) => if b {
            "true"@
        } else {
            "false"@
        },
        Literal::Nil => "nil"@,
    }
}

/// The trees the renderer covers: literals, groupings and operator nodes.
pub open spec fn printable(e: Expr) -> bool
    decreases e,
{
    match e {
        Expr::Literal(_) => true,
        Expr::Grouping { expression } => printable(*expression),
        Expr::Binary { left, operator: _, right } => printable(*left) && printable(*right),
        Expr::Unary { operator: _, right } => printable(*right),
        _ => false,
    }
}

/// The rendering itself: operators head their operands, prefix style.
pub open spec fn render_expr(e: Expr) -> Seq<char>
    decreases e,
{
    match e {
        Expr::Literal(lit) => render_lit(lit),
        Expr::Grouping { expression } => "(group "@ + render_expr(*expression) + ")"@,
        Expr::Binary { left, operator, right } => "("@ + operator.lexeme@ + " "@ + render_expr(
            *left,
        ) + " "@ + render_expr(*right) + ")"@,
        Expr::Unary { operator, right } => "("@ + operator.lexeme@ + " "@ + render_expr(*right)
            + ")"@,
        _ => Seq::<char>::empty(),
    }
}

/// The renderer; it keeps no state of its own.
pub struct Visitor;

impl Visitor {
    pub fn new() -> (v: Visitor)
        ensures
            v == (Visitor {  }),
    {
        Visitor {  }
    }

    /// Renders one tree, exactly as `render_expr` says.
    pub fn print(&self, expr: &Expr) -> (s: String)
        requires
            printable(*expr),
        ensures
            s@ == render_expr(*expr),
    {
        Self::render(expr)
    }

    fn render(expr: &Expr) -> (s: String)
        requires
            printable(*expr),
        ensures
            s@ == render_expr(*expr),
        decreases *expr,
    {
        match expr {
            Expr::Literal(lit) => match lit {
                Literal::String(s) => s.clone(),
                Literal::Number(s) => s.clone(),
                Literal::Boolean(b) => if *b {
                    "true".to_owned()
                } else {
                    "false".to_owned()
                },
                Literal::Nil => "nil".to_owned(),
            },
            Expr::Grouping { expression } => {
                let mut out = "(group ".to_owned();
                out.append(Self::render(expression).as_str());
                out.append(")");
                out
            },
            Expr::Binary { left, operator, right } => {
                let mut out = "(".to_owned();
                out.append(operator.lexeme.as_str());
                out.append(" ");
                out.append(Self::render(left).as_str());
                out.append(" ");
                out.append(Self::render(right).as_str());
                out.append(")");
                out
            },
            Expr::Unary { operator, right } => {
                let mut out = "(".to_owned();
                out.append(operator.lexeme.as_str());
                out.append(" ");
                out.append(Self::render(right).as_str());
                out.append(")");
                out
            },
            _ => vstd::pervasive::unreached(),
        }
    }
}

impl Expr {
    /// Renders this tree with the given renderer.
    pub fn accept_str(&self, visitor: &Visitor) -> (s: String)
        requires
            printable(*self),
        ensures
            s@ == render_expr(*self),
    {
        visitor.print(self)
    }
}

impl Default for Visitor {
    fn default() -> (v: Visitor)
        ensures
            v == (Visitor {  }),
    {
        Visitor {  }
    }
}

} // verus!
