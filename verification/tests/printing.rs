use nenia::ast::Expr;
use nenia::printer::Visitor;
use nenia::rpn::ReversePolishNotation;
use nenia::token::{Literal, Token, TokenType};

fn number(text: &str) -> Expr {
    Expr::Literal(Literal::Number(text.to_string()))
}

fn op(kind: TokenType, lexeme: &str) -> Token {
    Token::new(kind, lexeme.to_string(), Literal::Nil, 1)
}

#[test]
fn printer_tree() {
    let binary_expression = Expr::Binary {
        left: Box::new(Expr::Unary {
            operator: Token {
                token_type: TokenType::Minus,
                lexeme: "-".to_string(),
                literal: Literal::Nil,
                line: 1,
            },
            right: Box::new(number("123")),
        }),
        operator: Token {
            token_type: TokenType::Star,
            lexeme: "*".to_string(),
            literal: Literal::Nil,
            line: 1,
        },
        right: Box::new(Expr::Grouping {
            expression: Box::new(number("45.67")),
        }),
    };
    let str = Visitor::new().print(&binary_expression);
    assert_eq!(str, "(* (- 123) (group 45.67))");
}

#[test]
fn mod_tree() {
    let binary_expression = Expr::Binary {
        left: Box::new(Expr::Unary {
            operator: op(TokenType::Minus, "-"),
            right: Box::new(number("123")),
        }),
        operator: op(TokenType::Star, "*"),
        right: Box::new(Expr::Grouping {
            expression: Box::new(number("45.67")),
        }),
    };
    let visitor = Visitor::new();
    let res = visitor.print(&binary_expression);
    assert_eq!(res, "(* (- 123) (group 45.67))");
}

#[test]
fn challenge_rpn() {
    let mut visitor = ReversePolishNotation::new();

    let binary_expression = Expr::Binary {
        left: Box::new(Expr::Binary {
            left: Box::new(number("1")),
            operator: op(TokenType::Plus, "+"),
            right: Box::new(number("2")),
        }),
        operator: op(TokenType::Star, "*"),
        right: Box::new(Expr::Binary {
            left: Box::new(number("4")),
            operator: op(TokenType::Minus, "-"),
            right: Box::new(number("3")),
        }),
    };

    binary_expression.accept_mut(&mut visitor);

    assert_eq!(visitor.output(), "1 2 4 * + 3 -");

    let grouping = Expr::Binary {
        left: Box::new(Expr::Grouping {
            expression: Box::new(Expr::Binary {
                left: Box::new(number("1")),
                operator: op(TokenType::Plus, "+"),
                right: Box::new(number("2")),
            }),
        }),
        operator: op(TokenType::Star, "*"),
        right: Box::new(Expr::Grouping {
            expression: Box::new(Expr::Binary {
                left: Box::new(number("4")),
                operator: op(TokenType::Plus, "-"),
                right: Box::new(number("3")),
            }),
        }),
    };

    grouping.accept_mut(&mut visitor);

    assert_eq!(visitor.output(), "1 2 + 4 3 - *");
}
