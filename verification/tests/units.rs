use nenia::ast::Stmt;
use nenia::environment::Cactus;
use nenia::error::ErrorKind as LexErrorKind;
use nenia::interpreter::{InterpreterVisitor, Object};
use nenia::num::{eq_bits, is_nan, is_zero, le_bits, lt_bits, negate};
use nenia::parser::{ParseErrorKind, Parser};
use nenia::scanner::Scanner;
use nenia::token::{Literal, Token, TokenType};
use nenia::RunError;

fn scan(src: &str) -> Vec<Token> {
    let mut scanner = Scanner::new(src.to_string());
    scanner.scan_tokens().expect("lexical error");
    scanner.into_tokens()
}

#[test]
fn parse() {
    let mut interpreter = InterpreterVisitor::new();
    match nenia::run("1+1".to_string(), &mut interpreter) {
        Ok(_) => {}
        Err(e) => println!("{:?}", e),
    }
}

#[test]
fn scanner_kinds_and_lexemes() {
    let toks = scan("var x = 12.5; // note\nprint x >= 3;");
    let kinds: Vec<TokenType> = toks.iter().map(|t| t.token_type).collect();
    assert_eq!(
        kinds,
        vec![
            TokenType::Var,
            TokenType::Identifier,
            TokenType::Equal,
            TokenType::Number,
            TokenType::Semicolon,
            TokenType::Print,
            TokenType::Identifier,
            TokenType::GreaterEqual,
            TokenType::Number,
            TokenType::Semicolon,
            TokenType::Eof,
        ]
    );
    assert_eq!(toks[1].lexeme, "x");
    assert_eq!(toks[3].lexeme, "12.5");
    assert_eq!(toks[3].literal, Literal::Number("12.5".to_string()));
    assert_eq!(toks[0].line, 1);
    assert_eq!(toks[5].line, 2);
}

#[test]
fn scanner_string_literal_keeps_interior() {
    let toks = scan("\"hi there\"");
    assert_eq!(toks[0].token_type, TokenType::String);
    assert_eq!(toks[0].lexeme, "\"hi there\"");
    assert_eq!(toks[0].literal, Literal::String("hi there".to_string()));
}

#[test]
fn scanner_trailing_dot_is_not_fraction() {
    let toks = scan("12.foo");
    assert_eq!(toks[0].token_type, TokenType::Number);
    assert_eq!(toks[0].lexeme, "12");
    assert_eq!(toks[1].token_type, TokenType::Dot);
    assert_eq!(toks[2].token_type, TokenType::Identifier);
}

#[test]
fn scanner_unterminated_string() {
    let mut scanner = Scanner::new("print \"oops".to_string());
    match scanner.scan_tokens() {
        Err(e) => match e.kind {
            LexErrorKind::UnterminatedString(p) => {
                assert_eq!(p.line, 1);
                assert_eq!(p.char, 6);
            }
            other => panic!("{:?}", other),
        },
        Ok(_) => panic!("the open quote went unnoticed"),
    }
}

#[test]
fn scanner_unexpected_character() {
    let mut scanner = Scanner::new("1 + #".to_string());
    match scanner.scan_tokens() {
        Err(e) => assert!(matches!(e.kind, LexErrorKind::UnexpectedCharacter(_))),
        Ok(_) => panic!("the stray character went unnoticed"),
    }
}

#[test]
fn parser_builds_print_statement() {
    let mut parser = Parser::new(scan("print 1;"));
    let stmts = parser.parse().expect("parse error");
    assert_eq!(stmts.len(), 1);
    assert!(matches!(stmts[0], Stmt::Print(_)));
}

#[test]
fn parser_missing_semicolon() {
    let mut parser = Parser::new(scan("print 1"));
    match parser.parse() {
        Err(e) => assert!(matches!(e.kind, ParseErrorKind::ExpectSemicolon(_))),
        Ok(_) => panic!("the missing semicolon went unnoticed"),
    }
}

#[test]
fn parser_unmatched_paren() {
    let mut parser = Parser::new(scan("print (1 + 2;"));
    match parser.parse() {
        Err(e) => assert!(matches!(e.kind, ParseErrorKind::UnmatchedParen(_))),
        Ok(_) => panic!("the open parenthesis went unnoticed"),
    }
}

#[test]
fn parser_left_operand_diagnostic() {
    let mut parser = Parser::new(scan("* 2;"));
    match parser.parse() {
        Err(e) => match e.kind {
            ParseErrorKind::ExpectLeftOperand(t) => assert_eq!(t.lexeme, "*"),
            other => panic!("{:?}", other),
        },
        Ok(_) => panic!("the missing left operand went unnoticed"),
    }
}

#[test]
fn parser_invalid_assignment_target() {
    let mut parser = Parser::new(scan("1 = 2;"));
    match parser.parse() {
        Err(e) => assert!(matches!(e.kind, ParseErrorKind::InvalidAssignmentTarget(_))),
        Ok(_) => panic!("the bad assignment target went unnoticed"),
    }
}

#[test]
fn parser_recovery_keeps_later_statement() {
    let mut parser = Parser::new(scan("var = 3; print 1;"));
    let (stmts, err) = parser.parse_program();
    assert!(err.is_some());
    assert!(matches!(err.unwrap().kind, ParseErrorKind::ExpectVariableName(_)));
    assert_eq!(stmts.len(), 1);
    assert!(matches!(stmts[0], Stmt::Print(_)));
}

#[test]
fn parser_for_lowers_to_while() {
    let mut parser = Parser::new(scan("for (var i = 0; i < 3; i = i + 1) print i;"));
    let stmts = parser.parse().expect("parse error");
    assert_eq!(stmts.len(), 1);
    match &stmts[0] {
        Stmt::Block { statements } => {
            assert_eq!(statements.len(), 2);
            assert!(matches!(statements[0], Stmt::Var { .. }));
            assert!(matches!(statements[1], Stmt::While { .. }));
        }
        other => panic!("{:?}", other),
    }
}

fn ident(name: &str) -> Token {
    Token::new(TokenType::Identifier, name.to_string(), Literal::Nil, 1)
}

#[test]
fn cactus_define_get_assign() {
    let mut c = Cactus::new();
    c.define("x", Object::Number(1.5f32.to_bits()), 0);
    assert_eq!(
        c.get(&ident("x"), 0).unwrap(),
        &Object::Number(1.5f32.to_bits())
    );
    let child = c.push_child(0);
    assert_eq!(
        c.get(&ident("x"), child).unwrap(),
        &Object::Number(1.5f32.to_bits())
    );
    c.define("x", Object::Boolean(true), child);
    assert_eq!(c.get(&ident("x"), child).unwrap(), &Object::Boolean(true));
    assert_eq!(
        c.get(&ident("x"), 0).unwrap(),
        &Object::Number(1.5f32.to_bits())
    );
    c.assign(&ident("x"), Object::Nil, child).unwrap();
    assert_eq!(c.get(&ident("x"), child).unwrap(), &Object::Nil);
    c.pop();
    assert_eq!(
        c.get(&ident("x"), 0).unwrap(),
        &Object::Number(1.5f32.to_bits())
    );
    assert!(c.get(&ident("y"), 0).is_err());
}

#[test]
fn number_bits_agree_with_floats() {
    let samples: [f32; 8] = [0.0, -0.0, 1.0, -1.0, 0.5, 3.25, 1.0e30, -2.5];
    for &x in samples.iter() {
        for &y in samples.iter() {
            let (a, b) = (x.to_bits(), y.to_bits());
            assert_eq!(lt_bits(a, b), x < y);
            assert_eq!(le_bits(a, b), x <= y);
            assert_eq!(eq_bits(a, b), x == y);
        }
        assert_eq!(f32::from_bits(negate(x.to_bits())), -x);
        assert_eq!(is_zero(x.to_bits()), x == 0.0);
        assert_eq!(is_nan(x.to_bits()), x.is_nan());
    }
    let nan = f32::NAN.to_bits();
    assert!(is_nan(nan));
    assert!(!eq_bits(nan, nan));
    assert!(!lt_bits(nan, 0));
    assert!(!lt_bits(0, nan));
}

#[test]
fn run_reports_lexical_error() {
    let mut iv = InterpreterVisitor::new();
    match nenia::run("print \"open".to_string(), &mut iv) {
        Err(RunError::Lex(_)) => {}
        other => panic!("{:?}", other),
    }
}

#[test]
fn run_reports_parse_error() {
    let mut iv = InterpreterVisitor::new();
    match nenia::run("print ;".to_string(), &mut iv) {
        Err(RunError::Parse(_)) => {}
        other => panic!("{:?}", other),
    }
}
