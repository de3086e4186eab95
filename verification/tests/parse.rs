use drcc::common::Error;
use drcc::lex::Lexer;
use drcc::parse::{Expr, Parser, Stmt};

fn tokens(src: &str) -> Vec<drcc::common::Token> {
    Lexer::new(src.to_string()).lex().unwrap().0
}

#[test]
fn mini_parser_reads_a_return_program() {
    let mut parser = Parser::new(tokens("int main(void) { return 2; }"));
    match parser.parse_prog() {
        Ok(Stmt::Program(prog)) => {
            assert_eq!(prog.len(), 1);
            match &prog[0] {
                Stmt::FuncDecl { body, .. } => match body.as_ref() {
                    Stmt::Return { expr, .. } => assert!(matches!(expr.as_ref(), Expr::IntegerLiteral(2))),
                    other => panic!("unexpected body {:?}", other),
                },
                other => panic!("unexpected declaration {:?}", other),
            }
        },
        other => panic!("unexpected result {:?}", other),
    }
}

#[test]
fn mini_parser_reads_several_functions() {
    let mut parser = Parser::new(tokens("int f(void) { return 1; } int g(void) { return 7; }"));
    match parser.parse_prog() {
        Ok(Stmt::Program(prog)) => assert_eq!(prog.len(), 2),
        other => panic!("unexpected result {:?}", other),
    }
}

#[test]
fn mini_parser_reports_errors() {
    let mut parser = Parser::new(tokens("int main(void) { return x; } int g(void) { return 1; }"));
    assert!(matches!(parser.parse_prog(), Err(Error::Errors(_))));
    let mut parser = Parser::new(tokens("int main(void) { return"));
    assert!(matches!(parser.parse_prog(), Err(Error::Errors(_))));
}

#[test]
fn mini_parser_expression() {
    let mut parser = Parser::new(tokens("42"));
    assert!(matches!(parser.parse_expr(), Ok(Expr::IntegerLiteral(42))));
    let mut parser = Parser::new(tokens(";"));
    assert!(parser.parse_expr().is_err());
}
