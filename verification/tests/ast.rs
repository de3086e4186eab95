use drcc::ast::{AstExpr, Parser};
use drcc::lex::Lexer;

#[test]
fn test_expr() {
    let input = "a = 5 = 7 + 2";
    let lexer = Lexer::new(input.into());
    let (tokens, pool) = lexer.lex().unwrap();
    let mut parser = Parser::new(tokens, pool);
    match parser.parse_expr() {
        Ok(expr) => {
            println!("{:#?}", expr);
            // Assignment is right-associative: a = (5 = (7 + 2)).
            match expr {
                AstExpr::Assignment { left, right, .. } => {
                    assert!(matches!(*left, AstExpr::Variable(..)));
                    match *right {
                        AstExpr::Assignment { left, right, .. } => {
                            assert!(matches!(*left, AstExpr::IntegerLiteral(..)));
                            assert!(matches!(*right, AstExpr::Binary { .. }));
                        }
                        other => panic!("expected a nested assignment, got {:?}", other),
                    }
                }
                other => panic!("expected an assignment, got {:?}", other),
            }
        }
        Err(e) => {
            panic!("{:?}", e);
        }
    }
}
