use drcc::ast::{AstBinaryOp, AstExpr, AstStmt, Parser};
use drcc::common::Error;
use drcc::lex::Lexer;
use drcc::sem::HirParser;

fn parse_expr(src: &str) -> AstExpr {
    let (tokens, pool) = Lexer::new(src.to_string()).lex().unwrap();
    let mut parser = Parser::new(tokens, pool);
    parser.parse_expr().unwrap()
}

fn binary_op(e: &AstExpr) -> Option<AstBinaryOp> {
    match e {
        AstExpr::Binary { op: (op, _), .. } => Some(*op),
        _ => None,
    }
}

#[test]
fn multiplication_binds_tighter_than_addition() {
    // 1 + 2 * 3 - 4 is (1 + (2 * 3)) - 4
    let e = parse_expr("1 + 2 * 3 - 4");
    match e {
        AstExpr::Binary { op: (AstBinaryOp::Sub, _), left, right } => {
            assert!(matches!(*right, AstExpr::IntegerLiteral(..)));
            match *left {
                AstExpr::Binary { op: (AstBinaryOp::Add, _), left: l2, right: r2 } => {
                    assert!(matches!(*l2, AstExpr::IntegerLiteral(..)));
                    assert_eq!(binary_op(&r2), Some(AstBinaryOp::Mul));
                },
                other => panic!("unexpected {:?}", other),
            }
        },
        other => panic!("unexpected {:?}", other),
    }
}

#[test]
fn ternary_associates_to_the_right() {
    // a ? b : c ? d : e is a ? b : (c ? d : e)
    let e = parse_expr("a ? b : c ? d : e");
    match e {
        AstExpr::Ternary { else_expr, .. } => assert!(matches!(*else_expr, AstExpr::Ternary { .. })),
        other => panic!("unexpected {:?}", other),
    }
}

#[test]
fn calls_casts_and_groups() {
    let e = parse_expr("f(1, (long) x, (2 + 3))");
    match e {
        AstExpr::FuncCall { args, .. } => {
            assert_eq!(args.len(), 3);
            assert!(matches!(args[1], AstExpr::Cast { .. }));
            assert!(matches!(args[2], AstExpr::Group(..)));
        },
        other => panic!("unexpected {:?}", other),
    }
}

#[test]
fn bitwise_operators_are_refused() {
    let (tokens, pool) = Lexer::new("a & b".to_string()).lex().unwrap();
    let mut parser = Parser::new(tokens, pool);
    assert!(parser.parse_expr().is_err());
}

#[test]
fn statements_parse_to_their_kinds() {
    let src = "int main(void) { int x = 1; for (int i = 0; i < 3; i = i + 1) x = x + i; do x = x - 1; while (x > 2); if (x) return x; else { return 0; } }";
    let (tokens, pool) = Lexer::new(src.to_string()).lex().unwrap();
    let top = Parser::new(tokens, pool).parse_prog().unwrap();
    assert_eq!(top.decls.len(), 1);
    match &top.decls[0] {
        drcc::ast::AstDecl::FuncDecl { body: Some(items), .. } => {
            assert_eq!(items.len(), 4);
            assert!(matches!(items[1], drcc::ast::AstBlockItem::Statement(AstStmt::For { .. })));
            assert!(matches!(items[2], drcc::ast::AstBlockItem::Statement(AstStmt::DoWhile { .. })));
            assert!(matches!(items[3], drcc::ast::AstBlockItem::Statement(AstStmt::If { else_branch: Some(_), .. })));
        },
        other => panic!("unexpected {:?}", other),
    }
}

#[test]
fn syntax_errors_are_gathered() {
    let (tokens, pool) = Lexer::new("int main(void) { return 1 } int f(void) { return }".to_string()).lex().unwrap();
    match Parser::new(tokens, pool).parse_prog() {
        Err(Error::Errors(errors)) => assert!(!errors.is_empty()),
        other => panic!("unexpected {:?}", other.is_ok()),
    }
}

#[test]
fn lexer_refuses_unknown_characters_and_huge_literals() {
    assert!(Lexer::new("int x = 1 @ 2;".to_string()).lex().is_err());
    assert!(Lexer::new("long x = 99999999999999999999;".to_string()).lex().is_err());
    assert!(Lexer::new("long x = 9223372036854775807L;".to_string()).lex().is_ok());
}

#[test]
fn error_text_lists_gathered_errors() {
    let e = Error::Errors(vec![Error::Lex("bad".to_string()), Error::Parse("worse".to_string()), Error::Unimplemented]);
    assert_eq!(e.to_text(), "Lexer error: bad\nParser error: worse\nFeature not implemented\n");
    assert_eq!(Error::Semantic("x".to_string()).to_text(), "Semantic error: x");
}

#[test]
fn hir_dump_lists_functions_and_statics() {
    let src = "static long counter = 3; extern int ext; int add(int a, long b) { return a; } int main(void);";
    let (tokens, pool) = Lexer::new(src.to_string()).lex().unwrap();
    let ast = Parser::new(tokens, pool).parse_prog().unwrap();
    let hir = HirParser::new().parse(ast).unwrap();
    let funcs = hir.dump_funcs();
    assert!(funcs.contains("[external] fn add(a int, b long) -> int { ... }\n"));
    assert!(funcs.contains("[external] fn main(void) -> int\n"));
    let statics = hir.dump_static_vars();
    assert!(statics.contains("[internal]\nlong counter = 3\n"));
    assert!(statics.contains("[external]\nint ext = undefined\n"));
}
