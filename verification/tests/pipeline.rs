use drcc::assembly::{CodeGen as AsmCodeGen, Parse as AsmParse};
use drcc::ast::Parser;
use drcc::lex::Lexer;
use drcc::lir::LirCodeGen;
use drcc::sem::HirParser;
use drcc::tac::TacCodeGen;

fn compile(src: &str) -> (String, String, String) {
    let (tokens, strtb) = Lexer::new(src.to_string()).lex().unwrap();
    let ast = Parser::new(tokens, strtb).parse_prog().unwrap();
    let hir = HirParser::new().parse(ast).unwrap();
    let (tac, _opt) = TacCodeGen::new().parse(hir);
    let tac_text = tac.emit();
    let (lir, regalloc) = LirCodeGen::new().parse(tac);
    let (lir, spill) = regalloc.allocate(lir);
    let (lir, canonic) = spill.spill(lir);
    let lir = canonic.canonic(lir);
    let lir_text = lir.emit();
    let (listing, _) = AsmCodeGen::<AsmParse>::new().parse(lir);
    (tac_text, lir_text, listing.emit())
}

#[test]
fn pipeline_return_constant() {
    let (tac, _lir, listing) = compile("int main(void) { return 42; }");
    println!("{}\n{}", tac, listing);
    assert!(tac.contains("fn main (void) -> int"));
    assert!(listing.contains("\t.text\n"));
    assert!(listing.contains("main:\n"));
    assert!(listing.contains("\t.globl\tmain\n"));
    assert!(listing.contains("li\t"));
    assert!(listing.contains("\tret\n"));
}

#[test]
fn pipeline_arithmetic_and_loop() {
    let src = "int main(void) { int s = 0; for (int i = 0; i < 10; i = i + 1) { s = s + i * 2; } return s; }";
    let (tac, lir, listing) = compile(src);
    println!("{}\n{}\n{}", tac, lir, listing);
    assert!(tac.contains("mul"));
    assert!(listing.contains("mul"));
    assert!(listing.contains(".L"));
}

#[test]
fn pipeline_calls_and_statics() {
    let src = "static int counter = 3; long total; int add(int a, int b) { return a + b; } int main(void) { counter = add(counter, 4); total = counter; return add(1, 2); }";
    let (tac, lir, listing) = compile(src);
    println!("{}\n{}\n{}", tac, lir, listing);
    assert!(listing.contains("call\tadd"));
    assert!(listing.contains("\t.data\n"));
    assert!(listing.contains("counter:\n"));
    assert!(listing.contains("\t.word\t3\n"));
    assert!(listing.contains("\t.bss\n"));
    assert!(listing.contains("\t.zero\t8\n"));
    assert!(listing.contains("%hi(counter)"));
}
