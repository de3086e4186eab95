use drcc::assembly::{CodeGen as AsmCodeGen, Parse as AsmParse};
use drcc::ast::Parser;
use drcc::common::{Constant, DataType, Linkage, StrDescriptor};
use drcc::lex::Lexer;
use drcc::lir::LirCodeGen;
use drcc::sem::HirParser;
use drcc::tac::opt::cfg::check_labels_resolved;
use drcc::tac::{CodeGen, Opt, TacBinaryOp, TacCodeGen, TacFunction, TacInsn, TacLabelOperand, TacAutoGenLabel, TacOperand, TacTopLevel};

fn front(src: &str) -> (TacTopLevel, CodeGen<Opt>) {
    let (tokens, strtb) = Lexer::new(src.to_string()).lex().unwrap();
    let ast = Parser::new(tokens, strtb).parse_prog().unwrap();
    let hir = HirParser::new().parse(ast).unwrap();
    TacCodeGen::new().parse(hir)
}

fn opt_only() -> CodeGen<Opt> {
    front("int main(void) { return 0; }").1
}

fn var(n: usize) -> TacOperand {
    TacOperand::Var { name: StrDescriptor(n), local_id: Some(n), data_type: DataType::Int }
}

fn imm(v: i32) -> TacOperand {
    TacOperand::Imm(Constant::Int(v))
}

fn func(body: Vec<TacInsn>) -> TacFunction {
    TacFunction::Defined {
        return_type: DataType::Int,
        linkage: Linkage::External,
        name: StrDescriptor(100),
        params: vec![],
        local_vars: vec![],
        body,
    }
}

fn body_of(f: TacFunction) -> Vec<TacInsn> {
    match f {
        TacFunction::Defined { body, .. } => body,
        TacFunction::Declared { .. } => panic!("a definition was expected"),
    }
}

fn is_move(i: &TacInsn, src: TacOperand, dst: TacOperand) -> bool {
    matches!(i, TacInsn::Move { src: s, dst: d } if *s == src && *d == dst)
}

fn label(n: usize) -> TacLabelOperand {
    TacLabelOperand::AutoGen(TacAutoGenLabel::Branch(n))
}

#[test]
fn dse_removes_overwritten_store() {
    let mut opt = opt_only();
    let f = func(vec![
        TacInsn::Move { src: imm(1), dst: var(0) },
        TacInsn::Move { src: imm(2), dst: var(0) },
        TacInsn::Return(var(0)),
    ]);
    let body = body_of(opt.deadstore_elimination(f));
    assert_eq!(body.len(), 2);
    assert!(is_move(&body[0], imm(2), var(0)));
    assert!(matches!(body[1], TacInsn::Return(o) if o == var(0)));
}

#[test]
fn dse_removes_unread_temporary_and_keeps_calls() {
    let mut opt = opt_only();
    let t = TacOperand::Temp(7, DataType::Int);
    let f = func(vec![
        TacInsn::Binary { op: TacBinaryOp::Add, left: var(1), right: imm(1), dst: t },
        TacInsn::FuncCall { target: StrDescriptor(3), args: vec![var(1)], dst: var(2) },
        TacInsn::Return(imm(0)),
    ]);
    let body = body_of(opt.deadstore_elimination(f));
    assert_eq!(body.len(), 2);
    assert!(matches!(body[0], TacInsn::FuncCall { .. }));
}

#[test]
fn dse_keeps_stores_to_statics() {
    let (tac, mut opt) = front("int s; int main(void) { s = 1; s = 2; return 0; }");
    let main = tac.functions.into_iter().find(|f| matches!(f, TacFunction::Defined { .. })).unwrap();
    let before = body_of_ref_len(&main);
    let body = body_of(opt.deadstore_elimination(main));
    // the first store to `s` is dead, the second lives until the function returns
    assert_eq!(body.len(), before - 1);
    let stores = body.iter().filter(|i| matches!(i, TacInsn::Move { dst: TacOperand::Var { local_id: None, .. }, .. })).count();
    assert_eq!(stores, 1);
}

fn body_of_ref_len(f: &TacFunction) -> usize {
    match f {
        TacFunction::Defined { body, .. } => body.len(),
        TacFunction::Declared { .. } => 0,
    }
}

#[test]
fn dse_liveness_flows_around_a_loop() {
    let mut opt = opt_only();
    // x is read at the loop head after the back edge: no store to it is dead
    let f = func(vec![
        TacInsn::Move { src: imm(0), dst: var(0) },
        TacInsn::Label(label(1)),
        TacInsn::BranchIfZero { src: var(0), label: label(2) },
        TacInsn::Move { src: imm(0), dst: var(0) },
        TacInsn::Jump(label(1)),
        TacInsn::Label(label(2)),
        TacInsn::Return(imm(0)),
    ]);
    let body = body_of(opt.deadstore_elimination(f));
    assert_eq!(body.len(), 7);
}

#[test]
fn cp_replaces_reads_of_copies() {
    let mut opt = opt_only();
    let t = TacOperand::Temp(0, DataType::Int);
    let f = func(vec![
        TacInsn::Move { src: var(1), dst: var(2) },
        TacInsn::Binary { op: TacBinaryOp::Add, left: var(2), right: imm(1), dst: t },
        TacInsn::Return(t),
    ]);
    let body = body_of(opt.copy_propagation(f));
    assert_eq!(body.len(), 3);
    assert!(is_move(&body[0], var(1), var(2)));
    assert!(matches!(body[1], TacInsn::Binary { left, right, dst, .. } if left == var(1) && right == imm(1) && dst == t));
}

#[test]
fn cp_removes_copies_that_already_hold() {
    let mut opt = opt_only();
    let f = func(vec![
        TacInsn::Move { src: var(1), dst: var(2) },
        TacInsn::Move { src: var(1), dst: var(2) },
        TacInsn::Move { src: var(2), dst: var(1) },
        TacInsn::Return(var(2)),
    ]);
    let body = body_of(opt.copy_propagation(f));
    // the copy back kills var2 = var1 and makes var1 = var2 hold instead
    assert_eq!(body.len(), 2);
    assert!(is_move(&body[0], var(1), var(2)));
    assert!(matches!(body[1], TacInsn::Return(o) if o == var(2)));
}

#[test]
fn cp_kills_copies_on_write() {
    let mut opt = opt_only();
    let f = func(vec![
        TacInsn::Move { src: var(1), dst: var(2) },
        TacInsn::Move { src: imm(5), dst: var(1) },
        TacInsn::Return(var(2)),
    ]);
    let body = body_of(opt.copy_propagation(f));
    assert_eq!(body.len(), 3);
    assert!(matches!(body[2], TacInsn::Return(o) if o == var(2)));
}

#[test]
fn cp_copies_must_hold_on_every_path() {
    let mut opt = opt_only();
    // only one of the two paths into the join copies var1 into var2
    let f = func(vec![
        TacInsn::BranchIfZero { src: var(0), label: label(1) },
        TacInsn::Move { src: var(1), dst: var(2) },
        TacInsn::Label(label(1)),
        TacInsn::Return(var(2)),
    ]);
    let body = body_of(opt.copy_propagation(f));
    assert!(matches!(body[3], TacInsn::Return(o) if o == var(2)));
}

#[test]
fn labels_resolved_check() {
    assert!(check_labels_resolved(&vec![TacInsn::Jump(label(1)), TacInsn::Label(label(1)), TacInsn::Return(imm(0))]));
    assert!(!check_labels_resolved(&vec![TacInsn::Jump(label(2)), TacInsn::Label(label(1)), TacInsn::Return(imm(0))]));
    assert!(!check_labels_resolved(&vec![]));
}

#[test]
fn dce_removes_unreachable_blocks() {
    let mut opt = opt_only();
    let f = func(vec![
        TacInsn::Return(imm(1)),
        TacInsn::Move { src: imm(2), dst: var(0) },
        TacInsn::Return(var(0)),
    ]);
    let body = body_of(opt.deadcode_elimination(f));
    assert_eq!(body.len(), 1);
    assert!(matches!(body[0], TacInsn::Return(o) if o == imm(1)));
}

#[test]
fn optimize_all_folds_and_propagates() {
    let (tac, opt) = front("int main(void) { int a = 2 + 3; int b = a; return b; }");
    let tac = opt.optimize_all(tac);
    let text = tac.emit();
    println!("{}", text);
    assert!(!text.contains("add"));
    assert!(text.contains("5"));
}

#[test]
fn optimize_all_then_backend() {
    let src = "static int counter = 3; int add(int a, int b) { return a + b; } int main(void) { int x = 1; int y = x; if (0) { y = 7; } counter = add(y, counter); return counter; }";
    let (tac, opt) = front(src);
    let tac = opt.optimize_all(tac);
    let (lir, regalloc) = LirCodeGen::new().parse(tac);
    let (lir, spill) = regalloc.allocate(lir);
    let (lir, canonic) = spill.spill(lir);
    let lir = canonic.canonic(lir);
    let (listing, _) = AsmCodeGen::<AsmParse>::new().parse(lir);
    let text = listing.emit();
    println!("{}", text);
    assert!(text.contains("call\tadd"));
    assert!(text.contains("counter:\n"));
}
