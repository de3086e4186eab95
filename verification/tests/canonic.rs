use drcc::assembly::Register;
use drcc::ast::Parser;
use drcc::lex::Lexer;
use drcc::lir::codegen::Canonic;
use drcc::lir::{LirCodeGen, LirInsn, LirOperand};
use drcc::sem::HirParser;
use drcc::tac::TacCodeGen;

fn canonic_stage() -> drcc::lir::codegen::CodeGen<Canonic> {
    let (tokens, strtb) = Lexer::new("int main(void) { return 0; }".to_string()).lex().unwrap();
    let ast = Parser::new(tokens, strtb).parse_prog().unwrap();
    let hir = HirParser::new().parse(ast).unwrap();
    let (tac, _) = TacCodeGen::new().parse(hir);
    let (lir, regalloc) = LirCodeGen::new().parse(tac);
    let (lir, spill) = regalloc.allocate(lir);
    let (_, canonic) = spill.spill(lir);
    canonic
}

#[test]
fn canonic_add_with_immediate_becomes_addi() {
    let mut cg = canonic_stage();
    let x1 = LirOperand::PhysReg(Register::Ra);
    let x2 = LirOperand::PhysReg(Register::Sp);
    let out = cg.canonic_insn(LirInsn::Add(x1, x2, LirOperand::Imm(42)));
    assert_eq!(out, vec![LirInsn::Addi(x1, x2, 42)]);
}

#[test]
fn canonic_move_of_immediate_to_memory_goes_through_t5() {
    let mut cg = canonic_stage();
    let slot = LirOperand::Mem { base: Register::S0, offset: -8, size: 4 };
    let t5 = LirOperand::PhysReg(Register::T5);
    let out = cg.canonic_insn(LirInsn::Mv(slot, LirOperand::Imm(42)));
    assert_eq!(out, vec![LirInsn::Li(t5, 42), LirInsn::Sw(t5, slot)]);
}

#[test]
fn canonic_add_with_large_immediate_loads_it_first() {
    let mut cg = canonic_stage();
    let a0 = LirOperand::PhysReg(Register::A0);
    let a1 = LirOperand::PhysReg(Register::A1);
    let t6 = LirOperand::PhysReg(Register::T6);
    let out = cg.canonic_insn(LirInsn::Add(a0, a1, LirOperand::Imm(5000)));
    assert_eq!(out, vec![LirInsn::Li(t6, 5000), LirInsn::Add(a0, a1, t6)]);
}

#[test]
fn canonic_addw_with_small_immediate_becomes_addiw() {
    let mut cg = canonic_stage();
    let a0 = LirOperand::PhysReg(Register::A0);
    let a1 = LirOperand::PhysReg(Register::A1);
    let out = cg.canonic_insn(LirInsn::Addw(a0, a1, LirOperand::Imm(-7)));
    assert_eq!(out, vec![LirInsn::Addiw(a0, a1, -7)]);
}
