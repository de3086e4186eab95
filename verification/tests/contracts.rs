use drcc::assembly::{AsmBssSegment, AsmDataSegment, AsmInsn, AsmStaticVar, AsmTopLevel, LabelOperand, Register};
use drcc::common::{Constant, DataType, Error, InitVal, Linkage, Span, StringPool};
use drcc::lex::Lexer;

#[test]
fn emit_static_load_keeps_its_line_break() {
    let mut strtb = StringPool::new();
    let g = strtb.intern("g".to_string());
    let mut data_seg = AsmDataSegment::new();
    data_seg.add(AsmStaticVar {
        name: g,
        data_type: DataType::Long,
        linkage: Linkage::External,
        initializer: InitVal::Const(Constant::Long(1)),
    });
    let top = AsmTopLevel { functions: Vec::new(), data_seg, bss_seg: AsmBssSegment::new(), strtb };
    assert_eq!(top.emit_insn(&AsmInsn::Ld(Register::A0, Register::S0, -16)), "ld\ta0, -16(s0)");
    assert_eq!(top.emit_insn(&AsmInsn::Beq(Register::A0, Register::Zero, LabelOperand::AutoGen(3))), "beq\ta0, zero, .L3");
    assert_eq!(top.emit_insn(&AsmInsn::LoadStatic(Register::T0, g)), "lui\tt5, %hi(g)\n\tld\tt0, %lo(g)(t5)\n");
    assert_eq!(top.emit_insn(&AsmInsn::StoreStatic(Register::T0, g)), "lui\tt5, %hi(g)\n\tsd\tt0, %lo(g)(t5)\n");
}

#[test]
fn common_type_error_names_both_types() {
    let sp = Span::new(3, 7);
    assert!(matches!(DataType::Int.common(&DataType::Long, Span::new(1, 1)), Ok(DataType::Long)));
    assert!(matches!(DataType::Long.common(&DataType::Long, Span::new(1, 1)), Ok(DataType::Long)));
    match DataType::Int.common(&DataType::Void, sp) {
        Err(Error::Semantic(m)) => assert_eq!(m, "Cannot use int and void together (line 3, column 7)"),
        _ => panic!("expected a semantic error"),
    }
}

#[test]
fn lex_reports_one_error_per_bad_token() {
    match Lexer::new("@".to_string()).lex() {
        Err(Error::Errors(es)) => {
            assert_eq!(es.len(), 1);
            assert!(matches!(es[0], Error::Lex(_)));
        },
        _ => panic!("expected lexical errors"),
    }
}
