//! The low-level representation: three-address code lowered to RISC-V-like
//! instructions, registers allocated, spilled and canonicalized.

mod lir;
pub mod emit;
pub mod codegen;

pub use lir::{
    Operand as LirOperand,
    Insn as LirInsn,
    Function as LirFunction,
    StaticVar as LirStaticVar,
    TopLevel as LirTopLevel,
    DataSegment as LirDataSegment,
    BssSegment as LirBssSegment,
    LabelOperand as LirLabelOperand,
    LabelSignature as LirLabelSignature,
    IntermediateInsn as LirIntermediateInsn,
    Operand, Insn, Function, StaticVar, TopLevel, DataSegment, BssSegment, LabelOperand, LabelSignature, IntermediateInsn,
};
pub use codegen::{CodeGen as LirCodeGen, FuncContext};
