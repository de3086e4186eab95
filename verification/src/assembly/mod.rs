//! Assembly: LIR lowered to RISC-V instructions, and their text.

mod riscv;
pub mod codegen;
pub mod emit;

use vstd::prelude::*;
use core::marker::PhantomData;
use crate::common::StrDescriptor;

pub use riscv::{Register, RegIter, spec_x, reg_number, reg_name, is_alloc_reg, alloc_regs_seq};
pub use riscv::{
    Insn, LabelOperand, StaticVar, DataSegment, BssSegment, Function, TopLevel,
    TopLevel as AsmTopLevel,
    Function as AsmFunction,
    StaticVar as AsmStaticVar,
    DataSegment as AsmDataSegment,
    BssSegment as AsmBssSegment,
    Insn as AsmInsn,
    LabelOperand as AsmLabelOperand,
};

verus! {

/// The stage that lowers LIR.
#[derive(Debug, Clone, Copy, PartialEq, Eq)]
pub struct Parse;

/// The stage after lowering.
#[derive(Debug, Clone, Copy, PartialEq, Eq)]
pub struct Opt;

/// What the lowering of a function needs: its frame and saved registers.
#[derive(Debug)]
pub struct FuncContext {
    pub name: StrDescriptor,
    pub callee_saved: Vec<(Register, isize)>,
    pub frame_size: usize,
}

#[derive(Debug)]
pub struct CodeGen<Stage> {
    pub cur_cx: Option<FuncContext>,
    pub _stage: PhantomData<Stage>,
}

} // verus!
