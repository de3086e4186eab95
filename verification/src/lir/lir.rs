//! The low-level representation: RISC-V-like instructions over virtual and
//! physical registers, immediates and memory.

use vstd::prelude::*;
use crate::assembly::Register;
use crate::common::{DataType, FuncType, InitVal, Linkage, StrDescriptor, StringPool};
use crate::tac::TacLabelOperand;

verus! {

#[derive(Debug, Clone, Copy, PartialEq, Eq, Structural)]
pub enum Operand {
    VirtReg(usize),
    PhysReg(Register),
    Imm(i64),
    /// `size` bytes at `offset` from the register `base`.
    Mem { base: Register, offset: isize, size: usize },
    Static(StrDescriptor),
}

impl Operand {
    /// A slot of the current frame, addressed from the frame pointer.
    pub open spec fn spec_frame(offset: isize, size: usize) -> Operand {
        Operand::Mem { base: Register::S0, offset, size }
    }

    /// A slot of the outgoing arguments, addressed from the stack pointer.
    pub open spec fn spec_stack(offset: isize, size: usize) -> Operand {
        Operand::Mem { base: Register::Sp, offset, size }
    }

    pub fn frame(offset: isize, size: usize) -> (r: Operand)
        ensures r == Operand::spec_frame(offset, size),
    {
        Operand::Mem { base: Register::S0, offset, size }
    }

    pub fn stack(offset: isize, size: usize) -> (r: Operand)
        ensures r == Operand::spec_stack(offset, size),
    {
        Operand::Mem { base: Register::Sp, offset, size }
    }
}

/// Some instructions overlap with others (`addi t0, t1, 0` and `mv t0, t1`);
/// the pseudo-instructions make the code more readable.
#[derive(Debug, Clone, Copy, PartialEq, Eq, Structural)]
pub enum Insn {
    Add(Operand, Operand, Operand),
    Addi(Operand, Operand, i64),
    Addw(Operand, Operand, Operand),
    Addiw(Operand, Operand, i32),
    Sub(Operand, Operand, Operand),
    Subw(Operand, Operand, Operand),
    Mul(Operand, Operand, Operand),
    Mulw(Operand, Operand, Operand),
    Div(Operand, Operand, Operand),
    Divw(Operand, Operand, Operand),
    Rem(Operand, Operand, Operand),
    Remw(Operand, Operand, Operand),
    Slt(Operand, Operand, Operand),
    Sgt(Operand, Operand, Operand),
    Seqz(Operand, Operand),
    Snez(Operand, Operand),
    Sextw(Operand, Operand),
    Label(LabelOperand),
    J(LabelOperand),
    Beq(Operand, Operand, LabelOperand),
    Bne(Operand, Operand, LabelOperand),
    Call(StrDescriptor),
    Ret,
    Lw(Operand, Operand),
    Sw(Operand, Operand),
    Ld(Operand, Operand),
    Sd(Operand, Operand),
    Mv(Operand, Operand),
    Li(Operand, i64),
    La(Operand, StrDescriptor),
    Neg(Operand, Operand),
    Negw(Operand, Operand),
    Not(Operand, Operand),
    LoadStatic(Operand, StrDescriptor),
    StoreStatic(Operand, StrDescriptor),
    Intermediate(IntermediateInsn),
}

/// Instructions of the intermediate stages; the prologue and epilogue take
/// their place once the frame is known.
#[derive(Debug, Clone, Copy, PartialEq, Eq, Structural)]
pub enum IntermediateInsn {
    Prologue,
    Epilogue,
}

#[derive(Debug, Clone, Copy, PartialEq, Eq, Structural)]
pub enum LabelOperand {
    AutoGen(usize),
    Named(StrDescriptor),
}

/// Where a label comes from: a label of a function of the three-address code.
#[derive(Debug, Clone, Copy, PartialEq, Eq, Structural)]
pub enum LabelSignature {
    Tac {
        func: StrDescriptor,
        label: TacLabelOperand,
    },
}

impl LabelSignature {
    pub fn from_tac(func: StrDescriptor, label: TacLabelOperand) -> (r: Self)
        ensures r == (LabelSignature::Tac { func, label }),
    {
        LabelSignature::Tac { func, label }
    }
}

#[derive(Debug)]
pub struct Function {
    pub name: StrDescriptor,
    pub linkage: Linkage,
    pub func_type: FuncType,
    pub body: Vec<Insn>,
    pub frame_size: usize,
    /// The registers the function saves, with their frame offsets.
    pub callee_saved: Vec<(Register, isize)>,
}

#[derive(Debug, Clone, Copy, PartialEq, Eq, Structural)]
pub struct StaticVar {
    pub name: StrDescriptor,
    pub data_type: DataType,
    pub linkage: Linkage,
    pub initializer: InitVal,
}

/// Initialized static variables.
#[derive(Debug)]
pub struct DataSegment {
    pub items: Vec<StaticVar>,
}

/// Static variables initialized to zero.
#[derive(Debug)]
pub struct BssSegment {
    pub items: Vec<StaticVar>,
}

impl DataSegment {
    pub fn new() -> (r: Self)
        ensures r.items@.len() == 0,
    {
        DataSegment { items: Vec::new() }
    }

    pub fn add(&mut self, var: StaticVar)
        ensures final(self).items@ == old(self).items@.push(var),
    {
        self.items.push(var);
    }
}

impl BssSegment {
    pub fn new() -> (r: Self)
        ensures r.items@.len() == 0,
    {
        BssSegment { items: Vec::new() }
    }

    pub fn add(&mut self, var: StaticVar)
        ensures final(self).items@ == old(self).items@.push(var),
    {
        self.items.push(var);
    }
}

#[derive(Debug)]
pub struct TopLevel {
    pub functions: Vec<Function>,
    pub data_seg: DataSegment,
    pub bss_seg: BssSegment,
    pub strtb: StringPool,
}

} // verus!
