//! RISC-V registers, instructions and the parts of an assembly program.

use vstd::prelude::*;
use crate::common::{DataType, FuncType, InitVal, Linkage, StrDescriptor, StringPool};
use crate::lir::{LirLabelOperand, LirStaticVar};

verus! {

/// The 32 integer registers, in the order of their numbers.
#[derive(Debug, Clone, Copy, PartialEq, Eq, Hash, Structural)]
pub enum Register {
    Zero, Ra, Sp, Gp, Tp, T0, T1, T2, S0, S1, A0, A1, A2, A3, A4, A5, A6, A7, S2, S3, S4, S5, S6, S7, S8, S9, S10, S11, T3, T4, T5, T6,
}

/// The registers in order of their numbers, one at a time.
#[derive(Debug, Clone)]
pub struct RegIter {
    pub index: usize,
}

impl RegIter {
    /// The next register, or `None` after the last one.
    pub fn next(&mut self) -> (r: Option<Register>)
        ensures
            old(self).index < 32 ==> r == Some(spec_x(old(self).index as int)) && final(self).index == old(self).index + 1,
            old(self).index >= 32 ==> r is None && final(self).index == old(self).index,
    {
        if self.index < 32 {
            let reg = Register::x(self.index);
            self.index = self.index + 1;
            Some(reg)
        } else {
            None
        }
    }
}

/// The register with number `id`.
pub open spec fn spec_x(id: int) -> Register {
    if id == 0 { Register::Zero }
    else if id == 1 { Register::Ra }
    else if id == 2 { Register::Sp }
    else if id == 3 { Register::Gp }
    else if id == 4 { Register::Tp }
    else if id == 5 { Register::T0 }
    else if id == 6 { Register::T1 }
    else if id == 7 { Register::T2 }
    else if id == 8 { Register::S0 }
    else if id == 9 { Register::S1 }
    else if id == 10 { Register::A0 }
    else if id == 11 { Register::A1 }
    else if id == 12 { Register::A2 }
    else if id == 13 { Register::A3 }
    else if id == 14 { Register::A4 }
    else if id == 15 { Register::A5 }
    else if id == 16 { Register::A6 }
    else if id == 17 { Register::A7 }
    else if id == 18 { Register::S2 }
    else if id == 19 { Register::S3 }
    else if id == 20 { Register::S4 }
    else if id == 21 { Register::S5 }
    else if id == 22 { Register::S6 }
    else if id == 23 { Register::S7 }
    else if id == 24 { Register::S8 }
    else if id == 25 { Register::S9 }
    else if id == 26 { Register::S10 }
    else if id == 27 { Register::S11 }
    else if id == 28 { Register::T3 }
    else if id == 29 { Register::T4 }
    else if id == 30 { Register::T5 }
    else { Register::T6 }
}

/// The number of a register.
pub open spec fn reg_number(r: Register) -> int {
    match r {
        Register::Zero => 0,
        Register::Ra => 1,
        Register::Sp => 2,
        Register::Gp => 3,
        Register::Tp => 4,
        Register::T0 => 5,
        Register::T1 => 6,
        Register::T2 => 7,
        Register::S0 => 8,
        Register::S1 => 9,
        Register::A0 => 10,
        Register::A1 => 11,
        Register::A2 => 12,
        Register::A3 => 13,
        Register::A4 => 14,
        Register::A5 => 15,
        Register::A6 => 16,
        Register::A7 => 17,
        Register::S2 => 18,
        Register::S3 => 19,
        Register::S4 => 20,
        Register::S5 => 21,
        Register::S6 => 22,
        Register::S7 => 23,
        Register::S8 => 24,
        Register::S9 => 25,
        Register::S10 => 26,
        Register::S11 => 27,
        Register::T3 => 28,
        Register::T4 => 29,
        Register::T5 => 30,
        Register::T6 => 31,
    }
}

/// The assembly name of a register.
pub open spec fn reg_name(r: Register) -> Seq<char> {
    match r {
        Register::Zero => "zero"@,
        Register::Ra => "ra"@,
        Register::Sp => "sp"@,
        Register::Gp => "gp"@,
        Register::Tp => "tp"@,
        Register::T0 => "t0"@,
        Register::T1 => "t1"@,
        Register::T2 => "t2"@,
        Register::S0 => "s0"@,
        Register::S1 => "s1"@,
        Register::A0 => "a0"@,
        Register::A1 => "a1"@,
        Register::A2 => "a2"@,
        Register::A3 => "a3"@,
        Register::A4 => "a4"@,
        Register::A5 => "a5"@,
        Register::A6 => "a6"@,
        Register::A7 => "a7"@,
        Register::S2 => "s2"@,
        Register::S3 => "s3"@,
        Register::S4 => "s4"@,
        Register::S5 => "s5"@,
        Register::S6 => "s6"@,
        Register::S7 => "s7"@,
        Register::S8 => "s8"@,
        Register::S9 => "s9"@,
        Register::S10 => "s10"@,
        Register::S11 => "s11"@,
        Register::T3 => "t3"@,
        Register::T4 => "t4"@,
        Register::T5 => "t5"@,
        Register::T6 => "t6"@,
    }
}

/// Whether the register may hold a value that the register allocator chose.
pub open spec fn is_alloc_reg(r: Register) -> bool {
    !(r is Zero || r is Ra || r is Sp || r is Gp || r is Tp || r is S0 || r is T5 || r is T6)
}

/// The registers that the allocator hands out, in the order it tries them.
pub open spec fn alloc_regs_seq() -> Seq<Register> {
    seq![Register::A0, Register::A1, Register::A2, Register::A3, Register::A4, Register::A5, Register::A6, Register::A7, Register::T0, Register::T1, Register::T2, Register::T3, Register::T4, Register::S1, Register::S2, Register::S3, Register::S4, Register::S5, Register::S6, Register::S7, Register::S8, Register::S9, Register::S10, Register::S11]
}

impl Register {
    /// The register with number `id`.
    pub fn x(id: usize) -> (r: Register)
        requires id < 32,
        ensures r == spec_x(id as int), reg_number(r) == id,
    {
        match id {
            0 => Register::Zero,
            1 => Register::Ra,
            2 => Register::Sp,
            3 => Register::Gp,
            4 => Register::Tp,
            5 => Register::T0,
            6 => Register::T1,
            7 => Register::T2,
            8 => Register::S0,
            9 => Register::S1,
            10 => Register::A0,
            11 => Register::A1,
            12 => Register::A2,
            13 => Register::A3,
            14 => Register::A4,
            15 => Register::A5,
            16 => Register::A6,
            17 => Register::A7,
            18 => Register::S2,
            19 => Register::S3,
            20 => Register::S4,
            21 => Register::S5,
            22 => Register::S6,
            23 => Register::S7,
            24 => Register::S8,
            25 => Register::S9,
            26 => Register::S10,
            27 => Register::S11,
            28 => Register::T3,
            29 => Register::T4,
            30 => Register::T5,
            _ => Register::T6,
        }
    }

    /// The argument register `a{id}`.
    pub fn a(id: usize) -> (r: Register)
        requires id < 8,
        ensures r == spec_x(10 + id),
    {
        Register::x(10 + id)
    }

    /// All registers in order of their numbers.
    pub fn iter() -> (r: RegIter)
        ensures r.index == 0,
    {
        RegIter { index: 0 }
    }

    pub open spec fn spec_is_caller_saved(self) -> bool {
        self is T0 || self is T1 || self is T2 || self is T3 || self is T4 || self is T5 || self is T6
            || self is A0 || self is A1 || self is A2 || self is A3 || self is A4 || self is A5 || self is A6 || self is A7
            || self is Ra
    }

    pub open spec fn spec_is_callee_saved(self) -> bool {
        self is S0 || self is S1 || self is S2 || self is S3 || self is S4 || self is S5 || self is S6 || self is S7
            || self is S8 || self is S9 || self is S10 || self is S11 || self is Sp
    }

    /// Whether a call may change the register.
    pub fn is_caller_saved(&self) -> (r: bool)
        ensures r == self.spec_is_caller_saved(),
    {
        match self {
            Register::T0 | Register::T1 | Register::T2 | Register::T3 | Register::T4 | Register::T5 | Register::T6
            | Register::A0 | Register::A1 | Register::A2 | Register::A3 | Register::A4 | Register::A5
            | Register::A6 | Register::A7 | Register::Ra => true,
            _ => false,
        }
    }

    /// Whether a function must restore the register before it returns.
    pub fn is_callee_saved(&self) -> (r: bool)
        ensures r == self.spec_is_callee_saved(),
    {
        match self {
            Register::S0 | Register::S1 | Register::S2 | Register::S3 | Register::S4 | Register::S5 | Register::S6
            | Register::S7 | Register::S8 | Register::S9 | Register::S10 | Register::S11 | Register::Sp => true,
            _ => false,
        }
    }

    /// The registers that the allocator hands out, in the order it tries them.
    pub fn alloc_regs() -> (r: Vec<Register>)
        ensures r@ == alloc_regs_seq(),
    {
        let v: Vec<Register> = vec![Register::A0, Register::A1, Register::A2, Register::A3, Register::A4, Register::A5, Register::A6, Register::A7, Register::T0, Register::T1, Register::T2, Register::T3, Register::T4, Register::S1, Register::S2, Register::S3, Register::S4, Register::S5, Register::S6, Register::S7, Register::S8, Register::S9, Register::S10, Register::S11];
        proof { assert(v@ =~= alloc_regs_seq()); }
        v
    }

    /// Appends the assembly name of the register.
    pub fn push_name(&self, out: &mut Vec<char>)
        ensures final(out)@ == old(out)@ + reg_name(*self),
    {
        let s = match self {
            Register::Zero => "zero",
            Register::Ra => "ra",
            Register::Sp => "sp",
            Register::Gp => "gp",
            Register::Tp => "tp",
            Register::T0 => "t0",
            Register::T1 => "t1",
            Register::T2 => "t2",
            Register::S0 => "s0",
            Register::S1 => "s1",
            Register::A0 => "a0",
            Register::A1 => "a1",
            Register::A2 => "a2",
            Register::A3 => "a3",
            Register::A4 => "a4",
            Register::A5 => "a5",
            Register::A6 => "a6",
            Register::A7 => "a7",
            Register::S2 => "s2",
            Register::S3 => "s3",
            Register::S4 => "s4",
            Register::S5 => "s5",
            Register::S6 => "s6",
            Register::S7 => "s7",
            Register::S8 => "s8",
            Register::S9 => "s9",
            Register::S10 => "s10",
            Register::S11 => "s11",
            Register::T3 => "t3",
            Register::T4 => "t4",
            Register::T5 => "t5",
            Register::T6 => "t6",
        };
        proof {
            reveal_strlit("zero");
            reveal_strlit("ra");
            reveal_strlit("sp");
            reveal_strlit("gp");
            reveal_strlit("tp");
            reveal_strlit("t0");
            reveal_strlit("t1");
            reveal_strlit("t2");
            reveal_strlit("s0");
            reveal_strlit("s1");
            reveal_strlit("a0");
            reveal_strlit("a1");
            reveal_strlit("a2");
            reveal_strlit("a3");
            reveal_strlit("a4");
            reveal_strlit("a5");
            reveal_strlit("a6");
            reveal_strlit("a7");
            reveal_strlit("s2");
            reveal_strlit("s3");
            reveal_strlit("s4");
            reveal_strlit("s5");
            reveal_strlit("s6");
            reveal_strlit("s7");
            reveal_strlit("s8");
            reveal_strlit("s9");
            reveal_strlit("s10");
            reveal_strlit("s11");
            reveal_strlit("t3");
            reveal_strlit("t4");
            reveal_strlit("t5");
            reveal_strlit("t6");
        }
        crate::text::push_str(out, s);
    }
}

/// The instructions of the assembly program; memory is addressed by a base
/// register and an offset.
#[derive(Debug, Clone, Copy, PartialEq, Eq, Structural)]
pub enum Insn {
    Add(Register, Register, Register),
    Addi(Register, Register, i64),
    Addw(Register, Register, Register),
    Addiw(Register, Register, i32),
    Sub(Register, Register, Register),
    Subw(Register, Register, Register),
    Mul(Register, Register, Register),
    Mulw(Register, Register, Register),
    Div(Register, Register, Register),
    Divw(Register, Register, Register),
    Rem(Register, Register, Register),
    Remw(Register, Register, Register),
    Neg(Register, Register),
    Negw(Register, Register),
    Not(Register, Register),
    Seqz(Register, Register),
    Snez(Register, Register),
    Sextw(Register, Register),
    Mv(Register, Register),
    Call(StrDescriptor),
    Beq(Register, Register, LabelOperand),
    Bne(Register, Register, LabelOperand),
    J(LabelOperand),
    Label(LabelOperand),
    Ret,
    Slt(Register, Register, Register),
    Sgt(Register, Register, Register),
    Ld(Register, Register, isize),
    Lw(Register, Register, isize),
    Sd(Register, Register, isize),
    Sw(Register, Register, isize),
    Li(Register, i64),
    La(Register, StrDescriptor),
    LoadStatic(Register, StrDescriptor),
    StoreStatic(Register, StrDescriptor),
}

#[derive(Debug, Clone, Copy, PartialEq, Eq, Structural)]
pub enum LabelOperand {
    AutoGen(usize),
    Named(StrDescriptor),
}

impl LabelOperand {
    pub open spec fn spec_from_lir(label: LirLabelOperand) -> LabelOperand {
        match label {
            LirLabelOperand::AutoGen(id) => LabelOperand::AutoGen(id),
            LirLabelOperand::Named(name) => LabelOperand::Named(name),
        }
    }

    /// The same label, in the assembly program.
    pub fn from_lir(label: LirLabelOperand) -> (r: LabelOperand)
        ensures r == LabelOperand::spec_from_lir(label),
    {
        match label {
            LirLabelOperand::AutoGen(id) => LabelOperand::AutoGen(id),
            LirLabelOperand::Named(name) => LabelOperand::Named(name),
        }
    }
}

#[derive(Debug, Clone, Copy, PartialEq, Eq, Structural)]
pub struct StaticVar {
    pub name: StrDescriptor,
    pub data_type: DataType,
    pub linkage: Linkage,
    pub initializer: InitVal,
}

impl StaticVar {
    pub open spec fn spec_from_lir(var: LirStaticVar) -> StaticVar {
        StaticVar { name: var.name, data_type: var.data_type, linkage: var.linkage, initializer: var.initializer }
    }

    /// The same variable, in the assembly program.
    pub fn from_lir(var: LirStaticVar) -> (r: StaticVar)
        ensures r == StaticVar::spec_from_lir(var),
    {
        StaticVar { name: var.name, data_type: var.data_type, linkage: var.linkage, initializer: var.initializer }
    }
}

/// Initialized static variables, in the order they were added.
#[derive(Debug)]
pub struct DataSegment {
    pub items: Vec<StaticVar>,
}

/// Static variables initialized to zero, in the order they were added.
#[derive(Debug)]
pub struct BssSegment {
    pub items: Vec<StaticVar>,
}

impl DataSegment {
    pub fn new() -> (r: Self)
        ensures r.items@.len() == 0,
    {
        DataSegment { items: Vec::new() }
    }

    pub fn add(&mut self, var: StaticVar)
        ensures final(self).items@ == old(self).items@.push(var),
    {
        self.items.push(var);
    }
}

impl BssSegment {
    pub fn new() -> (r: Self)
        ensures r.items@.len() == 0,
    {
        BssSegment { items: Vec::new() }
    }

    pub fn add(&mut self, var: StaticVar)
        ensures final(self).items@ == old(self).items@.push(var),
    {
        self.items.push(var);
    }
}

#[derive(Debug)]
pub struct Function {
    pub name: StrDescriptor,
    pub func_type: FuncType,
    pub body: Vec<Insn>,
    pub linkage: Linkage,
}

#[derive(Debug)]
pub struct TopLevel {
    pub functions: Vec<Function>,
    pub data_seg: DataSegment,
    pub bss_seg: BssSegment,
    pub strtb: StringPool,
}

} // verus!
