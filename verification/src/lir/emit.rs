//! A textual listing of LIR in the syntax of RISC-V assembly, with the
//! instructions of the intermediate stages written as `prologue;` and `epilogue;`.

use vstd::prelude::*;
use crate::assembly::reg_name;
use crate::common::{Constant, InitVal, Linkage, StringPool};
use crate::text::{dec_int, dec_nat, push_int, push_nat, push_str, string_from_chars};
use super::lir::{BssSegment, DataSegment, Function, Insn, IntermediateInsn, LabelOperand, Operand, StaticVar, TopLevel};

verus! {

/// The name an operand refers to is in the pool.
pub open spec fn operand_named(o: Operand, pool: StringPool) -> bool {
    o matches Operand::Static(n) ==> pool.holds(n)
}

pub open spec fn label_named(l: LabelOperand, pool: StringPool) -> bool {
    l matches LabelOperand::Named(n) ==> pool.holds(n)
}

/// Every name an instruction refers to is in the pool.
pub open spec fn insn_named(i: Insn, pool: StringPool) -> bool {
    match i {
        Insn::Add(a, b, c) | Insn::Addw(a, b, c) | Insn::Sub(a, b, c) | Insn::Subw(a, b, c)
        | Insn::Mul(a, b, c) | Insn::Mulw(a, b, c) | Insn::Div(a, b, c) | Insn::Divw(a, b, c)
        | Insn::Rem(a, b, c) | Insn::Remw(a, b, c) | Insn::Slt(a, b, c) | Insn::Sgt(a, b, c) =>
            operand_named(a, pool) && operand_named(b, pool) && operand_named(c, pool),
        Insn::Addi(a, b, _) => operand_named(a, pool) && operand_named(b, pool),
        Insn::Addiw(a, b, _) => operand_named(a, pool) && operand_named(b, pool),
        Insn::Seqz(a, b) | Insn::Snez(a, b) | Insn::Sextw(a, b) | Insn::Lw(a, b) | Insn::Sw(a, b)
        | Insn::Ld(a, b) | Insn::Sd(a, b) | Insn::Mv(a, b) | Insn::Neg(a, b) | Insn::Negw(a, b)
        | Insn::Not(a, b) => operand_named(a, pool) && operand_named(b, pool),
        Insn::Label(l) | Insn::J(l) => label_named(l, pool),
        Insn::Beq(a, b, l) | Insn::Bne(a, b, l) => operand_named(a, pool) && operand_named(b, pool) && label_named(l, pool),
        Insn::Call(n) => pool.holds(n),
        Insn::LoadStatic(a, n) | Insn::StoreStatic(a, n) | Insn::La(a, n) => operand_named(a, pool) && pool.holds(n),
        Insn::Li(a, _) => operand_named(a, pool),
        Insn::Ret | Insn::Intermediate(_) => true,
    }
}

/// A function whose name and every instruction's names are in the pool.
pub open spec fn func_named(f: Function, pool: StringPool) -> bool {
    &&& pool.holds(f.name)
    &&& forall|k: int| 0 <= k < f.body@.len() ==> insn_named(#[trigger] f.body@[k], pool)
}

/// A variable of the data segment: its name in the pool, a sized type and a
/// constant initial value.
pub open spec fn data_item_ok(v: StaticVar, pool: StringPool) -> bool {
    pool.holds(v.name) && v.data_type.is_sized() && v.initializer is Const
}

/// A variable of the bss segment: its name in the pool and a sized type.
pub open spec fn bss_item_ok(v: StaticVar, pool: StringPool) -> bool {
    pool.holds(v.name) && v.data_type.is_sized()
}

/// A program that can be listed: every name in the pool, every static sized.
pub open spec fn program_ok(top: TopLevel) -> bool {
    &&& forall|f: int| 0 <= f < top.functions@.len() ==> func_named(#[trigger] top.functions@[f], top.strtb)
    &&& forall|k: int| 0 <= k < top.data_seg.items@.len() ==> data_item_ok(#[trigger] top.data_seg.items@[k], top.strtb)
    &&& forall|k: int| 0 <= k < top.bss_seg.items@.len() ==> bss_item_ok(#[trigger] top.bss_seg.items@[k], top.strtb)
}

pub open spec fn operand_text(o: Operand, pool: StringPool) -> Seq<char> {
    match o {
        Operand::VirtReg(id) => "v"@ + dec_nat(id as nat),
        Operand::PhysReg(r) => reg_name(r),
        Operand::Imm(c) => dec_int(c as int),
        Operand::Mem { base, offset, .. } => dec_int(offset as int) + "("@ + reg_name(base) + ")"@,
        Operand::Static(n) => pool@[n.0 as int],
    }
}

pub open spec fn label_text(l: LabelOperand, pool: StringPool) -> Seq<char> {
    match l {
        LabelOperand::AutoGen(id) => ".L"@ + dec_nat(id as nat),
        LabelOperand::Named(n) => pool@[n.0 as int],
    }
}

/// `m` followed by a tab and three operands separated by ", ".
pub open spec fn three(m: Seq<char>, a: Operand, b: Operand, c: Operand, pool: StringPool) -> Seq<char> {
    m + "\t"@ + operand_text(a, pool) + ", "@ + operand_text(b, pool) + ", "@ + operand_text(c, pool)
}

/// `m` followed by a tab and two operands separated by ", ".
pub open spec fn two(m: Seq<char>, a: Operand, b: Operand, pool: StringPool) -> Seq<char> {
    m + "\t"@ + operand_text(a, pool) + ", "@ + operand_text(b, pool)
}

/// The text of an instruction, without its indentation or line end.
pub open spec fn insn_text(i: Insn, pool: StringPool) -> Seq<char> {
    match i {
        Insn::Add(a, b, c) => three("add"@, a, b, c, pool),
        Insn::Addw(a, b, c) => three("addw"@, a, b, c, pool),
        Insn::Sub(a, b, c) => three("sub"@, a, b, c, pool),
        Insn::Subw(a, b, c) => three("subw"@, a, b, c, pool),
        Insn::Addi(a, b, imm) => two("addi"@, a, b, pool) + ", "@ + dec_int(imm as int),
        Insn::Addiw(a, b, imm) => two("addiw"@, a, b, pool) + ", "@ + dec_int(imm as int),
        Insn::Mul(a, b, c) => three("mul"@, a, b, c, pool),
        Insn::Mulw(a, b, c) => three("mulw"@, a, b, c, pool),
        Insn::Div(a, b, c) => three("div"@, a, b, c, pool),
        Insn::Divw(a, b, c) => three("divw"@, a, b, c, pool),
        Insn::Rem(a, b, c) => three("rem"@, a, b, c, pool),
        Insn::Remw(a, b, c) => three("remw"@, a, b, c, pool),
        Insn::Slt(a, b, c) => three("slt"@, a, b, c, pool),
        Insn::Sgt(a, b, c) => three("sgt"@, a, b, c, pool),
        Insn::Seqz(a, b) => two("seqz"@, a, b, pool),
        Insn::Snez(a, b) => two("snez"@, a, b, pool),
        Insn::Sextw(a, b) => two("sext.w"@, a, b, pool),
        Insn::Label(l) => label_text(l, pool) + ":"@,
        Insn::J(l) => "j\t"@ + label_text(l, pool),
        Insn::Beq(a, b, l) => two("beq"@, a, b, pool) + ", "@ + label_text(l, pool),
        Insn::Bne(a, b, l) => two("bne"@, a, b, pool) + ", "@ + label_text(l, pool),
        Insn::Call(n) => "call\t"@ + pool@[n.0 as int],
        Insn::LoadStatic(a, n) => "load_static\t"@ + operand_text(a, pool) + ", "@ + pool@[n.0 as int],
        Insn::StoreStatic(a, n) => "store_static\t"@ + operand_text(a, pool) + ", "@ + pool@[n.0 as int],
        Insn::Ret => "ret"@,
        Insn::Lw(a, b) => two("lw"@, a, b, pool),
        Insn::Sw(a, b) => two("sw"@, a, b, pool),
        Insn::Ld(a, b) => two("ld"@, a, b, pool),
        Insn::Sd(a, b) => two("sd"@, a, b, pool),
        Insn::Mv(a, b) => two("mv"@, a, b, pool),
        Insn::Li(a, imm) => "li\t"@ + operand_text(a, pool) + ", "@ + dec_int(imm as int),
        Insn::La(a, n) => "la\t"@ + operand_text(a, pool) + ", "@ + pool@[n.0 as int],
        Insn::Neg(a, b) => two("neg"@, a, b, pool),
        Insn::Negw(a, b) => two("negw"@, a, b, pool),
        Insn::Not(a, b) => two("not"@, a, b, pool),
        Insn::Intermediate(IntermediateInsn::Prologue) => "prologue;"@,
        Insn::Intermediate(IntermediateInsn::Epilogue) => "epilogue;"@,
    }
}

/// The lines of a body: labels flush left, other instructions indented.
pub open spec fn body_text(body: Seq<Insn>, pool: StringPool) -> Seq<char>
    decreases body.len(),
{
    if body.len() == 0 {
        Seq::empty()
    } else {
        let i = body.last();
        body_text(body.drop_last(), pool) + (if i is Label { Seq::empty() } else { "\t"@ }) + insn_text(i, pool) + "\n"@
    }
}

/// The listing of a function: its directives, its label and its body.
pub open spec fn func_text(f: Function, pool: StringPool) -> Seq<char> {
    let name = pool@[f.name.0 as int];
    "\t.align\t1\n"@
        + (if f.linkage is External { "\t.global\t"@ + name + "\n"@ } else { Seq::empty() })
        + "\t.type\t"@ + name + ", @function\n"@ + name + ":\n"@
        + body_text(f.body@, pool)
        + "\t.size\t"@ + name + ", .-"@ + name + "\n"@
}

pub open spec fn funcs_text(fs: Seq<Function>, pool: StringPool) -> Seq<char>
    decreases fs.len(),
{
    if fs.len() == 0 { Seq::empty() } else { funcs_text(fs.drop_last(), pool) + func_text(fs.last(), pool) }
}

/// The directives and the label shared by both kinds of static variables.
pub open spec fn object_header(v: StaticVar, pool: StringPool) -> Seq<char> {
    let name = pool@[v.name.0 as int];
    let size = dec_nat(v.data_type.spec_size() as nat);
    (if v.linkage is External { "\t.globl\t"@ + name + "\n"@ } else { Seq::empty() })
        + "\t.align\t"@ + size + "\n"@
        + "\t.type\t"@ + name + ", @object\n"@
        + "\t.size\t"@ + name + ", "@ + size + "\n"@
        + name + ":\n"@
}

/// The directive that holds an initial value.
pub open spec fn init_text(init: InitVal) -> Seq<char> {
    match init {
        InitVal::Const(Constant::Int(i)) => "\t.word\t"@ + dec_int(i as int) + "\n"@,
        InitVal::Const(Constant::Long(l)) => "\t.dword\t"@ + dec_int(l as int) + "\n"@,
        _ => Seq::empty(),
    }
}

pub open spec fn data_items_text(items: Seq<StaticVar>, pool: StringPool) -> Seq<char>
    decreases items.len(),
{
    if items.len() == 0 {
        Seq::empty()
    } else {
        data_items_text(items.drop_last(), pool) + object_header(items.last(), pool) + init_text(items.last().initializer)
    }
}

pub open spec fn bss_items_text(items: Seq<StaticVar>, pool: StringPool) -> Seq<char>
    decreases items.len(),
{
    if items.len() == 0 {
        Seq::empty()
    } else {
        let v = items.last();
        bss_items_text(items.drop_last(), pool) + object_header(v, pool)
            + "\t.zero\t"@ + dec_nat(v.data_type.spec_size() as nat) + "\n"@
    }
}

/// The data section; nothing when it holds no variable.
pub open spec fn data_text(seg: DataSegment, pool: StringPool) -> Seq<char> {
    if seg.items@.len() == 0 { Seq::empty() } else { "\t.data\n"@ + data_items_text(seg.items@, pool) }
}

/// The bss section; nothing when it holds no variable.
pub open spec fn bss_text(seg: BssSegment, pool: StringPool) -> Seq<char> {
    if seg.items@.len() == 0 { Seq::empty() } else { "\t.bss\n"@ + bss_items_text(seg.items@, pool) }
}

pub open spec fn code_text(fs: Seq<Function>, pool: StringPool) -> Seq<char> {
    "\t.text\n"@ + funcs_text(fs, pool)
}

/// The listing of a program: the code, then the data and bss sections.
pub open spec fn program_text(top: TopLevel) -> Seq<char> {
    code_text(top.functions@, top.strtb) + data_text(top.data_seg, top.strtb) + bss_text(top.bss_seg, top.strtb)
}

impl TopLevel {
    /// The listing of the whole program.
    pub fn emit(&self) -> (r: String)
        requires program_ok(*self),
        ensures r@ == program_text(*self),
    {
        let mut out: Vec<char> = Vec::new();
        self.push_code(&mut out);
        self.push_data(&mut out);
        self.push_bss(&mut out);
        proof { assert(out@ =~= program_text(*self)); }
        string_from_chars(&out)
    }

    /// The data section.
    pub fn emit_data(&self) -> (r: String)
        requires program_ok(*self),
        ensures r@ == data_text(self.data_seg, self.strtb),
    {
        let mut out: Vec<char> = Vec::new();
        self.push_data(&mut out);
        proof { assert(out@ =~= data_text(self.data_seg, self.strtb)); }
        string_from_chars(&out)
    }

    /// The bss section.
    pub fn emit_bss(&self) -> (r: String)
        requires program_ok(*self),
        ensures r@ == bss_text(self.bss_seg, self.strtb),
    {
        let mut out: Vec<char> = Vec::new();
        self.push_bss(&mut out);
        proof { assert(out@ =~= bss_text(self.bss_seg, self.strtb)); }
        string_from_chars(&out)
    }

    /// The text section with every function.
    pub fn emit_code(&self) -> (r: String)
        requires program_ok(*self),
        ensures r@ == code_text(self.functions@, self.strtb),
    {
        let mut out: Vec<char> = Vec::new();
        self.push_code(&mut out);
        proof { assert(out@ =~= code_text(self.functions@, self.strtb)); }
        string_from_chars(&out)
    }

    /// The listing of one function.
    pub fn emit_func(&self, func: &Function) -> (r: String)
        requires func_named(*func, self.strtb),
        ensures r@ == func_text(*func, self.strtb),
    {
        let mut out: Vec<char> = Vec::new();
        self.push_func(func, &mut out);
        proof { assert(out@ =~= func_text(*func, self.strtb)); }
        string_from_chars(&out)
    }

    /// The text of one instruction.
    pub fn emit_insn(&self, insn: &Insn) -> (r: String)
        requires insn_named(*insn, self.strtb),
        ensures r@ == insn_text(*insn, self.strtb),
    {
        let mut out: Vec<char> = Vec::new();
        self.push_insn(insn, &mut out);
        proof { assert(out@ =~= insn_text(*insn, self.strtb)); }
        string_from_chars(&out)
    }

    /// The text of one operand.
    pub fn emit_operand(&self, operand: &Operand) -> (r: String)
        requires operand_named(*operand, self.strtb),
        ensures r@ == operand_text(*operand, self.strtb),
    {
        let mut out: Vec<char> = Vec::new();
        self.push_operand(operand, &mut out);
        proof { assert(out@ =~= operand_text(*operand, self.strtb)); }
        string_from_chars(&out)
    }

    /// The text of one label.
    pub fn emit_label_operand(&self, label: &LabelOperand) -> (r: String)
        requires label_named(*label, self.strtb),
        ensures r@ == label_text(*label, self.strtb),
    {
        let mut out: Vec<char> = Vec::new();
        self.push_label(label, &mut out);
        proof { assert(out@ =~= label_text(*label, self.strtb)); }
        string_from_chars(&out)
    }

    fn push_code(&self, out: &mut Vec<char>)
        requires program_ok(*self),
        ensures final(out)@ == old(out)@ + code_text(self.functions@, self.strtb),
    {
        let ghost start = out@;
        push_str(out, "\t.text\n");
        let ghost header = out@;
        let mut i: usize = 0;
        while i < self.functions.len()
            invariant
                i <= self.functions@.len(),
                program_ok(*self),
                header == start + "\t.text\n"@,
                out@ == header + funcs_text(self.functions@.subrange(0, i as int), self.strtb),
            decreases self.functions@.len() - i,
        {
            proof { assert(self.functions@.subrange(0, i as int + 1).drop_last() =~= self.functions@.subrange(0, i as int)); }
            self.push_func(&self.functions[i], out);
            i = i + 1;
        }
        proof {
            assert(self.functions@.subrange(0, i as int) =~= self.functions@);
            assert(out@ =~= start + code_text(self.functions@, self.strtb));
        }
    }

    fn push_data(&self, out: &mut Vec<char>)
        requires program_ok(*self),
        ensures final(out)@ == old(out)@ + data_text(self.data_seg, self.strtb),
    {
        let ghost start = out@;
        let items = &self.data_seg.items;
        if items.len() == 0 {
            proof { assert(out@ =~= start + data_text(self.data_seg, self.strtb)); }
            return;
        }
        push_str(out, "\t.data\n");
        let ghost header = out@;
        let mut i: usize = 0;
        while i < items.len()
            invariant
                i <= items@.len(),
                items == &self.data_seg.items,
                program_ok(*self),
                out@ == header + data_items_text(items@.subrange(0, i as int), self.strtb),
            decreases items@.len() - i,
        {
            proof { assert(items@.subrange(0, i as int + 1).drop_last() =~= items@.subrange(0, i as int)); }
            let v = &items[i];
            proof { assert(data_item_ok(*v, self.strtb)); }
            self.push_object_header(v, out);
            match v.initializer {
                InitVal::Const(Constant::Int(x)) => {
                    push_str(out, "\t.word\t");
                    push_int(out, x as i64);
                    push_str(out, "\n");
                },
                InitVal::Const(Constant::Long(x)) => {
                    push_str(out, "\t.dword\t");
                    push_int(out, x);
                    push_str(out, "\n");
                },
                _ => {},
            }
            proof {
                let s = items@.subrange(0, i as int + 1);
                assert(s.last() == items@[i as int]);
                assert(out@ =~= header + data_items_text(s, self.strtb));
            }
            i = i + 1;
        }
        proof {
            assert(items@.subrange(0, i as int) =~= items@);
            assert(out@ =~= start + data_text(self.data_seg, self.strtb));
        }
    }

    fn push_bss(&self, out: &mut Vec<char>)
        requires program_ok(*self),
        ensures final(out)@ == old(out)@ + bss_text(self.bss_seg, self.strtb),
    {
        let ghost start = out@;
        let items = &self.bss_seg.items;
        if items.len() == 0 {
            proof { assert(out@ =~= start + bss_text(self.bss_seg, self.strtb)); }
            return;
        }
        push_str(out, "\t.bss\n");
        let ghost header = out@;
        let mut i: usize = 0;
        while i < items.len()
            invariant
                i <= items@.len(),
                items == &self.bss_seg.items,
                program_ok(*self),
                out@ == header + bss_items_text(items@.subrange(0, i as int), self.strtb),
            decreases items@.len() - i,
        {
            proof { assert(items@.subrange(0, i as int + 1).drop_last() =~= items@.subrange(0, i as int)); }
            let v = &items[i];
            proof { assert(bss_item_ok(*v, self.strtb)); }
            self.push_object_header(v, out);
            push_str(out, "\t.zero\t");
            push_nat(out, v.data_type.size() as u64);
            push_str(out, "\n");
            proof {
                let s = items@.subrange(0, i as int + 1);
                assert(s.last() == items@[i as int]);
                assert(out@ =~= header + bss_items_text(s, self.strtb));
            }
            i = i + 1;
        }
        proof {
            assert(items@.subrange(0, i as int) =~= items@);
            assert(out@ =~= start + bss_text(self.bss_seg, self.strtb));
        }
    }

    #[verifier::rlimit(50)]
    fn push_object_header(&self, v: &StaticVar, out: &mut Vec<char>)
        requires self.strtb.holds(v.name), v.data_type.is_sized(),
        ensures final(out)@ == old(out)@ + object_header(*v, self.strtb),
    {
        let ghost start = out@;
        let size = v.data_type.size() as u64;
        if let Linkage::External = v.linkage {
            push_str(out, "\t.globl\t");
            self.strtb.push_name(v.name, out);
            push_str(out, "\n");
        }
        push_str(out, "\t.align\t");
        push_nat(out, v.data_type.align() as u64);
        push_str(out, "\n");
        push_str(out, "\t.type\t");
        self.strtb.push_name(v.name, out);
        push_str(out, ", @object\n");
        push_str(out, "\t.size\t");
        self.strtb.push_name(v.name, out);
        push_str(out, ", ");
        push_nat(out, size);
        push_str(out, "\n");
        self.strtb.push_name(v.name, out);
        push_str(out, ":\n");
        proof { assert(out@ =~= start + object_header(*v, self.strtb)); }
    }

    fn push_func(&self, func: &Function, out: &mut Vec<char>)
        requires func_named(*func, self.strtb),
        ensures final(out)@ == old(out)@ + func_text(*func, self.strtb),
    {
        let ghost start = out@;
        let name = func.name;
        push_str(out, "\t.align\t1\n");
        if let Linkage::External = func.linkage {
            push_str(out, "\t.global\t");
            self.strtb.push_name(name, out);
            push_str(out, "\n");
        }
        push_str(out, "\t.type\t");
        self.strtb.push_name(name, out);
        push_str(out, ", @function\n");
        self.strtb.push_name(name, out);
        push_str(out, ":\n");
        let ghost header = out@;
        let body = &func.body;
        let mut i: usize = 0;
        while i < body.len()
            invariant
                i <= body@.len(),
                body == &func.body,
                func_named(*func, self.strtb),
                out@ == header + body_text(body@.subrange(0, i as int), self.strtb),
            decreases body@.len() - i,
        {
            proof { assert(body@.subrange(0, i as int + 1).drop_last() =~= body@.subrange(0, i as int)); }
            let insn = &body[i];
            proof { assert(insn_named(*insn, self.strtb)); }
            match insn {
                Insn::Label(_) => {},
                _ => push_str(out, "\t"),
            }
            self.push_insn(insn, out);
            push_str(out, "\n");
            proof {
                let b = body@.subrange(0, i as int + 1);
                assert(b.last() == body@[i as int]);
                assert(out@ =~= header + body_text(b, self.strtb));
            }
            i = i + 1;
        }
        proof { assert(body@.subrange(0, i as int) =~= body@); }
        push_str(out, "\t.size\t");
        self.strtb.push_name(name, out);
        push_str(out, ", .-");
        self.strtb.push_name(name, out);
        push_str(out, "\n");
        proof { assert(out@ =~= start + func_text(*func, self.strtb)); }
    }

    fn push_operand(&self, operand: &Operand, out: &mut Vec<char>)
        requires operand_named(*operand, self.strtb),
        ensures final(out)@ == old(out)@ + operand_text(*operand, self.strtb),
    {
        let ghost start = out@;
        match operand {
            Operand::VirtReg(id) => {
                push_str(out, "v");
                push_nat(out, *id as u64);
            },
            Operand::PhysReg(r) => r.push_name(out),
            Operand::Imm(c) => push_int(out, *c),
            Operand::Mem { base, offset, .. } => {
                push_int(out, *offset as i64);
                push_str(out, "(");
                base.push_name(out);
                push_str(out, ")");
            },
            Operand::Static(n) => self.strtb.push_name(*n, out),
        }
        proof { assert(out@ =~= start + operand_text(*operand, self.strtb)); }
    }

    fn push_label(&self, label: &LabelOperand, out: &mut Vec<char>)
        requires label_named(*label, self.strtb),
        ensures final(out)@ == old(out)@ + label_text(*label, self.strtb),
    {
        let ghost start = out@;
        match label {
            LabelOperand::AutoGen(id) => {
                push_str(out, ".L");
                push_nat(out, *id as u64);
            },
            LabelOperand::Named(n) => self.strtb.push_name(*n, out),
        }
        proof { assert(out@ =~= start + label_text(*label, self.strtb)); }
    }

    fn push_two(&self, m: &str, a: &Operand, b: &Operand, out: &mut Vec<char>)
        requires operand_named(*a, self.strtb), operand_named(*b, self.strtb),
        ensures final(out)@ == old(out)@ + two(m@, *a, *b, self.strtb),
    {
        let ghost start = out@;
        push_str(out, m);
        push_str(out, "\t");
        self.push_operand(a, out);
        push_str(out, ", ");
        self.push_operand(b, out);
        proof { assert(out@ =~= start + two(m@, *a, *b, self.strtb)); }
    }

    fn push_three(&self, m: &str, a: &Operand, b: &Operand, c: &Operand, out: &mut Vec<char>)
        requires operand_named(*a, self.strtb), operand_named(*b, self.strtb), operand_named(*c, self.strtb),
        ensures final(out)@ == old(out)@ + three(m@, *a, *b, *c, self.strtb),
    {
        let ghost start = out@;
        self.push_two(m, a, b, out);
        push_str(out, ", ");
        self.push_operand(c, out);
        proof { assert(out@ =~= start + three(m@, *a, *b, *c, self.strtb)); }
    }

    #[verifier::rlimit(60)]
    fn push_insn(&self, insn: &Insn, out: &mut Vec<char>)
        requires insn_named(*insn, self.strtb),
        ensures final(out)@ == old(out)@ + insn_text(*insn, self.strtb),
    {
        let ghost start = out@;
        match insn {
            Insn::Add(a, b, c) => self.push_three("add", a, b, c, out),
            Insn::Addw(a, b, c) => self.push_three("addw", a, b, c, out),
            Insn::Sub(a, b, c) => self.push_three("sub", a, b, c, out),
            Insn::Subw(a, b, c) => self.push_three("subw", a, b, c, out),
            Insn::Addi(a, b, imm) => {
                self.push_two("addi", a, b, out);
                push_str(out, ", ");
                push_int(out, *imm);
            },
            Insn::Addiw(a, b, imm) => {
                self.push_two("addiw", a, b, out);
                push_str(out, ", ");
                push_int(out, *imm as i64);
            },
            Insn::Mul(a, b, c) => self.push_three("mul", a, b, c, out),
            Insn::Mulw(a, b, c) => self.push_three("mulw", a, b, c, out),
            Insn::Div(a, b, c) => self.push_three("div", a, b, c, out),
            Insn::Divw(a, b, c) => self.push_three("divw", a, b, c, out),
            Insn::Rem(a, b, c) => self.push_three("rem", a, b, c, out),
            Insn::Remw(a, b, c) => self.push_three("remw", a, b, c, out),
            Insn::Slt(a, b, c) => self.push_three("slt", a, b, c, out),
            Insn::Sgt(a, b, c) => self.push_three("sgt", a, b, c, out),
            Insn::Seqz(a, b) => self.push_two("seqz", a, b, out),
            Insn::Snez(a, b) => self.push_two("snez", a, b, out),
            Insn::Sextw(a, b) => self.push_two("sext.w", a, b, out),
            Insn::Label(l) => {
                self.push_label(l, out);
                push_str(out, ":");
            },
            Insn::J(l) => {
                push_str(out, "j\t");
                self.push_label(l, out);
            },
            Insn::Beq(a, b, l) => {
                self.push_two("beq", a, b, out);
                push_str(out, ", ");
                self.push_label(l, out);
            },
            Insn::Bne(a, b, l) => {
                self.push_two("bne", a, b, out);
                push_str(out, ", ");
                self.push_label(l, out);
            },
            Insn::Call(n) => {
                push_str(out, "call\t");
                self.strtb.push_name(*n, out);
            },
            Insn::LoadStatic(a, n) => {
                push_str(out, "load_static\t");
                self.push_operand(a, out);
                push_str(out, ", ");
                self.strtb.push_name(*n, out);
            },
            Insn::StoreStatic(a, n) => {
                push_str(out, "store_static\t");
                self.push_operand(a, out);
                push_str(out, ", ");
                self.strtb.push_name(*n, out);
            },
            Insn::Ret => push_str(out, "ret"),
            Insn::Lw(a, b) => self.push_two("lw", a, b, out),
            Insn::Sw(a, b) => self.push_two("sw", a, b, out),
            Insn::Ld(a, b) => self.push_two("ld", a, b, out),
            Insn::Sd(a, b) => self.push_two("sd", a, b, out),
            Insn::Mv(a, b) => self.push_two("mv", a, b, out),
            Insn::Li(a, imm) => {
                push_str(out, "li\t");
                self.push_operand(a, out);
                push_str(out, ", ");
                push_int(out, *imm);
            },
            Insn::La(a, n) => {
                push_str(out, "la\t");
                self.push_operand(a, out);
                push_str(out, ", ");
                self.strtb.push_name(*n, out);
            },
            Insn::Neg(a, b) => self.push_two("neg", a, b, out),
            Insn::Negw(a, b) => self.push_two("negw", a, b, out),
            Insn::Not(a, b) => self.push_two("not", a, b, out),
            Insn::Intermediate(IntermediateInsn::Prologue) => push_str(out, "prologue;"),
            Insn::Intermediate(IntermediateInsn::Epilogue) => push_str(out, "epilogue;"),
        }
        proof { assert(out@ =~= start + insn_text(*insn, self.strtb)); }
    }
}

} // verus!
