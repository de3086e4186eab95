//! The text of an assembly program, for a RISC-V assembler.

use vstd::prelude::*;
use crate::common::{Constant, InitVal, Linkage, StrDescriptor, StringPool};
use crate::text::{dec_int, dec_nat, push_int, push_nat, push_str, string_from_chars};
use super::riscv::{reg_name, BssSegment, DataSegment, Function, Insn, LabelOperand, Register, StaticVar, TopLevel};

verus! {

/// The first variable of `items` with the given name.
pub open spec fn first_named(items: Seq<StaticVar>, name: StrDescriptor) -> Option<StaticVar>
    decreases items.len(),
{
    if items.len() == 0 {
        None
    } else if items[0].name == name {
        Some(items[0])
    } else {
        first_named(items.subrange(1, items.len() as int), name)
    }
}

/// The static variable of a name: from the data section, else from the bss section.
pub open spec fn static_of(top: TopLevel, name: StrDescriptor) -> Option<StaticVar> {
    match first_named(top.data_seg.items@, name) {
        Some(v) => Some(v),
        None => first_named(top.bss_seg.items@, name),
    }
}

/// Labels are numbered by now.
pub open spec fn label_ok(l: LabelOperand) -> bool {
    l is AutoGen
}

/// A static variable that an access names: known, with a name in the pool and a sized type.
pub open spec fn static_ok(top: TopLevel, name: StrDescriptor) -> bool {
    static_of(top, name) matches Some(v) && top.strtb.holds(v.name) && v.data_type.is_sized()
}

/// An instruction that can be listed in the program `top`.
pub open spec fn insn_ok(top: TopLevel, i: Insn) -> bool {
    match i {
        Insn::Label(l) | Insn::J(l) | Insn::Beq(_, _, l) | Insn::Bne(_, _, l) => label_ok(l),
        Insn::Call(n) | Insn::La(_, n) => top.strtb.holds(n),
        Insn::LoadStatic(_, n) | Insn::StoreStatic(_, n) => static_ok(top, n),
        _ => true,
    }
}

pub open spec fn func_ok(top: TopLevel, f: Function) -> bool {
    &&& top.strtb.holds(f.name)
    &&& forall|k: int| 0 <= k < f.body@.len() ==> insn_ok(top, #[trigger] f.body@[k])
}

/// A program that can be listed.
pub open spec fn program_ok(top: TopLevel) -> bool {
    &&& forall|f: int| 0 <= f < top.functions@.len() ==> func_ok(top, #[trigger] top.functions@[f])
    &&& forall|k: int| 0 <= k < top.data_seg.items@.len() ==> {
        let v = #[trigger] top.data_seg.items@[k];
        top.strtb.holds(v.name) && v.data_type.is_sized() && v.initializer is Const
    }
    &&& forall|k: int| 0 <= k < top.bss_seg.items@.len() ==> {
        let v = #[trigger] top.bss_seg.items@[k];
        top.strtb.holds(v.name) && v.data_type.is_sized()
    }
}

pub open spec fn label_text(l: LabelOperand) -> Seq<char> {
    ".L"@ + dec_nat(l->AutoGen_0 as nat)
}

pub open spec fn r3(m: Seq<char>, a: Register, b: Register, c: Register) -> Seq<char> {
    m + "\t"@ + reg_name(a) + ", "@ + reg_name(b) + ", "@ + reg_name(c)
}

pub open spec fn r2(m: Seq<char>, a: Register, b: Register) -> Seq<char> {
    m + "\t"@ + reg_name(a) + ", "@ + reg_name(b)
}

/// A load or store: `m rd, offset(base)`.
pub open spec fn mem_text(m: Seq<char>, a: Register, base: Register, offset: isize) -> Seq<char> {
    m + "\t"@ + reg_name(a) + ", "@ + dec_int(offset as int) + "("@ + reg_name(base) + ")"@
}

/// An access to a static variable through `t5`: the upper bits of the
/// address, then the access with the lower bits.
pub open spec fn static_text(m4: Seq<char>, m8: Seq<char>, a: Register, v: StaticVar, pool: StringPool) -> Seq<char> {
    let name = pool@[v.name.0 as int];
    "lui\tt5, %hi("@ + name + ")\n"@ + "\t"@
        + (if v.data_type.spec_size() == 4 { m4 } else { m8 }) + "\t"@ + reg_name(a) + ", %lo("@ + name + ")(t5)\n"@
}

/// The text of an instruction, without its indentation or line end; an access
/// to a static variable takes two lines and keeps the break after its second.
pub open spec fn insn_text(top: TopLevel, i: Insn) -> Seq<char> {
    let pool = top.strtb;
    match i {
        Insn::Add(a, b, c) => r3("add"@, a, b, c),
        Insn::Addw(a, b, c) => r3("addw"@, a, b, c),
        Insn::Addi(a, b, imm) => r2("addi"@, a, b) + ", "@ + dec_int(imm as int),
        Insn::Addiw(a, b, imm) => r2("addiw"@, a, b) + ", "@ + dec_int(imm as int),
        Insn::Sub(a, b, c) => r3("sub"@, a, b, c),
        Insn::Subw(a, b, c) => r3("subw"@, a, b, c),
        Insn::Mul(a, b, c) => r3("mul"@, a, b, c),
        Insn::Mulw(a, b, c) => r3("mulw"@, a, b, c),
        Insn::Div(a, b, c) => r3("div"@, a, b, c),
        Insn::Divw(a, b, c) => r3("divw"@, a, b, c),
        Insn::Rem(a, b, c) => r3("rem"@, a, b, c),
        Insn::Remw(a, b, c) => r3("remw"@, a, b, c),
        Insn::Slt(a, b, c) => r3("slt"@, a, b, c),
        Insn::Sgt(a, b, c) => r3("sgt"@, a, b, c),
        Insn::Seqz(a, b) => r2("seqz"@, a, b),
        Insn::Snez(a, b) => r2("snez"@, a, b),
        Insn::Sextw(a, b) => r2("sext.w"@, a, b),
        Insn::Mv(a, b) => r2("mv"@, a, b),
        Insn::Neg(a, b) => r2("neg"@, a, b),
        Insn::Negw(a, b) => r2("negw"@, a, b),
        Insn::Not(a, b) => r2("not"@, a, b),
        Insn::Call(n) => "call\t"@ + pool@[n.0 as int],
        Insn::Beq(a, b, l) => r2("beq"@, a, b) + ", "@ + label_text(l),
        Insn::Bne(a, b, l) => r2("bne"@, a, b) + ", "@ + label_text(l),
        Insn::J(l) => "j\t"@ + label_text(l),
        Insn::Label(l) => label_text(l) + ":"@,
        Insn::Ret => "ret"@,
        Insn::Ld(a, base, offset) => mem_text("ld"@, a, base, offset),
        Insn::Lw(a, base, offset) => mem_text("lw"@, a, base, offset),
        Insn::Sd(a, base, offset) => mem_text("sd"@, a, base, offset),
        Insn::Sw(a, base, offset) => mem_text("sw"@, a, base, offset),
        Insn::Li(a, imm) => "li\t"@ + reg_name(a) + ", "@ + dec_int(imm as int),
        Insn::La(a, n) => "la\t"@ + reg_name(a) + ", "@ + pool@[n.0 as int],
        Insn::LoadStatic(a, n) => static_text("lw"@, "ld"@, a, static_of(top, n)->0, pool),
        Insn::StoreStatic(a, n) => static_text("sw"@, "sd"@, a, static_of(top, n)->0, pool),
    }
}

/// The lines of a body: labels flush left, other instructions indented.
pub open spec fn body_text(top: TopLevel, body: Seq<Insn>) -> Seq<char>
    decreases body.len(),
{
    if body.len() == 0 {
        Seq::empty()
    } else {
        let i = body.last();
        body_text(top, body.drop_last()) + (if i is Label { Seq::empty() } else { "\t"@ }) + insn_text(top, i) + "\n"@
    }
}

/// The listing of a function, followed by an empty line.
pub open spec fn func_text(top: TopLevel, f: Function) -> Seq<char> {
    let name = top.strtb@[f.name.0 as int];
    "\t.align\t1\n"@
        + (if f.linkage is External { "\t.globl\t"@ + name + "\n"@ } else { Seq::empty() })
        + "\t.type\t"@ + name + ", @function\n"@ + name + ":\n"@
        + body_text(top, f.body@)
        + "\t.size\t"@ + name + ", .-"@ + name + "\n\n"@
}

pub open spec fn funcs_text(top: TopLevel, fs: Seq<Function>) -> Seq<char>
    decreases fs.len(),
{
    if fs.len() == 0 { Seq::empty() } else { funcs_text(top, fs.drop_last()) + func_text(top, fs.last()) }
}

pub open spec fn code_text(top: TopLevel) -> Seq<char> {
    "\t.text\n"@ + funcs_text(top, top.functions@)
}

/// The directives and the label shared by both kinds of static variables.
pub open spec fn object_header(v: StaticVar, pool: StringPool) -> Seq<char> {
    let name = pool@[v.name.0 as int];
    let size = dec_nat(v.data_type.spec_size() as nat);
    (if v.linkage is External { "\t.globl\t"@ + name + "\n"@ } else { Seq::empty() })
        + "\t.align\t"@ + size + "\n"@
        + "\t.type\t"@ + name + ", @object\n"@
        + "\t.size\t"@ + name + ", "@ + size + "\n"@
        + name + ":\n"@
}

pub open spec fn init_text(init: InitVal) -> Seq<char> {
    match init {
        InitVal::Const(Constant::Int(i)) => "\t.word\t"@ + dec_int(i as int) + "\n"@,
        InitVal::Const(Constant::Long(l)) => "\t.dword\t"@ + dec_int(l as int) + "\n"@,
        _ => Seq::empty(),
    }
}

pub open spec fn data_items_text(items: Seq<StaticVar>, pool: StringPool) -> Seq<char>
    decreases items.len(),
{
    if items.len() == 0 {
        Seq::empty()
    } else {
        data_items_text(items.drop_last(), pool) + object_header(items.last(), pool) + init_text(items.last().initializer)
    }
}

pub open spec fn bss_items_text(items: Seq<StaticVar>, pool: StringPool) -> Seq<char>
    decreases items.len(),
{
    if items.len() == 0 {
        Seq::empty()
    } else {
        let v = items.last();
        bss_items_text(items.drop_last(), pool) + object_header(v, pool)
            + "\t.zero\t"@ + dec_nat(v.data_type.spec_size() as nat) + "\n"@
    }
}

/// The data section and an empty line; nothing when it holds no variable.
pub open spec fn data_text(seg: DataSegment, pool: StringPool) -> Seq<char> {
    if seg.items@.len() == 0 { Seq::empty() } else { "\t.data\n"@ + data_items_text(seg.items@, pool) + "\n"@ }
}

/// The bss section and an empty line; nothing when it holds no variable.
pub open spec fn bss_text(seg: BssSegment, pool: StringPool) -> Seq<char> {
    if seg.items@.len() == 0 { Seq::empty() } else { "\t.bss\n"@ + bss_items_text(seg.items@, pool) + "\n"@ }
}

/// The text of a program: the code, then the data and bss sections.
pub open spec fn program_text(top: TopLevel) -> Seq<char> {
    code_text(top) + data_text(top.data_seg, top.strtb) + bss_text(top.bss_seg, top.strtb)
}

/// The first variable of `items` with the given name, searching from the front.
fn find_named(items: &Vec<StaticVar>, name: StrDescriptor) -> (r: Option<StaticVar>)
    ensures r == first_named(items@, name),
{
    let mut i: usize = 0;
    proof { assert(items@.subrange(0, items@.len() as int) =~= items@); }
    while i < items.len()
        invariant
            i <= items@.len(),
            first_named(items@, name) == first_named(items@.subrange(i as int, items@.len() as int), name),
        decreases items@.len() - i,
    {
        let ghost s = items@.subrange(i as int, items@.len() as int);
        proof { assert(s.subrange(1, s.len() as int) =~= items@.subrange(i as int + 1, items@.len() as int)); }
        if items[i].name == name {
            return Some(items[i]);
        }
        i = i + 1;
    }
    None
}

impl TopLevel {
    /// The whole program.
    pub fn emit(&self) -> (r: String)
        requires program_ok(*self),
        ensures r@ == program_text(*self),
    {
        let mut out: Vec<char> = Vec::new();
        self.push_code(&mut out);
        self.push_data(&mut out);
        self.push_bss(&mut out);
        proof { assert(out@ =~= program_text(*self)); }
        string_from_chars(&out)
    }

    /// The data section.
    pub fn emit_data(&self) -> (r: String)
        requires program_ok(*self),
        ensures r@ == data_text(self.data_seg, self.strtb),
    {
        let mut out: Vec<char> = Vec::new();
        self.push_data(&mut out);
        proof { assert(out@ =~= data_text(self.data_seg, self.strtb)); }
        string_from_chars(&out)
    }

    /// The bss section.
    pub fn emit_bss(&self) -> (r: String)
        requires program_ok(*self),
        ensures r@ == bss_text(self.bss_seg, self.strtb),
    {
        let mut out: Vec<char> = Vec::new();
        self.push_bss(&mut out);
        proof { assert(out@ =~= bss_text(self.bss_seg, self.strtb)); }
        string_from_chars(&out)
    }

    /// The text section with every function.
    pub fn emit_code(&self) -> (r: String)
        requires program_ok(*self),
        ensures r@ == code_text(*self),
    {
        let mut out: Vec<char> = Vec::new();
        self.push_code(&mut out);
        proof { assert(out@ =~= code_text(*self)); }
        string_from_chars(&out)
    }

    /// One function.
    pub fn emit_func(&self, func: &Function) -> (r: String)
        requires func_ok(*self, *func),
        ensures r@ == func_text(*self, *func),
    {
        let mut out: Vec<char> = Vec::new();
        self.push_func(func, &mut out);
        proof { assert(out@ =~= func_text(*self, *func)); }
        string_from_chars(&out)
    }

    /// One instruction.
    pub fn emit_insn(&self, insn: &Insn) -> (r: String)
        requires insn_ok(*self, *insn),
        ensures r@ == insn_text(*self, *insn),
    {
        let mut out: Vec<char> = Vec::new();
        self.push_insn(insn, &mut out);
        proof { assert(out@ =~= insn_text(*self, *insn)); }
        string_from_chars(&out)
    }

    /// One label; labels are numbered by now.
    pub fn emit_label_operand(&self, label: &LabelOperand) -> (r: String)
        requires label_ok(*label),
        ensures r@ == label_text(*label),
    {
        let mut out: Vec<char> = Vec::new();
        push_label(label, &mut out);
        proof { assert(out@ =~= label_text(*label)); }
        string_from_chars(&out)
    }

    fn push_code(&self, out: &mut Vec<char>)
        requires program_ok(*self),
        ensures final(out)@ == old(out)@ + code_text(*self),
    {
        let ghost start = out@;
        push_str(out, "\t.text\n");
        let ghost header = out@;
        let mut i: usize = 0;
        while i < self.functions.len()
            invariant
                i <= self.functions@.len(),
                program_ok(*self),
                header == start + "\t.text\n"@,
                out@ == header + funcs_text(*self, self.functions@.subrange(0, i as int)),
            decreases self.functions@.len() - i,
        {
            proof { assert(self.functions@.subrange(0, i as int + 1).drop_last() =~= self.functions@.subrange(0, i as int)); }
            self.push_func(&self.functions[i], out);
            i = i + 1;
        }
        proof {
            assert(self.functions@.subrange(0, i as int) =~= self.functions@);
            assert(out@ =~= start + code_text(*self));
        }
    }

    fn push_data(&self, out: &mut Vec<char>)
        requires program_ok(*self),
        ensures final(out)@ == old(out)@ + data_text(self.data_seg, self.strtb),
    {
        let ghost start = out@;
        let items = &self.data_seg.items;
        if items.len() == 0 {
            proof { assert(out@ =~= start + data_text(self.data_seg, self.strtb)); }
            return;
        }
        push_str(out, "\t.data\n");
        let ghost header = out@;
        let mut i: usize = 0;
        while i < items.len()
            invariant
                i <= items@.len(),
                items == &self.data_seg.items,
                program_ok(*self),
                out@ == header + data_items_text(items@.subrange(0, i as int), self.strtb),
            decreases items@.len() - i,
        {
            proof { assert(items@.subrange(0, i as int + 1).drop_last() =~= items@.subrange(0, i as int)); }
            let v = &items[i];
            proof { assert(self.strtb.holds(v.name) && v.data_type.is_sized()); }
            self.push_object_header(v, out);
            match v.initializer {
                InitVal::Const(Constant::Int(x)) => {
                    push_str(out, "\t.word\t");
                    push_int(out, x as i64);
                    push_str(out, "\n");
                },
                InitVal::Const(Constant::Long(x)) => {
                    push_str(out, "\t.dword\t");
                    push_int(out, x);
                    push_str(out, "\n");
                },
                _ => {},
            }
            proof {
                let s = items@.subrange(0, i as int + 1);
                assert(s.last() == items@[i as int]);
                assert(out@ =~= header + data_items_text(s, self.strtb));
            }
            i = i + 1;
        }
        push_str(out, "\n");
        proof {
            assert(items@.subrange(0, i as int) =~= items@);
            assert(out@ =~= start + data_text(self.data_seg, self.strtb));
        }
    }

    fn push_bss(&self, out: &mut Vec<char>)
        requires program_ok(*self),
        ensures final(out)@ == old(out)@ + bss_text(self.bss_seg, self.strtb),
    {
        let ghost start = out@;
        let items = &self.bss_seg.items;
        if items.len() == 0 {
            proof { assert(out@ =~= start + bss_text(self.bss_seg, self.strtb)); }
            return;
        }
        push_str(out, "\t.bss\n");
        let ghost header = out@;
        let mut i: usize = 0;
        while i < items.len()
            invariant
                i <= items@.len(),
                items == &self.bss_seg.items,
                program_ok(*self),
                out@ == header + bss_items_text(items@.subrange(0, i as int), self.strtb),
            decreases items@.len() - i,
        {
            proof { assert(items@.subrange(0, i as int + 1).drop_last() =~= items@.subrange(0, i as int)); }
            let v = &items[i];
            proof { assert(self.strtb.holds(v.name) && v.data_type.is_sized()); }
            self.push_object_header(v, out);
            push_str(out, "\t.zero\t");
            push_nat(out, v.data_type.size() as u64);
            push_str(out, "\n");
            proof {
                let s = items@.subrange(0, i as int + 1);
                assert(s.last() == items@[i as int]);
                assert(out@ =~= header + bss_items_text(s, self.strtb));
            }
            i = i + 1;
        }
        push_str(out, "\n");
        proof {
            assert(items@.subrange(0, i as int) =~= items@);
            assert(out@ =~= start + bss_text(self.bss_seg, self.strtb));
        }
    }

    #[verifier::rlimit(50)]
    fn push_object_header(&self, v: &StaticVar, out: &mut Vec<char>)
        requires self.strtb.holds(v.name), v.data_type.is_sized(),
        ensures final(out)@ == old(out)@ + object_header(*v, self.strtb),
    {
        let ghost start = out@;
        let size = v.data_type.size() as u64;
        if let Linkage::External = v.linkage {
            push_str(out, "\t.globl\t");
            self.strtb.push_name(v.name, out);
            push_str(out, "\n");
        }
        push_str(out, "\t.align\t");
        push_nat(out, v.data_type.align() as u64);
        push_str(out, "\n");
        push_str(out, "\t.type\t");
        self.strtb.push_name(v.name, out);
        push_str(out, ", @object\n");
        push_str(out, "\t.size\t");
        self.strtb.push_name(v.name, out);
        push_str(out, ", ");
        push_nat(out, size);
        push_str(out, "\n");
        self.strtb.push_name(v.name, out);
        push_str(out, ":\n");
        proof { assert(out@ =~= start + object_header(*v, self.strtb)); }
    }

    fn push_func(&self, func: &Function, out: &mut Vec<char>)
        requires func_ok(*self, *func),
        ensures final(out)@ == old(out)@ + func_text(*self, *func),
    {
        let ghost start = out@;
        let name = func.name;
        push_str(out, "\t.align\t1\n");
        if let Linkage::External = func.linkage {
            push_str(out, "\t.globl\t");
            self.strtb.push_name(name, out);
            push_str(out, "\n");
        }
        push_str(out, "\t.type\t");
        self.strtb.push_name(name, out);
        push_str(out, ", @function\n");
        self.strtb.push_name(name, out);
        push_str(out, ":\n");
        let ghost header = out@;
        let body = &func.body;
        let mut i: usize = 0;
        while i < body.len()
            invariant
                i <= body@.len(),
                body == &func.body,
                func_ok(*self, *func),
                out@ == header + body_text(*self, body@.subrange(0, i as int)),
            decreases body@.len() - i,
        {
            proof { assert(body@.subrange(0, i as int + 1).drop_last() =~= body@.subrange(0, i as int)); }
            let insn = &body[i];
            proof { assert(insn_ok(*self, *insn)); }
            match insn {
                Insn::Label(_) => {},
                _ => push_str(out, "\t"),
            }
            self.push_insn(insn, out);
            push_str(out, "\n");
            proof {
                let b = body@.subrange(0, i as int + 1);
                assert(b.last() == body@[i as int]);
                assert(out@ =~= header + body_text(*self, b));
            }
            i = i + 1;
        }
        proof { assert(body@.subrange(0, i as int) =~= body@); }
        push_str(out, "\t.size\t");
        self.strtb.push_name(name, out);
        push_str(out, ", .-");
        self.strtb.push_name(name, out);
        push_str(out, "\n\n");
        proof { assert(out@ =~= start + func_text(*self, *func)); }
    }

    /// The static variable of a name: from the data section, else from the bss section.
    fn get_static_var(&self, name: StrDescriptor) -> (r: Option<StaticVar>)
        ensures r == static_of(*self, name),
    {
        match find_named(&self.data_seg.items, name) {
            Some(v) => Some(v),
            None => find_named(&self.bss_seg.items, name),
        }
    }

    fn push_static(&self, m4: &str, m8: &str, a: Register, name: StrDescriptor, out: &mut Vec<char>)
        requires static_ok(*self, name),
        ensures final(out)@ == old(out)@ + static_text(m4@, m8@, a, static_of(*self, name)->0, self.strtb),
    {
        let ghost start = out@;
        let v = match self.get_static_var(name) {
            Some(v) => v,
            None => return,
        };
        push_str(out, "lui\tt5, %hi(");
        self.strtb.push_name(v.name, out);
        push_str(out, ")\n");
        push_str(out, "\t");
        if v.data_type.size() == 4 {
            push_str(out, m4);
        } else {
            push_str(out, m8);
        }
        push_str(out, "\t");
        a.push_name(out);
        push_str(out, ", %lo(");
        self.strtb.push_name(v.name, out);
        push_str(out, ")(t5)\n");
        proof { assert(out@ =~= start + static_text(m4@, m8@, a, static_of(*self, name)->0, self.strtb)); }
    }

    fn push_insn(&self, insn: &Insn, out: &mut Vec<char>)
        requires insn_ok(*self, *insn),
        ensures final(out)@ == old(out)@ + insn_text(*self, *insn),
    {
        let ghost start = out@;
        match insn {
            Insn::Addi(a, b, imm) => {
                push_r2("addi", *a, *b, out);
                push_str(out, ", ");
                push_int(out, *imm);
            },
            Insn::Addiw(a, b, imm) => {
                push_r2("addiw", *a, *b, out);
                push_str(out, ", ");
                push_int(out, *imm as i64);
            },
            Insn::Call(n) => {
                push_str(out, "call\t");
                self.strtb.push_name(*n, out);
            },
            Insn::Beq(a, b, l) => {
                push_r2("beq", *a, *b, out);
                push_str(out, ", ");
                push_label(l, out);
            },
            Insn::Bne(a, b, l) => {
                push_r2("bne", *a, *b, out);
                push_str(out, ", ");
                push_label(l, out);
            },
            Insn::J(l) => {
                push_str(out, "j\t");
                push_label(l, out);
            },
            Insn::Label(l) => {
                push_label(l, out);
                push_str(out, ":");
            },
            Insn::Ret => push_str(out, "ret"),
            Insn::Li(a, imm) => {
                push_str(out, "li\t");
                a.push_name(out);
                push_str(out, ", ");
                push_int(out, *imm);
            },
            Insn::La(a, n) => {
                push_str(out, "la\t");
                a.push_name(out);
                push_str(out, ", ");
                self.strtb.push_name(*n, out);
            },
            Insn::LoadStatic(a, n) => self.push_static("lw", "ld", *a, *n, out),
            Insn::StoreStatic(a, n) => self.push_static("sw", "sd", *a, *n, out),
            _ => push_plain(insn, out),
        }
        proof { assert(out@ =~= start + insn_text(*self, *insn)); }
    }
}

/// Instructions whose text names registers and numbers only.
pub open spec fn is_plain(i: Insn) -> bool {
    !(i is Addi || i is Addiw || i is Call || i is Beq || i is Bne || i is J || i is Label || i is Ret
        || i is Li || i is La || i is LoadStatic || i is StoreStatic)
}

#[verifier::rlimit(40)]
fn push_plain(insn: &Insn, out: &mut Vec<char>)
    requires is_plain(*insn),
    ensures forall|top: TopLevel| final(out)@ == old(out)@ + #[trigger] insn_text(top, *insn),
{
    let ghost start = out@;
    match insn {
        Insn::Add(a, b, c) => push_r3("add", *a, *b, *c, out),
        Insn::Addw(a, b, c) => push_r3("addw", *a, *b, *c, out),
        Insn::Sub(a, b, c) => push_r3("sub", *a, *b, *c, out),
        Insn::Subw(a, b, c) => push_r3("subw", *a, *b, *c, out),
        Insn::Mul(a, b, c) => push_r3("mul", *a, *b, *c, out),
        Insn::Mulw(a, b, c) => push_r3("mulw", *a, *b, *c, out),
        Insn::Div(a, b, c) => push_r3("div", *a, *b, *c, out),
        Insn::Divw(a, b, c) => push_r3("divw", *a, *b, *c, out),
        Insn::Rem(a, b, c) => push_r3("rem", *a, *b, *c, out),
        Insn::Remw(a, b, c) => push_r3("remw", *a, *b, *c, out),
        Insn::Slt(a, b, c) => push_r3("slt", *a, *b, *c, out),
        Insn::Sgt(a, b, c) => push_r3("sgt", *a, *b, *c, out),
        Insn::Seqz(a, b) => push_r2("seqz", *a, *b, out),
        Insn::Snez(a, b) => push_r2("snez", *a, *b, out),
        Insn::Sextw(a, b) => push_r2("sext.w", *a, *b, out),
        Insn::Mv(a, b) => push_r2("mv", *a, *b, out),
        Insn::Neg(a, b) => push_r2("neg", *a, *b, out),
        Insn::Negw(a, b) => push_r2("negw", *a, *b, out),
        Insn::Not(a, b) => push_r2("not", *a, *b, out),
        Insn::Ld(a, base, offset) => push_mem("ld", *a, *base, *offset, out),
        Insn::Lw(a, base, offset) => push_mem("lw", *a, *base, *offset, out),
        Insn::Sd(a, base, offset) => push_mem("sd", *a, *base, *offset, out),
        Insn::Sw(a, base, offset) => push_mem("sw", *a, *base, *offset, out),
        _ => {},
    }
}

fn push_label(label: &LabelOperand, out: &mut Vec<char>)
    requires label_ok(*label),
    ensures final(out)@ == old(out)@ + label_text(*label),
{
    match label {
        LabelOperand::AutoGen(id) => {
            push_str(out, ".L");
            push_nat(out, *id as u64);
        },
        LabelOperand::Named(_) => {},
    }
}

fn push_r2(m: &str, a: Register, b: Register, out: &mut Vec<char>)
    ensures final(out)@ == old(out)@ + r2(m@, a, b),
{
    let ghost start = out@;
    push_str(out, m);
    push_str(out, "\t");
    a.push_name(out);
    push_str(out, ", ");
    b.push_name(out);
    proof { assert(out@ =~= start + r2(m@, a, b)); }
}

fn push_r3(m: &str, a: Register, b: Register, c: Register, out: &mut Vec<char>)
    ensures final(out)@ == old(out)@ + r3(m@, a, b, c),
{
    let ghost start = out@;
    push_r2(m, a, b, out);
    push_str(out, ", ");
    c.push_name(out);
    proof { assert(out@ =~= start + r3(m@, a, b, c)); }
}

fn push_mem(m: &str, a: Register, base: Register, offset: isize, out: &mut Vec<char>)
    ensures final(out)@ == old(out)@ + mem_text(m@, a, base, offset),
{
    let ghost start = out@;
    push_str(out, m);
    push_str(out, "\t");
    a.push_name(out);
    push_str(out, ", ");
    push_int(out, offset as i64);
    push_str(out, "(");
    base.push_name(out);
    push_str(out, ")");
    proof { assert(out@ =~= start + mem_text(m@, a, base, offset)); }
}

} // verus!
