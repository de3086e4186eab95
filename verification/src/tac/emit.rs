//! A textual listing of three-address code.

use vstd::prelude::*;
use crate::common::StringPool;
use crate::text::{dec_nat, dec_int, push_nat, push_int, push_str, string_from_chars};
use super::tac::{Operand, Insn, Function, TopLevel, UnaryOp, BinaryOp, LabelOperand, AutoGenLabel};

verus! {

/// The names an operand refers to are in the pool.
pub open spec fn operand_named(o: Operand, pool: StringPool) -> bool {
    o matches Operand::Var { name, .. } ==> pool.holds(name)
}

pub open spec fn label_named(l: LabelOperand, pool: StringPool) -> bool {
    l matches LabelOperand::Named { name, .. } ==> pool.holds(name)
}

/// Every name an instruction refers to is in the pool.
pub open spec fn insn_named(i: Insn, pool: StringPool) -> bool {
    match i {
        Insn::Return(o) => operand_named(o, pool),
        Insn::Unary { src, dst, .. } => operand_named(src, pool) && operand_named(dst, pool),
        Insn::Binary { left, right, dst, .. } => operand_named(left, pool) && operand_named(right, pool) && operand_named(dst, pool),
        Insn::Label(l) => label_named(l, pool),
        Insn::Jump(l) => label_named(l, pool),
        Insn::BranchIfZero { src, label } => operand_named(src, pool) && label_named(label, pool),
        Insn::BranchNotZero { src, label } => operand_named(src, pool) && label_named(label, pool),
        Insn::FuncCall { target, args, dst } => pool.holds(target) && operand_named(dst, pool)
            && forall|k: int| 0 <= k < args@.len() ==> operand_named(#[trigger] args@[k], pool),
        Insn::Move { src, dst } => operand_named(src, pool) && operand_named(dst, pool),
        Insn::Truncate { src, dst } => operand_named(src, pool) && operand_named(dst, pool),
        Insn::SignExt { src, dst } => operand_named(src, pool) && operand_named(dst, pool),
    }
}

/// Every name of a program is in its pool.
pub open spec fn program_named(top: TopLevel) -> bool {
    forall|f: int| 0 <= f < top.functions@.len() ==> {
        let func = #[trigger] top.functions@[f];
        &&& top.strtb.holds(func.spec_name())
        &&& func matches Function::Defined { body, .. } ==>
            forall|k: int| 0 <= k < body@.len() ==> insn_named(#[trigger] body@[k], top.strtb)
    }
}

pub open spec fn operand_text(o: Operand, pool: StringPool) -> Seq<char> {
    match o {
        Operand::Imm(c) => dec_int(c.spec_value() as int),
        Operand::Temp(id, _) => "t."@ + dec_nat(id as nat),
        Operand::Var { name, .. } => pool@[name.0 as int],
    }
}

pub open spec fn label_text(l: LabelOperand, pool: StringPool) -> Seq<char> {
    match l {
        LabelOperand::AutoGen(AutoGenLabel::Branch(id)) => "bra."@ + dec_nat(id as nat),
        LabelOperand::AutoGen(AutoGenLabel::Continue(id)) => "con."@ + dec_nat(id as nat),
        LabelOperand::AutoGen(AutoGenLabel::Break(id)) => "brk."@ + dec_nat(id as nat),
        LabelOperand::Named { name, id } => pool@[name.0 as int] + "."@ + dec_nat(id as nat),
    }
}

pub open spec fn binary_mnemonic(op: BinaryOp) -> Seq<char> {
    match op {
        BinaryOp::Add => "add"@,
        BinaryOp::Sub => "sub"@,
        BinaryOp::Mul => "mul"@,
        BinaryOp::Div => "div"@,
        BinaryOp::Rem => "rem"@,
        BinaryOp::Ls => "ls"@,
        BinaryOp::Gt => "gt"@,
        BinaryOp::GtEq => "gte"@,
        BinaryOp::LsEq => "lte"@,
        BinaryOp::Eq => "eq"@,
        BinaryOp::NotEq => "neq"@,
        BinaryOp::And => "and"@,
        BinaryOp::Or => "or"@,
    }
}

/// The arguments of a call, separated by ", ".
pub open spec fn args_text(args: Seq<Operand>, pool: StringPool) -> Seq<char>
    decreases args.len(),
{
    if args.len() == 0 {
        Seq::empty()
    } else if args.len() == 1 {
        operand_text(args[0], pool)
    } else {
        args_text(args.drop_last(), pool) + ", "@ + operand_text(args.last(), pool)
    }
}

/// The text of an instruction, without its indentation or line end.
pub open spec fn insn_text(i: Insn, pool: StringPool) -> Seq<char> {
    match i {
        Insn::Return(o) => "ret "@ + operand_text(o, pool),
        Insn::Unary { op, src, dst } => match op {
            UnaryOp::Pos => Seq::empty(),
            UnaryOp::Negate => "neg\t"@ + operand_text(dst, pool) + ", "@ + operand_text(src, pool),
            UnaryOp::Not => "not\t"@ + operand_text(dst, pool) + ", "@ + operand_text(src, pool),
            UnaryOp::Complement => "cmpl\t"@ + operand_text(dst, pool) + ", "@ + operand_text(src, pool),
        },
        Insn::Binary { op, left, right, dst } => binary_mnemonic(op) + "\t"@ + operand_text(dst, pool) + ", "@
            + operand_text(left, pool) + ", "@ + operand_text(right, pool),
        Insn::BranchIfZero { src, label } => "bz\t"@ + operand_text(src, pool) + ", "@ + label_text(label, pool),
        Insn::BranchNotZero { src, label } => "bnz\t"@ + operand_text(src, pool) + ", "@ + label_text(label, pool),
        Insn::Label(l) => label_text(l, pool) + ":"@,
        Insn::Jump(l) => "jmp\t"@ + label_text(l, pool),
        Insn::Move { src, dst } => "mov\t"@ + operand_text(dst, pool) + ", "@ + operand_text(src, pool),
        Insn::Truncate { src, dst } => "trunc\t"@ + operand_text(dst, pool) + ", "@ + operand_text(src, pool),
        Insn::SignExt { src, dst } => "sext\t"@ + operand_text(dst, pool) + ", "@ + operand_text(src, pool),
        Insn::FuncCall { target, args, dst } => "call\t"@ + operand_text(dst, pool) + ", "@ + pool@[target.0 as int]
            + "("@ + args_text(args@, pool) + ")"@,
    }
}

/// The lines of a body: labels flush left, other instructions indented.
pub open spec fn body_text(body: Seq<Insn>, pool: StringPool) -> Seq<char>
    decreases body.len(),
{
    if body.len() == 0 {
        Seq::empty()
    } else {
        let i = body.last();
        body_text(body.drop_last(), pool) + (if i is Label { Seq::empty() } else { "\t"@ }) + insn_text(i, pool) + "\n"@
    }
}

/// The listing of a function: a header line, its body and an empty line;
/// a declaration has none.
pub open spec fn func_text(f: Function, pool: StringPool) -> Seq<char> {
    match f {
        Function::Defined { name, body, .. } => "fn "@ + pool@[name.0 as int] + " (void) -> int\n"@ + body_text(body@, pool) + "\n"@,
        Function::Declared { .. } => Seq::empty(),
    }
}

pub open spec fn program_text(fs: Seq<Function>, pool: StringPool) -> Seq<char>
    decreases fs.len(),
{
    if fs.len() == 0 { Seq::empty() } else { program_text(fs.drop_last(), pool) + func_text(fs.last(), pool) }
}

impl TopLevel {
    /// The listing of every defined function, in order.
    pub fn emit(&self) -> (r: String)
        requires program_named(*self),
        ensures r@ == program_text(self.functions@, self.strtb),
    {
        let mut out: Vec<char> = Vec::new();
        let mut i: usize = 0;
        while i < self.functions.len()
            invariant
                i <= self.functions@.len(),
                program_named(*self),
                out@ == program_text(self.functions@.subrange(0, i as int), self.strtb),
            decreases self.functions@.len() - i,
        {
            proof { assert(self.functions@.subrange(0, i as int + 1).drop_last() =~= self.functions@.subrange(0, i as int)); }
            self.emit_func(&self.functions[i], &mut out);
            i = i + 1;
        }
        proof { assert(self.functions@.subrange(0, i as int) =~= self.functions@); }
        string_from_chars(&out)
    }

    fn emit_func(&self, func: &Function, out: &mut Vec<char>)
        requires
            self.strtb.holds(func.spec_name()),
            func matches Function::Defined { body, .. } ==>
                forall|k: int| 0 <= k < body@.len() ==> insn_named(#[trigger] body@[k], self.strtb),
        ensures final(out)@ == old(out)@ + func_text(*func, self.strtb),
    {
        match func {
            Function::Defined { name, body, .. } => {
                let ghost start = out@;
                push_str(out, "fn ");
                self.strtb.push_name(*name, out);
                push_str(out, " (void) -> int\n");
                let ghost header = out@;
                let mut i: usize = 0;
                while i < body.len()
                    invariant
                        i <= body@.len(),
                        forall|k: int| 0 <= k < body@.len() ==> insn_named(#[trigger] body@[k], self.strtb),
                        out@ == header + body_text(body@.subrange(0, i as int), self.strtb),
                    decreases body@.len() - i,
                {
                    proof { assert(body@.subrange(0, i as int + 1).drop_last() =~= body@.subrange(0, i as int)); }
                    let insn = &body[i];
                    match insn {
                        Insn::Label(_) => {},
                        _ => push_str(out, "\t"),
                    }
                    self.emit_insn(insn, out);
                    push_str(out, "\n");
                    proof {
                        let b = body@.subrange(0, i as int + 1);
                        assert(b.last() == body@[i as int]);
                        assert(out@ =~= header + body_text(b, self.strtb));
                    }
                    i = i + 1;
                }
                push_str(out, "\n");
                proof { assert(body@.subrange(0, i as int) =~= body@); }
            },
            Function::Declared { .. } => {
                proof { assert(out@ =~= old(out)@ + Seq::<char>::empty()); }
            },
        }
    }

    fn emit_operand(&self, operand: &Operand, out: &mut Vec<char>)
        requires operand_named(*operand, self.strtb),
        ensures final(out)@ == old(out)@ + operand_text(*operand, self.strtb),
    {
        match operand {
            Operand::Imm(c) => push_int(out, c.value()),
            Operand::Temp(id, _) => {
                push_str(out, "t.");
                push_nat(out, *id as u64);
            },
            Operand::Var { name, .. } => self.strtb.push_name(*name, out),
        }
    }

    fn emit_label_operand(&self, label: &LabelOperand, out: &mut Vec<char>)
        requires label_named(*label, self.strtb),
        ensures final(out)@ == old(out)@ + label_text(*label, self.strtb),
    {
        match label {
            LabelOperand::AutoGen(AutoGenLabel::Branch(id)) => { push_str(out, "bra."); push_nat(out, *id as u64); },
            LabelOperand::AutoGen(AutoGenLabel::Continue(id)) => { push_str(out, "con."); push_nat(out, *id as u64); },
            LabelOperand::AutoGen(AutoGenLabel::Break(id)) => { push_str(out, "brk."); push_nat(out, *id as u64); },
            LabelOperand::Named { name, id } => {
                self.strtb.push_name(*name, out);
                push_str(out, ".");
                push_nat(out, *id as u64);
            },
        }
    }

    fn emit_two(&self, mnemonic: &str, dst: &Operand, src: &Operand, out: &mut Vec<char>)
        requires operand_named(*dst, self.strtb), operand_named(*src, self.strtb),
        ensures final(out)@ == old(out)@ + mnemonic@ + operand_text(*dst, self.strtb) + ", "@ + operand_text(*src, self.strtb),
    {
        push_str(out, mnemonic);
        self.emit_operand(dst, out);
        push_str(out, ", ");
        self.emit_operand(src, out);
        proof { assert(final(out)@ =~= old(out)@ + mnemonic@ + operand_text(*dst, self.strtb) + ", "@ + operand_text(*src, self.strtb)); }
    }

    fn emit_insn(&self, insn: &Insn, out: &mut Vec<char>)
        requires insn_named(*insn, self.strtb),
        ensures final(out)@ == old(out)@ + insn_text(*insn, self.strtb),
    {
        let ghost start = out@;
        match insn {
            Insn::Return(o) => {
                push_str(out, "ret ");
                self.emit_operand(o, out);
            },
            Insn::Unary { op, src, dst } => match op {
                UnaryOp::Pos => {},
                UnaryOp::Negate => self.emit_two("neg\t", dst, src, out),
                UnaryOp::Not => self.emit_two("not\t", dst, src, out),
                UnaryOp::Complement => self.emit_two("cmpl\t", dst, src, out),
            },
            Insn::Binary { op, left, right, dst } => {
                let m = match op {
                    BinaryOp::Add => "add",
                    BinaryOp::Sub => "sub",
                    BinaryOp::Mul => "mul",
                    BinaryOp::Div => "div",
                    BinaryOp::Rem => "rem",
                    BinaryOp::Ls => "ls",
                    BinaryOp::Gt => "gt",
                    BinaryOp::GtEq => "gte",
                    BinaryOp::LsEq => "lte",
                    BinaryOp::Eq => "eq",
                    BinaryOp::NotEq => "neq",
                    BinaryOp::And => "and",
                    BinaryOp::Or => "or",
                };
                push_str(out, m);
                push_str(out, "\t");
                self.emit_operand(dst, out);
                push_str(out, ", ");
                self.emit_operand(left, out);
                push_str(out, ", ");
                self.emit_operand(right, out);
            },
            Insn::BranchIfZero { src, label } => {
                push_str(out, "bz\t");
                self.emit_operand(src, out);
                push_str(out, ", ");
                self.emit_label_operand(label, out);
            },
            Insn::BranchNotZero { src, label } => {
                push_str(out, "bnz\t");
                self.emit_operand(src, out);
                push_str(out, ", ");
                self.emit_label_operand(label, out);
            },
            Insn::Label(l) => {
                self.emit_label_operand(l, out);
                push_str(out, ":");
            },
            Insn::Jump(l) => {
                push_str(out, "jmp\t");
                self.emit_label_operand(l, out);
            },
            Insn::Move { src, dst } => self.emit_two("mov\t", dst, src, out),
            Insn::Truncate { src, dst } => self.emit_two("trunc\t", dst, src, out),
            Insn::SignExt { src, dst } => self.emit_two("sext\t", dst, src, out),
            Insn::FuncCall { target, args, dst } => {
                push_str(out, "call\t");
                self.emit_operand(dst, out);
                push_str(out, ", ");
                self.strtb.push_name(*target, out);
                push_str(out, "(");
                let ghost before = out@;
                let mut k: usize = 0;
                while k < args.len()
                    invariant
                        k <= args@.len(),
                        forall|m: int| 0 <= m < args@.len() ==> operand_named(#[trigger] args@[m], self.strtb),
                        out@ == before + args_text(args@.subrange(0, k as int), self.strtb),
                    decreases args@.len() - k,
                {
                    proof { assert(args@.subrange(0, k as int + 1).drop_last() =~= args@.subrange(0, k as int)); }
                    if k > 0 {
                        push_str(out, ", ");
                    }
                    self.emit_operand(&args[k], out);
                    proof {
                        let a = args@.subrange(0, k as int + 1);
                        assert(a.last() == args@[k as int]);
                        if k == 0 { assert(a[0] == args@[0]); }
                        assert(out@ =~= before + args_text(a, self.strtb));
                    }
                    k = k + 1;
                }
                proof { assert(args@.subrange(0, k as int) =~= args@); }
                push_str(out, ")");
            },
        }
        proof { assert(out@ =~= start + insn_text(*insn, self.strtb)); }
    }
}

} // verus!
