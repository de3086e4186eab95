//! Canonicalization in two parts: memory accesses are flattened, then
//! immediates are loaded into registers.

pub mod mem;
pub mod imm;

use vstd::prelude::*;
use super::super::lir::{Insn, Operand, Function, TopLevel};
use super::{CodeGen, Canonic};
use mem::{mem_canon, mem_canonable, read_via, write_via_t5};
use imm::{imm_canon, imm_canonable};

verus! {

/// Immediate canonicalization of each instruction, in order.
pub open spec fn imm_all(s: Seq<Insn>) -> Seq<Insn>
    decreases s.len(),
{
    if s.len() == 0 { Seq::empty() } else { imm_all(s.drop_last()) + imm_canon(s.last()) }
}

/// The canonical form of one instruction.
pub open spec fn canon_insn(i: Insn) -> Seq<Insn> {
    imm_all(mem_canon(i))
}

/// The canonical form of a body, instruction by instruction.
pub open spec fn canon_all(s: Seq<Insn>) -> Seq<Insn>
    decreases s.len(),
{
    if s.len() == 0 { Seq::empty() } else { canon_all(s.drop_last()) + canon_insn(s.last()) }
}

/// What memory canonicalization makes can go through immediate canonicalization.
proof fn lemma_mem_canon_imm_ok(i: Insn)
    requires mem_canonable(i),
    ensures forall|k: int| 0 <= k < mem_canon(i).len() ==> imm_canonable(#[trigger] mem_canon(i)[k]),
{
    let s = mem_canon(i);
    assert forall|k: int| 0 <= k < s.len() implies imm_canonable(#[trigger] s[k]) by {
        match i {
            Insn::Add(d, l, r) | Insn::Addw(d, l, r) | Insn::Sub(d, l, r) | Insn::Subw(d, l, r)
            | Insn::Mul(d, l, r) | Insn::Mulw(d, l, r) | Insn::Div(d, l, r) | Insn::Divw(d, l, r)
            | Insn::Rem(d, l, r) | Insn::Remw(d, l, r) | Insn::Slt(d, l, r) | Insn::Sgt(d, l, r) => {
                let li = read_via(l, crate::assembly::Register::T5).1;
                let ri = read_via(r, crate::assembly::Register::T6).1;
                let di = write_via_t5(d).1;
                assert(s == li + ri + seq![mem::with3(i, write_via_t5(d).0, read_via(l, crate::assembly::Register::T5).0,
                    read_via(r, crate::assembly::Register::T6).0)] + di);
            },
            _ => {},
        }
    }
}

impl CodeGen<Canonic> {
    /// The canonical form of one instruction.
    pub fn canonic_insn(&mut self, insn: Insn) -> (r: Vec<Insn>)
        requires mem_canonable(insn),
        ensures r@ == canon_insn(insn), *final(self) == *old(self),
    {
        let cmem = self.canonic_mem(insn);
        proof { lemma_mem_canon_imm_ok(insn); }
        let mut out: Vec<Insn> = Vec::new();
        let mut k: usize = 0;
        while k < cmem.len()
            invariant
                k <= cmem@.len(), cmem@ == mem_canon(insn),
                forall|m: int| 0 <= m < cmem@.len() ==> imm_canonable(#[trigger] cmem@[m]),
                out@ == imm_all(cmem@.subrange(0, k as int)),
                *self == *old(self),
            decreases cmem@.len() - k,
        {
            proof { assert(cmem@.subrange(0, k as int + 1).drop_last() =~= cmem@.subrange(0, k as int)); }
            let mut v = self.canonic_imm(cmem[k]);
            out.append(&mut v);
            k = k + 1;
        }
        proof { assert(cmem@.subrange(0, k as int) =~= cmem@); }
        out
    }

    /// Canonicalizes the body of a function.
    pub fn canonic_func(&mut self, func: Function) -> (r: Function)
        requires forall|k: int| 0 <= k < func.body@.len() ==> mem_canonable(#[trigger] func.body@[k]),
        ensures
            r.name == func.name && r.linkage == func.linkage && r.func_type == func.func_type
                && r.frame_size == func.frame_size && r.callee_saved == func.callee_saved,
            r.body@ == canon_all(func.body@),
            final(self).func_cxs == old(self).func_cxs,
    {
        self.cur_func = Some(func.name);
        let Function { name, linkage, func_type, body, frame_size, callee_saved } = func;
        let mut out: Vec<Insn> = Vec::new();
        let mut k: usize = 0;
        while k < body.len()
            invariant
                k <= body@.len(),
                forall|m: int| 0 <= m < body@.len() ==> mem_canonable(#[trigger] body@[m]),
                out@ == canon_all(body@.subrange(0, k as int)),
                self.func_cxs == old(self).func_cxs,
            decreases body@.len() - k,
        {
            proof { assert(body@.subrange(0, k as int + 1).drop_last() =~= body@.subrange(0, k as int)); }
            let mut v = self.canonic_insn(body[k]);
            out.append(&mut v);
            k = k + 1;
        }
        proof { assert(body@.subrange(0, k as int) =~= body@); }
        self.cur_func = None;
        Function { name, linkage, func_type, body: out, frame_size, callee_saved }
    }

    /// Canonicalizes every function.
    pub fn canonic(self, lir: TopLevel) -> (r: TopLevel)
        requires
            forall|i: int, k: int| 0 <= i < lir.functions@.len() && 0 <= k < lir.functions@[i].body@.len()
                ==> mem_canonable(#[trigger] lir.functions@[i].body@[k]),
        ensures
            r.strtb == lir.strtb, r.data_seg == lir.data_seg, r.bss_seg == lir.bss_seg,
            r.functions@.len() == lir.functions@.len(),
            forall|i: int| 0 <= i < lir.functions@.len() ==> {
                let f = #[trigger] lir.functions@[i];
                let g = r.functions@[i];
                &&& g.name == f.name && g.linkage == f.linkage && g.func_type == f.func_type
                &&& g.frame_size == f.frame_size && g.callee_saved == f.callee_saved
                &&& g.body@ == canon_all(f.body@)
            },
    {
        let mut this = self;
        let TopLevel { functions, data_seg, bss_seg, strtb } = lir;
        let ghost orig = functions@;
        let n = functions.len();
        let mut rest = functions;
        let mut out: Vec<Function> = Vec::new();
        let mut j: usize = 0;
        while j < n
            invariant
                j <= n, n == orig.len(),
                rest@ == orig.subrange(j as int, n as int),
                forall|i: int, k: int| 0 <= i < orig.len() && 0 <= k < orig[i].body@.len()
                    ==> mem_canonable(#[trigger] orig[i].body@[k]),
                out@.len() == j,
                forall|i: int| 0 <= i < j ==> {
                    let f = #[trigger] orig[i];
                    let g = out@[i];
                    &&& g.name == f.name && g.linkage == f.linkage && g.func_type == f.func_type
                    &&& g.frame_size == f.frame_size && g.callee_saved == f.callee_saved
                    &&& g.body@ == canon_all(f.body@)
                },
            decreases n - j,
        {
            let func = rest.remove(0);
            proof {
                assert(func == orig[j as int]);
                assert(rest@ =~= orig.subrange(j as int + 1, n as int));
            }
            let g = this.canonic_func(func);
            out.push(g);
            j = j + 1;
        }
        TopLevel { functions: out, data_seg, bss_seg, strtb }
    }
}

} // verus!
