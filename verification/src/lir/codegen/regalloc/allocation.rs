//! Rewrites the virtual registers that the coloring gave a physical
//! register, and records the callee-saved registers a function then uses.

use vstd::prelude::*;
use crate::assembly::Register;
use crate::common::StrDescriptor;
use crate::lir::{Function, Insn, Operand, TopLevel};
use super::{AnalyzeResult, GeneralReg};
use super::rig::{Rig, allocatable, colors_ok, interferes};
use super::live_analysis::{transfer, step, call_args, knows, body_flow, body_liveness, live_after, insn_analyzable, below};
use super::super::{CodeGen, FuncContext, RegAlloc, Spill};
use super::super::spill::{cx_index, keys_of, lemma_cx_index, lemma_cx_index_props};

verus! {

/// The registers of the entries of a map of colors.
pub open spec fn map_regs(map: Seq<(GeneralReg, Option<Register>)>) -> Seq<GeneralReg> {
    map.map_values(|e: (GeneralReg, Option<Register>)| e.0)
}

/// The color the map gives virtual register `v`, if it has an entry.
pub open spec fn color_of(map: Seq<(GeneralReg, Option<Register>)>, v: usize) -> Option<Register> {
    if exists|i: int| 0 <= i < map.len() && (#[trigger] map[i]).0 == GeneralReg::Virt(v) {
        map[choose|i: int| 0 <= i < map.len() && (#[trigger] map[i]).0 == GeneralReg::Virt(v)].1
    } else {
        None
    }
}

/// A virtual register with a color becomes that register; every other operand stays.
pub open spec fn rewrite_op(o: Operand, map: Seq<(GeneralReg, Option<Register>)>) -> Operand {
    match o {
        Operand::VirtReg(v) => match color_of(map, v) {
            Some(r) => Operand::PhysReg(r),
            None => o,
        },
        _ => o,
    }
}

/// The instruction with its register operands rewritten.
pub open spec fn rewrite(i: Insn, map: Seq<(GeneralReg, Option<Register>)>) -> Insn {
    let f = |o: Operand| rewrite_op(o, map);
    match i {
        Insn::Add(d, a, b) => Insn::Add(f(d), f(a), f(b)),
        Insn::Addw(d, a, b) => Insn::Addw(f(d), f(a), f(b)),
        Insn::Sub(d, a, b) => Insn::Sub(f(d), f(a), f(b)),
        Insn::Subw(d, a, b) => Insn::Subw(f(d), f(a), f(b)),
        Insn::Mul(d, a, b) => Insn::Mul(f(d), f(a), f(b)),
        Insn::Mulw(d, a, b) => Insn::Mulw(f(d), f(a), f(b)),
        Insn::Div(d, a, b) => Insn::Div(f(d), f(a), f(b)),
        Insn::Divw(d, a, b) => Insn::Divw(f(d), f(a), f(b)),
        Insn::Rem(d, a, b) => Insn::Rem(f(d), f(a), f(b)),
        Insn::Remw(d, a, b) => Insn::Remw(f(d), f(a), f(b)),
        Insn::Slt(d, a, b) => Insn::Slt(f(d), f(a), f(b)),
        Insn::Sgt(d, a, b) => Insn::Sgt(f(d), f(a), f(b)),
        Insn::Mv(d, a) => Insn::Mv(f(d), f(a)),
        Insn::Neg(d, a) => Insn::Neg(f(d), f(a)),
        Insn::Negw(d, a) => Insn::Negw(f(d), f(a)),
        Insn::Sextw(d, a) => Insn::Sextw(f(d), f(a)),
        Insn::Seqz(d, a) => Insn::Seqz(f(d), f(a)),
        Insn::Snez(d, a) => Insn::Snez(f(d), f(a)),
        Insn::Not(d, a) => Insn::Not(f(d), f(a)),
        Insn::Beq(a, b, l) => Insn::Beq(f(a), f(b), l),
        Insn::Bne(a, b, l) => Insn::Bne(f(a), f(b), l),
        Insn::Ld(r, m) => Insn::Ld(f(r), m),
        Insn::Lw(r, m) => Insn::Lw(f(r), m),
        Insn::Sd(r, m) => Insn::Sd(f(r), m),
        Insn::Sw(r, m) => Insn::Sw(f(r), m),
        Insn::LoadStatic(r, n) => Insn::LoadStatic(f(r), n),
        Insn::StoreStatic(r, n) => Insn::StoreStatic(f(r), n),
        _ => i,
    }
}

/// The context saves register `r`.
pub open spec fn saves(cx: FuncContext, r: Register) -> bool {
    cx.callee_saved matches Some(v) && exists|k: int| 0 <= k < v@.len() && (#[trigger] v@[k]).0 == r
}

/// How a context grows while registers are recorded: the same function,
/// more frame for more saved registers, and every saved register still saved.
pub open spec fn cx_grows(new: FuncContext, old: FuncContext) -> bool {
    &&& new.name == old.name && new.type_ == old.type_ && new.next_v_reg == old.next_v_reg
    &&& new.tmap == old.tmap && new.vmap == old.vmap && new.mmap == old.mmap
    &&& new.frame_size >= old.frame_size
    &&& (old.callee_saved is None ==> new.callee_saved is None && new.frame_size == old.frame_size)
    &&& (old.callee_saved is Some ==> new.callee_saved is Some)
    &&& forall|r: Register| saves(old, r) ==> #[trigger] saves(new, r)
}

impl FuncContext {
    /// Records that the function uses callee-saved register `reg`: a new
    /// frame slot is made for it unless it is saved already.
    pub fn push_callee_saved(&mut self, reg: Register)
        requires old(self).frame_size + 8 <= isize::MAX,
        ensures
            cx_grows(*final(self), *old(self)),
            final(self).frame_size <= old(self).frame_size + 8,
            old(self).callee_saved is Some ==> saves(*final(self), reg),
            saves(*old(self), reg) || old(self).callee_saved is None ==> *final(self) == *old(self),
            !saves(*old(self), reg) && old(self).callee_saved is Some ==>
                final(self).frame_size == old(self).frame_size + 8
                && final(self).callee_saved->0@ == old(self).callee_saved->0@.push((reg, -((old(self).frame_size + 8) as int) as isize)),
    {
        let fs = self.frame_size;
        if self.callee_saved.is_none() || self.saves_reg(reg) {
            return;
        }
        let mut v = match self.callee_saved.take() {
            Some(v) => v,
            None => Vec::new(),
        };
        let ghost ov = v@;
        let offset: isize = -((fs + 8) as isize);
        v.push((reg, offset));
        self.callee_saved = Some(v);
        self.frame_size = fs + 8;
        proof {
            let nv = self.callee_saved->0@;
            assert(nv[nv.len() - 1].0 == reg);
            assert forall|r: Register| saves(*old(self), r) implies #[trigger] saves(*self, r) by {
                let k = choose|k: int| 0 <= k < ov.len() && (#[trigger] ov[k]).0 == r;
                assert(nv[k] == ov[k]);
            }
        }
    }

    /// Whether the context saves register `reg`.
    pub fn saves_reg(&self, reg: Register) -> (r: bool)
        ensures r == saves(*self, reg),
    {
        match &self.callee_saved {
            Some(v) => holds_saved(v, reg),
            None => false,
        }
    }
}

/// Whether `reg` has an entry in `v`.
fn holds_saved(v: &Vec<(Register, isize)>, reg: Register) -> (r: bool)
    ensures r == exists|k: int| 0 <= k < v@.len() && (#[trigger] v@[k]).0 == reg,
{
    let mut k: usize = 0;
    while k < v.len()
        invariant k <= v@.len(), forall|j: int| 0 <= j < k ==> v@[j].0 != reg,
        decreases v@.len() - k,
    {
        if v[k].0 == reg {
            proof { assert(v@[k as int].0 == reg); }
            return true;
        }
        k = k + 1;
    }
    false
}

/// Finds the color of virtual register `v` in the map.
fn find_color(map: &Vec<(GeneralReg, Option<Register>)>, v: usize) -> (r: Option<Register>)
    requires map_regs(map@).no_duplicates(),
    ensures r == color_of(map@, v),
{
    let ghost keys = map_regs(map@);
    let mut i: usize = 0;
    while i < map.len()
        invariant i <= map@.len(), map_regs(map@).no_duplicates(), forall|j: int| 0 <= j < i ==> map@[j].0 != GeneralReg::Virt(v),
        decreases map@.len() - i,
    {
        if map[i].0 == GeneralReg::Virt(v) {
            proof {
                let c = choose|j: int| 0 <= j < map@.len() && (#[trigger] map@[j]).0 == GeneralReg::Virt(v);
                assert(map_regs(map@)[c] == map@[c].0);
                assert(map_regs(map@)[i as int] == map@[i as int].0);
                assert(c == i);
            }
            return map[i].1;
        }
        i = i + 1;
    }
    None
}

/// The operand rewritten; a callee-saved register it now names is recorded.
fn rewrite_operand(cx: &mut FuncContext, operand: Operand, map: &Vec<(GeneralReg, Option<Register>)>) -> (r: Operand)
    requires
        map_regs(map@).no_duplicates(),
        old(cx).frame_size + 8 <= isize::MAX,
    ensures
        r == rewrite_op(operand, map@),
        cx_grows(*final(cx), *old(cx)),
        final(cx).frame_size <= old(cx).frame_size + 8,
        old(cx).callee_saved is Some && r is PhysReg && operand is VirtReg && r->PhysReg_0.spec_is_callee_saved() ==> saves(*final(cx), r->PhysReg_0),
{
    match operand {
        Operand::VirtReg(v) => {
            match find_color(map, v) {
                Some(reg) => {
                    if reg.is_callee_saved() {
                        cx.push_callee_saved(reg);
                    }
                    Operand::PhysReg(reg)
                },
                None => operand,
            }
        },
        _ => operand,
    }
}

/// The callee-saved registers an instruction names, after rewriting, in place of a virtual register.
pub open spec fn uses_saved(i: Insn, map: Seq<(GeneralReg, Option<Register>)>, r: Register) -> bool {
    r.spec_is_callee_saved() && exists|v: usize| color_of(map, v) == Some(r) && #[trigger] insn_names_virt(i, v)
}

/// Whether an operand that the rewriting handles names virtual register `v`.
pub open spec fn insn_names_virt(i: Insn, v: usize) -> bool {
    let o = Operand::VirtReg(v);
    match i {
        Insn::Add(d, a, b) | Insn::Addw(d, a, b) | Insn::Sub(d, a, b) | Insn::Subw(d, a, b)
        | Insn::Mul(d, a, b) | Insn::Mulw(d, a, b) | Insn::Div(d, a, b) | Insn::Divw(d, a, b)
        | Insn::Rem(d, a, b) | Insn::Remw(d, a, b) | Insn::Slt(d, a, b) | Insn::Sgt(d, a, b) => d == o || a == o || b == o,
        Insn::Mv(d, a) | Insn::Neg(d, a) | Insn::Negw(d, a) | Insn::Sextw(d, a) | Insn::Seqz(d, a)
        | Insn::Snez(d, a) | Insn::Not(d, a) => d == o || a == o,
        Insn::Beq(a, b, _) | Insn::Bne(a, b, _) => a == o || b == o,
        Insn::Ld(r, _) | Insn::Lw(r, _) | Insn::Sd(r, _) | Insn::Sw(r, _)
        | Insn::LoadStatic(r, _) | Insn::StoreStatic(r, _) => r == o,
        _ => false,
    }
}

/// The instruction rewritten, recording the callee-saved registers it now names.
#[verifier::rlimit(60)]
fn rewrite_insn(cx: &mut FuncContext, insn: Insn, map: &Vec<(GeneralReg, Option<Register>)>) -> (r: Insn)
    requires
        map_regs(map@).no_duplicates(),
        old(cx).frame_size + 24 <= isize::MAX,
    ensures
        r == rewrite(insn, map@),
        cx_grows(*final(cx), *old(cx)),
        final(cx).frame_size <= old(cx).frame_size + 24,
        old(cx).callee_saved is Some ==> forall|p: Register| #[trigger] uses_saved(insn, map@, p) ==> saves(*final(cx), p),
{
    let ghost c0 = *cx;
    let r = match insn {
        Insn::Add(d, a, b) | Insn::Addw(d, a, b) | Insn::Sub(d, a, b) | Insn::Subw(d, a, b)
        | Insn::Mul(d, a, b) | Insn::Mulw(d, a, b) | Insn::Div(d, a, b) | Insn::Divw(d, a, b)
        | Insn::Rem(d, a, b) | Insn::Remw(d, a, b) | Insn::Slt(d, a, b) | Insn::Sgt(d, a, b) => {
            let d2 = rewrite_operand(cx, d, map);
            let ghost c1 = *cx;
            let a2 = rewrite_operand(cx, a, map);
            let ghost c2 = *cx;
            let b2 = rewrite_operand(cx, b, map);
            proof {
                assert forall|p: Register| c0.callee_saved is Some && #[trigger] uses_saved(insn, map@, p) implies saves(*cx, p) by {
                    let v = choose|v: usize| color_of(map@, v) == Some(p) && #[trigger] insn_names_virt(insn, v);
                    if d == Operand::VirtReg(v) { assert(saves(c1, p)); assert(saves(c2, p)); }
                    else if a == Operand::VirtReg(v) { assert(saves(c2, p)); }
                }
            }
            match insn {
                Insn::Add(..) => Insn::Add(d2, a2, b2),
                Insn::Addw(..) => Insn::Addw(d2, a2, b2),
                Insn::Sub(..) => Insn::Sub(d2, a2, b2),
                Insn::Subw(..) => Insn::Subw(d2, a2, b2),
                Insn::Mul(..) => Insn::Mul(d2, a2, b2),
                Insn::Mulw(..) => Insn::Mulw(d2, a2, b2),
                Insn::Div(..) => Insn::Div(d2, a2, b2),
                Insn::Divw(..) => Insn::Divw(d2, a2, b2),
                Insn::Rem(..) => Insn::Rem(d2, a2, b2),
                Insn::Remw(..) => Insn::Remw(d2, a2, b2),
                Insn::Slt(..) => Insn::Slt(d2, a2, b2),
                _ => Insn::Sgt(d2, a2, b2),
            }
        },
        Insn::Mv(d, a) | Insn::Neg(d, a) | Insn::Negw(d, a) | Insn::Sextw(d, a) | Insn::Seqz(d, a)
        | Insn::Snez(d, a) | Insn::Not(d, a) => {
            let d2 = rewrite_operand(cx, d, map);
            let ghost c1 = *cx;
            let a2 = rewrite_operand(cx, a, map);
            proof {
                assert forall|p: Register| c0.callee_saved is Some && #[trigger] uses_saved(insn, map@, p) implies saves(*cx, p) by {
                    let v = choose|v: usize| color_of(map@, v) == Some(p) && #[trigger] insn_names_virt(insn, v);
                    if d == Operand::VirtReg(v) { assert(saves(c1, p)); }
                }
            }
            match insn {
                Insn::Mv(..) => Insn::Mv(d2, a2),
                Insn::Neg(..) => Insn::Neg(d2, a2),
                Insn::Negw(..) => Insn::Negw(d2, a2),
                Insn::Sextw(..) => Insn::Sextw(d2, a2),
                Insn::Seqz(..) => Insn::Seqz(d2, a2),
                Insn::Snez(..) => Insn::Snez(d2, a2),
                _ => Insn::Not(d2, a2),
            }
        },
        Insn::Beq(a, b, l) | Insn::Bne(a, b, l) => {
            let a2 = rewrite_operand(cx, a, map);
            let ghost c1 = *cx;
            let b2 = rewrite_operand(cx, b, map);
            proof {
                assert forall|p: Register| c0.callee_saved is Some && #[trigger] uses_saved(insn, map@, p) implies saves(*cx, p) by {
                    let v = choose|v: usize| color_of(map@, v) == Some(p) && #[trigger] insn_names_virt(insn, v);
                    if a == Operand::VirtReg(v) { assert(saves(c1, p)); }
                }
            }
            match insn {
                Insn::Beq(..) => Insn::Beq(a2, b2, l),
                _ => Insn::Bne(a2, b2, l),
            }
        },
        Insn::Ld(r, m) | Insn::Lw(r, m) | Insn::Sd(r, m) | Insn::Sw(r, m) => {
            let r2 = rewrite_operand(cx, r, map);
            match insn {
                Insn::Ld(..) => Insn::Ld(r2, m),
                Insn::Lw(..) => Insn::Lw(r2, m),
                Insn::Sd(..) => Insn::Sd(r2, m),
                _ => Insn::Sw(r2, m),
            }
        },
        Insn::LoadStatic(r, n) => Insn::LoadStatic(rewrite_operand(cx, r, map), n),
        Insn::StoreStatic(r, n) => Insn::StoreStatic(rewrite_operand(cx, r, map), n),
        _ => insn,
    };
    r
}

/// What allocation asks of a function: its context is known, its body can
/// be allocated, and the frame offsets fit an `isize` however much each
/// instruction makes the frame grow (at most 24 bytes of saved registers).
pub open spec fn alloc_ready(f: Function, cxs: Seq<(StrDescriptor, FuncContext)>) -> bool {
    &&& keys_of(cxs).contains(f.name)
    &&& allocatable(f.body@, cxs)
    &&& cxs[cx_index(keys_of(cxs), f.name)].1.frame_size + 24 * f.body@.len() + 24 <= isize::MAX
}

/// `new` is `old` after allocation with the given colors: each instruction
/// rewritten, and every callee-saved register the body now names saved.
pub open spec fn allocated(old_f: Function, new_f: Function, map: Seq<(GeneralReg, Option<Register>)>,
    cxs: Seq<(StrDescriptor, FuncContext)>, old_cx: FuncContext, new_cx: FuncContext) -> bool
{
    &&& colors_ok(old_f.body@, cxs, map)
    &&& new_f.name == old_f.name && new_f.linkage == old_f.linkage && new_f.func_type == old_f.func_type
    &&& new_f.frame_size == old_f.frame_size && new_f.callee_saved == old_f.callee_saved
    &&& new_f.body@ == old_f.body@.map_values(|i: Insn| rewrite(i, map))
    &&& cx_grows(new_cx, old_cx)
    &&& new_cx.frame_size <= old_cx.frame_size + 24 * old_f.body@.len()
    &&& old_cx.callee_saved is Some ==> forall|k: int, p: Register| 0 <= k < old_f.body@.len()
        && #[trigger] uses_saved(old_f.body@[k], map, p) ==> saves(new_cx, p)
}

/// Two tables of contexts that agree on the functions they know and on their types.
pub open spec fn same_arity(c1: Seq<(StrDescriptor, FuncContext)>, c2: Seq<(StrDescriptor, FuncContext)>) -> bool {
    &&& keys_of(c1) == keys_of(c2)
    &&& c1.len() == c2.len()
    &&& forall|i: int| 0 <= i < c1.len() ==> (#[trigger] c1[i]).1.type_ == c2[i].1.type_
}

proof fn lemma_transfer_cxs(out: Set<GeneralReg>, insns: Seq<Insn>, c1: Seq<(StrDescriptor, FuncContext)>, c2: Seq<(StrDescriptor, FuncContext)>)
    requires same_arity(c1, c2), forall|k: int| 0 <= k < insns.len() ==> insn_analyzable(#[trigger] insns[k], c1),
    ensures transfer(out, insns, c1) == transfer(out, insns, c2),
    decreases insns.len(),
{
    if insns.len() > 0 {
        let i = insns.last();
        assert(insn_analyzable(insns[insns.len() - 1], c1));
        if let Insn::Call(t) = i {
            let x = choose|x: int| 0 <= x < keys_of(c1).len() && keys_of(c1)[x] == t;
            lemma_cx_index_props(keys_of(c1), t, x);
            let k = cx_index(keys_of(c1), t);
            assert(c1[k].1.type_ == c2[k].1.type_);
            assert(call_args(c1, t) == call_args(c2, t));
        }
        assert(step(out, i, c1) == step(out, i, c2));
        assert forall|k: int| 0 <= k < insns.drop_last().len() implies insn_analyzable(#[trigger] insns.drop_last()[k], c1) by {
            assert(insns.drop_last()[k] == insns[k]);
        }
        lemma_transfer_cxs(step(out, i, c1), insns.drop_last(), c1, c2);
    }
}

/// What allocation asks and promises depends on the contexts only through
/// the functions they know and their types.
proof fn lemma_colors_cxs(body: Seq<Insn>, map: Seq<(GeneralReg, Option<Register>)>, c1: Seq<(StrDescriptor, FuncContext)>, c2: Seq<(StrDescriptor, FuncContext)>)
    requires same_arity(c1, c2), allocatable(body, c1),
    ensures
        colors_ok(body, c1, map) == colors_ok(body, c2, map),
        allocatable(body, c2),
{
    let bs = super::live_analysis::blocks_of(body);
    super::live_analysis::lemma_blocks_flatten(body);
    assert forall|b: int, k: int| 0 <= b < bs.len() && 0 <= k < bs[b].len() implies #[trigger] insn_analyzable(bs[b][k], c1) by {
        super::live_analysis::lemma_flatten_member(bs, b, k);
        let j = choose|j: int| 0 <= j < body.len() && body[j] == bs[b][k];
    }
    assert forall|l: Seq<Set<GeneralReg>>, b: int| 0 <= b < bs.len() implies #[trigger] body_flow(bs, c1, l, b) == body_flow(bs, c2, l, b) by {
        assert forall|k: int| 0 <= k < bs[b].len() implies insn_analyzable(#[trigger] bs[b][k], c1) by {}
        lemma_transfer_cxs(super::live_analysis::meet(l, super::live_analysis::succs_of(bs, b)), bs[b], c1, c2);
    }
    assert forall|live: Seq<Set<GeneralReg>>| body_liveness(bs, c1, live) == body_liveness(bs, c2, live) by {
        assert(forall|b: int| 0 <= b < bs.len() ==> #[trigger] body_flow(bs, c1, live, b) == body_flow(bs, c2, live, b));
        assert(forall|l: Seq<Set<GeneralReg>>, b: int| 0 <= b < bs.len() ==> #[trigger] body_flow(bs, c1, l, b) == body_flow(bs, c2, l, b));
    }
    assert forall|live: Seq<Set<GeneralReg>>, u: GeneralReg, v: GeneralReg| interferes(bs, c1, live, u, v) == interferes(bs, c2, live, u, v) by {
        assert forall|b: int, k: int| 0 <= b < bs.len() && 0 <= k < bs[b].len() implies
            #[trigger] live_after(bs, c1, live, b, k) == live_after(bs, c2, live, b, k) by {
            let sub = bs[b].subrange(k + 1, bs[b].len() as int);
            assert forall|m: int| 0 <= m < sub.len() implies insn_analyzable(#[trigger] sub[m], c1) by {
                assert(sub[m] == bs[b][k + 1 + m]);
            }
            lemma_transfer_cxs(super::live_analysis::meet(live, super::live_analysis::succs_of(bs, b)),
                bs[b].subrange(k + 1, bs[b].len() as int), c1, c2);
        }
        if interferes(bs, c1, live, u, v) {
            let (b, k) = choose|b: int, k: int| 0 <= b < bs.len() && 0 <= k < bs[b].len()
                && #[trigger] live_after(bs, c1, live, b, k).contains(v)
                && (super::rig::def_reg(bs[b][k]) == Some(u) || (bs[b][k] is Call && super::rig::call_clobbers(u)));
            assert(live_after(bs, c2, live, b, k).contains(v));
        }
        if interferes(bs, c2, live, u, v) {
            let (b, k) = choose|b: int, k: int| 0 <= b < bs.len() && 0 <= k < bs[b].len()
                && #[trigger] live_after(bs, c2, live, b, k).contains(v)
                && (super::rig::def_reg(bs[b][k]) == Some(u) || (bs[b][k] is Call && super::rig::call_clobbers(u)));
            assert(live_after(bs, c1, live, b, k).contains(v));
        }
    }
    assert forall|k: int| 0 <= k < body.len() implies insn_analyzable(#[trigger] body[k], c1) == insn_analyzable(body[k], c2) by {}
    assert(colors_ok(body, c1, map) == colors_ok(body, c2, map)) by {
        assert forall|live: Seq<Set<GeneralReg>>, i: int, j: int| #[trigger] body_liveness(bs, c1, live)
            && 0 <= i < map.len() && 0 <= j < map.len()
            && interferes(bs, c1, live, (#[trigger] map[i]).0, (#[trigger] map[j]).0)
            <==> body_liveness(bs, c2, live) && 0 <= i < map.len() && 0 <= j < map.len() && interferes(bs, c2, live, map[i].0, map[j].0) by {}
        assert forall|live: Seq<Set<GeneralReg>>, i: int| 0 <= i < map.len() && (#[trigger] map[i]).1 is Some implies
            #[trigger] body_liveness(bs, c1, live) == body_liveness(bs, c2, live)
            && interferes(bs, c1, live, map[i].0, GeneralReg::Phys(map[i].1->0)) == interferes(bs, c2, live, map[i].0, GeneralReg::Phys(map[i].1->0))
            && interferes(bs, c1, live, GeneralReg::Phys(map[i].1->0), map[i].0) == interferes(bs, c2, live, GeneralReg::Phys(map[i].1->0), map[i].0) by {}
    }
}

proof fn lemma_name_pos(cxs: Seq<(StrDescriptor, FuncContext)>, name: StrDescriptor)
    requires keys_of(cxs).contains(name),
    ensures exists|x: int| 0 <= x < cxs.len() && cxs[x].0 == name,
{
    let x = choose|x: int| 0 <= x < keys_of(cxs).len() && keys_of(cxs)[x] == name;
    assert(cxs[x].0 == name);
}

impl CodeGen<RegAlloc> {
    /// Allocates the registers of one function: colors its interference
    /// graph and rewrites its body.
    #[verifier::rlimit(100)]
    #[verifier::spinoff_prover]
    pub fn alloc_func(&mut self, func: Function) -> (r: Function)
        requires alloc_ready(func, old(self).func_cxs@),
        ensures
            keys_of(final(self).func_cxs@) == keys_of(old(self).func_cxs@),
            final(self).cur_func == old(self).cur_func, final(self).next_label == old(self).next_label,
            final(self).lmap == old(self).lmap,
            ({
                let i = cx_index(keys_of(old(self).func_cxs@), func.name);
                &&& forall|j: int| 0 <= j < final(self).func_cxs@.len() && j != i ==> final(self).func_cxs@[j] == old(self).func_cxs@[j]
                &&& exists|map: Seq<(GeneralReg, Option<Register>)>| allocated(func, r, map, old(self).func_cxs@,
                    old(self).func_cxs@[i].1, final(self).func_cxs@[i].1)
            }),
    {
        let ghost cxs0 = self.func_cxs@;
        let rig = Rig::base(&self.func_cxs);
        proof { super::rig::lemma_base_wf(rig); }
        let AnalyzeResult { map } = rig.analyze(&func);
        let mut idx: usize = 0;
        while idx < self.func_cxs.len() && self.func_cxs[idx].0 != func.name
            invariant
                idx <= self.func_cxs@.len(), self.func_cxs@ == cxs0, keys_of(cxs0).contains(func.name),
                forall|j: int| 0 <= j < idx ==> self.func_cxs@[j].0 != func.name,
            decreases self.func_cxs@.len() - idx,
        {
            idx = idx + 1;
        }
        if idx >= self.func_cxs.len() {
            proof {
                let j = choose|j: int| 0 <= j < keys_of(cxs0).len() && keys_of(cxs0)[j] == func.name;
                assert(cxs0[j].0 == func.name);
            }
            return func;
        }
        proof { lemma_cx_index(cxs0, func.name, idx as int); }
        let (name, mut cx) = self.func_cxs.remove(idx);
        let ghost cx0 = cx;
        let Function { name: fname, linkage, func_type, body, frame_size, callee_saved } = func;
        let mut out: Vec<Insn> = Vec::new();
        let mut k: usize = 0;
        while k < body.len()
            invariant
                k <= body@.len(), body@ == func.body@, cx0.frame_size + 24 * body@.len() + 24 <= isize::MAX,
                map_regs(map@).no_duplicates(),
                out@ == body@.subrange(0, k as int).map_values(|i: Insn| rewrite(i, map@)),
                cx_grows(cx, cx0),
                cx.frame_size <= cx0.frame_size + 24 * k,
                cx0.callee_saved is Some ==> forall|j: int, p: Register| 0 <= j < k
                    && #[trigger] uses_saved(body@[j], map@, p) ==> saves(cx, p),
            decreases body@.len() - k,
        {
            let ghost c1 = cx;
            assert(cx.frame_size + 24 <= isize::MAX) by {
                assert(24 * k + 24 <= 24 * body@.len()) by (nonlinear_arith) requires k < body@.len();
            }
            let insn = rewrite_insn(&mut cx, body[k], &map);
            out.push(insn);
            proof {
                assert(out@ =~= body@.subrange(0, k as int + 1).map_values(|i: Insn| rewrite(i, map@)));
                assert forall|j: int, p: Register| cx0.callee_saved is Some && 0 <= j < k + 1
                    && #[trigger] uses_saved(body@[j], map@, p) implies saves(cx, p) by {
                    if j < k { assert(saves(c1, p)); }
                }
            }
            k = k + 1;
        }
        proof { assert(body@.subrange(0, k as int) =~= body@); }
        self.func_cxs.insert(idx, (name, cx));
        let r = Function { name: fname, linkage, func_type, body: out, frame_size, callee_saved };
        proof {
            assert(allocated(func, r, map@, cxs0, cxs0[idx as int].1, self.func_cxs@[idx as int].1));
            assert(keys_of(self.func_cxs@) =~= keys_of(cxs0));
            assert forall|j: int| 0 <= j < self.func_cxs@.len() && j != idx implies self.func_cxs@[j] == cxs0[j] by {
                if j < idx { assert(self.func_cxs@[j] == cxs0.remove(idx as int)[j]); }
                else { assert(self.func_cxs@[j] == cxs0.remove(idx as int)[j - 1]); }
            }
        }
        r
    }

    /// Allocates the registers of every function.
    #[verifier::rlimit(100)]
    #[verifier::spinoff_prover]
    pub fn allocate(self, lir: TopLevel) -> (r: (TopLevel, CodeGen<Spill>))
        requires
            forall|i: int, j: int| 0 <= i < j < lir.functions@.len() ==> lir.functions@[i].name != lir.functions@[j].name,
            forall|i: int| 0 <= i < lir.functions@.len() ==> alloc_ready(#[trigger] lir.functions@[i], self.func_cxs@),
        ensures
            r.0.strtb == lir.strtb, r.0.data_seg == lir.data_seg, r.0.bss_seg == lir.bss_seg,
            r.0.functions@.len() == lir.functions@.len(),
            keys_of(r.1.func_cxs@) == keys_of(self.func_cxs@),
            r.1.next_label == self.next_label, r.1.lmap == self.lmap, r.1.cur_func is None,
            forall|i: int| 0 <= i < lir.functions@.len() ==> {
                let f = #[trigger] lir.functions@[i];
                let c = cx_index(keys_of(self.func_cxs@), f.name);
                exists|map: Seq<(GeneralReg, Option<Register>)>| allocated(f, r.0.functions@[i], map, self.func_cxs@,
                    self.func_cxs@[c].1, r.1.func_cxs@[c].1)
            },
    {
        let mut this = self;
        let TopLevel { functions, data_seg, bss_seg, strtb } = lir;
        let ghost orig = functions@;
        let ghost cxs0 = this.func_cxs@;
        let ghost keys = keys_of(cxs0);
        let mut rest = functions;
        let mut out: Vec<Function> = Vec::new();
        while rest.len() > 0
            invariant
                orig.len() == out@.len() + rest@.len(),
                rest@ == orig.subrange(out@.len() as int, orig.len() as int),
                keys_of(this.func_cxs@) == keys, same_arity(this.func_cxs@, cxs0),
                this.next_label == self.next_label, this.lmap == self.lmap,
                forall|i: int, j: int| 0 <= i < j < orig.len() ==> orig[i].name != orig[j].name,
                forall|i: int| 0 <= i < orig.len() ==> alloc_ready(#[trigger] orig[i], cxs0),
                forall|i: int| out@.len() <= i < orig.len() ==> #[trigger] this.func_cxs@[cx_index(keys, orig[i].name)] == cxs0[cx_index(keys, orig[i].name)],
                forall|i: int| 0 <= i < out@.len() ==> {
                    let f = #[trigger] orig[i];
                    let c = cx_index(keys, f.name);
                    exists|map: Seq<(GeneralReg, Option<Register>)>| allocated(f, out@[i], map, cxs0, cxs0[c].1, this.func_cxs@[c].1)
                },
            decreases rest@.len(),
        {
            let f = rest.remove(0);
            let ghost pos = out@.len() as int;
            proof {
                assert(f == orig[pos]);
                assert(alloc_ready(f, cxs0));
            }
            let ghost before = this.func_cxs@;
            proof {
                let c = cx_index(keys, f.name);
                assert(before[c] == cxs0[c]);
                assert(keys_of(before) == keys);
                lemma_colors_cxs(f.body@, Seq::empty(), cxs0, before);
                assert(alloc_ready(f, before));
            }
            this.cur_func = Some(f.name);
            let a = this.alloc_func(f);
            this.cur_func = None;
            let ghost out_before = out@;
            out.push(a);
            proof {
                let c = cx_index(keys, f.name);
                assert forall|i: int| 0 <= i < this.func_cxs@.len() implies (#[trigger] this.func_cxs@[i]).1.type_ == cxs0[i].1.type_ by {
                    if i == c {
                        let map = choose|map: Seq<(GeneralReg, Option<Register>)>| allocated(f, a, map, before, before[c].1, this.func_cxs@[c].1);
                    } else {
                        assert(this.func_cxs@[i] == before[i]);
                    }
                }
                assert(this.func_cxs@.len() == keys_of(this.func_cxs@).len());
                assert(rest@ =~= orig.subrange(out@.len() as int, orig.len() as int));
                assert forall|i: int| out@.len() <= i < orig.len() implies #[trigger] this.func_cxs@[cx_index(keys, orig[i].name)] == cxs0[cx_index(keys, orig[i].name)] by {
                    assert(alloc_ready(orig[i], cxs0));
                    lemma_name_pos(cxs0, orig[i].name);
                    lemma_name_pos(cxs0, f.name);
                    super::super::spill::lemma_cx_index_distinct(cxs0, orig[i].name, f.name);
                    let x = choose|x: int| 0 <= x < cxs0.len() && cxs0[x].0 == orig[i].name;
                    assert(keys[x] == orig[i].name);
                    lemma_cx_index_props(keys, orig[i].name, x);
                    assert(before[cx_index(keys, orig[i].name)] == cxs0[cx_index(keys, orig[i].name)]);
                }
                assert forall|i: int| 0 <= i < out@.len() implies {
                    let g = #[trigger] orig[i];
                    let ci = cx_index(keys, g.name);
                    exists|map: Seq<(GeneralReg, Option<Register>)>| allocated(g, out@[i], map, cxs0, cxs0[ci].1, this.func_cxs@[ci].1)
                } by {
                    if i < pos {
                        let g = orig[i];
                        assert(alloc_ready(g, cxs0));
                        lemma_name_pos(cxs0, g.name);
                        lemma_name_pos(cxs0, f.name);
                        super::super::spill::lemma_cx_index_distinct(cxs0, g.name, f.name);
                        let ci = cx_index(keys, g.name);
                        let x = choose|x: int| 0 <= x < cxs0.len() && cxs0[x].0 == g.name;
                        assert(keys[x] == g.name);
                        lemma_cx_index_props(keys, g.name, x);
                        assert(this.func_cxs@[ci] == before[ci]);
                        let map = choose|map: Seq<(GeneralReg, Option<Register>)>| allocated(g, out_before[i], map, cxs0, cxs0[ci].1, before[ci].1);
                        assert(out@[i] == out_before[i]);
                        assert(allocated(g, out@[i], map, cxs0, cxs0[ci].1, this.func_cxs@[ci].1));
                    } else {
                        let map = choose|map: Seq<(GeneralReg, Option<Register>)>| allocated(f, a, map, before, before[c].1, this.func_cxs@[c].1);
                        lemma_colors_cxs(f.body@, map, cxs0, before);
                        assert(allocated(f, out@[i], map, cxs0, cxs0[c].1, this.func_cxs@[c].1));
                    }
                }
            }
        }
        (TopLevel { functions: out, data_seg, bss_seg, strtb }, CodeGen {
            func_cxs: this.func_cxs,
            cur_func: None,
            next_label: this.next_label,
            lmap: this.lmap,
            _stage: core::marker::PhantomData,
        })
    }
}

} // verus!
