//! Spilling: every virtual register left after allocation gets a slot of the
//! frame, and the frame is aligned to 16 bytes.

use vstd::prelude::*;
use crate::assembly::Register;
use crate::common::StrDescriptor;
use super::super::lir::{Operand, Insn, Function, TopLevel};
use super::{CodeGen, FuncContext, Spill, Canonic, lookup};

verus! {

/// The operand of size `size` after spilling: a virtual register becomes its frame slot.
pub open spec fn spill_op(cx: FuncContext, o: Operand, size: usize) -> Operand {
    match o {
        Operand::VirtReg(v) => Operand::spec_frame(lookup(cx.mmap@, v)->0, size),
        _ => o,
    }
}

/// The register operands of an instruction, in order.
pub open spec fn insn_ops(i: Insn) -> Seq<Operand> {
    match i {
        Insn::Add(a, b, c) | Insn::Addw(a, b, c) | Insn::Sub(a, b, c) | Insn::Subw(a, b, c)
        | Insn::Mul(a, b, c) | Insn::Mulw(a, b, c) | Insn::Div(a, b, c) | Insn::Divw(a, b, c)
        | Insn::Rem(a, b, c) | Insn::Remw(a, b, c) | Insn::Slt(a, b, c) | Insn::Sgt(a, b, c) => seq![a, b, c],
        Insn::Addi(a, b, _) => seq![a, b],
        Insn::Beq(a, b, _) | Insn::Bne(a, b, _) => seq![a, b],
        Insn::Seqz(a, b) | Insn::Snez(a, b) | Insn::Sextw(a, b) | Insn::Ld(a, b) | Insn::Lw(a, b)
        | Insn::Sd(a, b) | Insn::Sw(a, b) | Insn::Mv(a, b) | Insn::Neg(a, b) | Insn::Negw(a, b) | Insn::Not(a, b) => seq![a, b],
        _ => Seq::empty(),
    }
}

/// An instruction that spilling handles: no load of an immediate or an
/// address, no access to a static, no `addiw` (canonicalization makes those later).
pub open spec fn spillable(i: Insn) -> bool {
    !(i is Li || i is La || i is LoadStatic || i is StoreStatic || i is Addiw)
}

/// Whether every virtual register of the instruction has a slot.
pub open spec fn ops_spilled(cx: FuncContext, i: Insn) -> bool {
    forall|k: int| 0 <= k < insn_ops(i).len() ==> (#[trigger] insn_ops(i)[k] matches Operand::VirtReg(v)
        ==> lookup(cx.mmap@, v) is Some)
}

/// The instruction after spilling; word operations take 4-byte slots.
pub open spec fn spilled(i: Insn, cx: FuncContext) -> Insn {
    match i {
        Insn::Add(d, l, r) => Insn::Add(spill_op(cx, d, 8), spill_op(cx, l, 8), spill_op(cx, r, 8)),
        Insn::Addw(d, l, r) => Insn::Addw(spill_op(cx, d, 4), spill_op(cx, l, 4), spill_op(cx, r, 4)),
        Insn::Addi(d, s, imm) => Insn::Addi(spill_op(cx, d, 8), spill_op(cx, s, 8), imm),
        Insn::Sub(d, l, r) => Insn::Sub(spill_op(cx, d, 8), spill_op(cx, l, 8), spill_op(cx, r, 8)),
        Insn::Subw(d, l, r) => Insn::Subw(spill_op(cx, d, 4), spill_op(cx, l, 4), spill_op(cx, r, 4)),
        Insn::Mul(d, l, r) => Insn::Mul(spill_op(cx, d, 8), spill_op(cx, l, 8), spill_op(cx, r, 8)),
        Insn::Mulw(d, l, r) => Insn::Mulw(spill_op(cx, d, 4), spill_op(cx, l, 4), spill_op(cx, r, 4)),
        Insn::Div(d, l, r) => Insn::Div(spill_op(cx, d, 8), spill_op(cx, l, 8), spill_op(cx, r, 8)),
        Insn::Divw(d, l, r) => Insn::Divw(spill_op(cx, d, 4), spill_op(cx, l, 4), spill_op(cx, r, 4)),
        Insn::Rem(d, l, r) => Insn::Rem(spill_op(cx, d, 8), spill_op(cx, l, 8), spill_op(cx, r, 8)),
        Insn::Remw(d, l, r) => Insn::Remw(spill_op(cx, d, 4), spill_op(cx, l, 4), spill_op(cx, r, 4)),
        Insn::Beq(l, r, lb) => Insn::Beq(spill_op(cx, l, 8), spill_op(cx, r, 8), lb),
        Insn::Bne(l, r, lb) => Insn::Bne(spill_op(cx, l, 8), spill_op(cx, r, 8), lb),
        Insn::Slt(d, l, r) => Insn::Slt(spill_op(cx, d, 8), spill_op(cx, l, 8), spill_op(cx, r, 8)),
        Insn::Sgt(d, l, r) => Insn::Sgt(spill_op(cx, d, 8), spill_op(cx, l, 8), spill_op(cx, r, 8)),
        Insn::Seqz(d, s) => Insn::Seqz(spill_op(cx, d, 8), spill_op(cx, s, 8)),
        Insn::Snez(d, s) => Insn::Snez(spill_op(cx, d, 8), spill_op(cx, s, 8)),
        Insn::Sextw(d, s) => Insn::Sextw(spill_op(cx, d, 8), spill_op(cx, s, 4)),
        Insn::Ld(d, m) => Insn::Ld(spill_op(cx, d, 8), spill_op(cx, m, 8)),
        Insn::Lw(d, m) => Insn::Lw(spill_op(cx, d, 4), spill_op(cx, m, 4)),
        Insn::Sd(s, m) => Insn::Sd(spill_op(cx, s, 8), spill_op(cx, m, 8)),
        Insn::Sw(s, m) => Insn::Sw(spill_op(cx, s, 4), spill_op(cx, m, 4)),
        Insn::Mv(d, s) => Insn::Mv(spill_op(cx, d, 8), spill_op(cx, s, 8)),
        Insn::Neg(d, s) => Insn::Neg(spill_op(cx, d, 8), spill_op(cx, s, 8)),
        Insn::Negw(d, s) => Insn::Negw(spill_op(cx, d, 4), spill_op(cx, s, 4)),
        Insn::Not(d, s) => Insn::Not(spill_op(cx, d, 8), spill_op(cx, s, 8)),
        _ => i,
    }
}

/// `new` is `old` with more virtual registers given slots; the slots given stay.
pub open spec fn mmap_extends(new: FuncContext, old: FuncContext) -> bool {
    &&& new.name == old.name && new.tmap == old.tmap && new.vmap == old.vmap && new.callee_saved == old.callee_saved
    &&& new.frame_size >= old.frame_size
    &&& forall|v: usize| #[trigger] lookup(old.mmap@, v) is Some ==> lookup(new.mmap@, v) == lookup(old.mmap@, v)
}

/// Every slot lies below the frame pointer within the frame.
pub open spec fn slots_in_frame(cx: FuncContext) -> bool {
    forall|k: int| 0 <= k < cx.mmap@.len() ==> -(cx.frame_size as int) <= (#[trigger] cx.mmap@[k]).1 < 0
}

/// The frame slots given so far and the frame size.
pub type SlotState = (Seq<(usize, isize)>, int);

/// The slot state of a function context.
pub open spec fn slot_state(cx: FuncContext) -> SlotState {
    (cx.mmap@, cx.frame_size as int)
}

/// Spills one operand: a virtual register without a slot gets the eight
/// bytes just below the frame, which grows by eight.
pub open spec fn slot_step(st: SlotState, o: Operand) -> SlotState {
    match o {
        Operand::VirtReg(v) => if lookup(st.0, v) is Some { st } else {
            (st.0.push((v, (-(st.1 + 8)) as isize)), st.1 + 8)
        },
        _ => st,
    }
}

/// Spills the operands in order.
pub open spec fn slot_all(st: SlotState, ops: Seq<Operand>) -> SlotState
    decreases ops.len(),
{
    if ops.len() == 0 { st } else { slot_step(slot_all(st, ops.drop_last()), ops.last()) }
}

/// The slots of a context are apart: each later slot lies at least eight
/// bytes below every earlier one, all lie within the frame at or below -24,
/// clear of the saved return address and frame pointer at -8 and -16, and the
/// frame holds those two.
pub open spec fn slots_ok(cx: FuncContext) -> bool {
    &&& cx.frame_size >= 16
    &&& slots_in_frame(cx)
    &&& forall|k: int| 0 <= k < cx.mmap@.len() ==> (#[trigger] cx.mmap@[k]).1 <= -24
    &&& forall|i: int, j: int| 0 <= i < j < cx.mmap@.len() ==> (#[trigger] cx.mmap@[j]).1 + 8 <= (#[trigger] cx.mmap@[i]).1
}

proof fn lemma_spilled_stable(i: Insn, a: FuncContext, b: FuncContext)
    requires mmap_extends(b, a), ops_spilled(a, i),
    ensures spilled(i, b) == spilled(i, a), ops_spilled(b, i),
{
    let ops = insn_ops(i);
    assert forall|k: int, s: usize| 0 <= k < ops.len() implies #[trigger] spill_op(b, ops[k], s) == spill_op(a, ops[k], s) by {
        if let Operand::VirtReg(v) = ops[k] {
            assert(lookup(a.mmap@, v) is Some);
        }
    }
    assert forall|k: int| 0 <= k < ops.len() implies (#[trigger] ops[k] matches Operand::VirtReg(v)
        ==> lookup(b.mmap@, v) is Some) by {
        if let Operand::VirtReg(v) = ops[k] {
            assert(lookup(a.mmap@, v) is Some);
        }
    }
    if ops.len() == 3 {
        assert(spill_op(b, ops[0], 8) == spill_op(a, ops[0], 8));
        assert(spill_op(b, ops[1], 8) == spill_op(a, ops[1], 8));
        assert(spill_op(b, ops[2], 8) == spill_op(a, ops[2], 8));
        assert(spill_op(b, ops[0], 4) == spill_op(a, ops[0], 4));
        assert(spill_op(b, ops[1], 4) == spill_op(a, ops[1], 4));
        assert(spill_op(b, ops[2], 4) == spill_op(a, ops[2], 4));
    } else if ops.len() == 2 {
        assert(spill_op(b, ops[0], 8) == spill_op(a, ops[0], 8));
        assert(spill_op(b, ops[1], 8) == spill_op(a, ops[1], 8));
        assert(spill_op(b, ops[0], 4) == spill_op(a, ops[0], 4));
        assert(spill_op(b, ops[1], 4) == spill_op(a, ops[1], 4));
    }
}

/// The frame slot of a virtual register: the one it has, or a fresh one
/// eight bytes further down.
fn spill_vreg(cx: &mut FuncContext, v_reg: usize) -> (r: isize)
    requires old(cx).frame_size + 8 <= 0x4000_0000,
    ensures
        mmap_extends(*final(cx), *old(cx)),
        lookup(final(cx).mmap@, v_reg) == Some(r),
        final(cx).frame_size <= old(cx).frame_size + 8,
        slots_in_frame(*old(cx)) ==> slots_in_frame(*final(cx)),
        slot_state(*final(cx)) == slot_step(slot_state(*old(cx)), Operand::VirtReg(v_reg)),
        slots_ok(*old(cx)) ==> slots_ok(*final(cx)),
{
    match super::find(&cx.mmap, v_reg) {
        Some(offset) => offset,
        None => {
            let offset: isize = -((cx.frame_size + 8) as isize);
            cx.frame_size = cx.frame_size + 8;
            let ghost before = cx.mmap@;
            cx.map_vreg2frame(v_reg, offset);
            proof {
                assert(cx.mmap@.drop_last() =~= before);
                assert forall|v: usize| #[trigger] lookup(before, v) is Some implies lookup(cx.mmap@, v) == lookup(before, v) by {
                    if v == v_reg { assert(false); }
                }
                assert(cx.mmap@[cx.mmap@.len() - 1] == (v_reg, offset));
            }
            offset
        },
    }
}

/// The operand after spilling.
fn spill_operand(cx: &mut FuncContext, operand: Operand, size: usize) -> (r: Operand)
    requires old(cx).frame_size + 8 <= 0x4000_0000,
    ensures
        mmap_extends(*final(cx), *old(cx)),
        r == spill_op(*final(cx), operand, size),
        operand matches Operand::VirtReg(v) ==> lookup(final(cx).mmap@, v) is Some,
        final(cx).frame_size <= old(cx).frame_size + 8,
        slots_in_frame(*old(cx)) ==> slots_in_frame(*final(cx)),
        slot_state(*final(cx)) == slot_step(slot_state(*old(cx)), operand),
        slots_ok(*old(cx)) ==> slots_ok(*final(cx)),
{
    match operand {
        Operand::VirtReg(v) => {
            let offset = spill_vreg(cx, v);
            Operand::frame(offset, size)
        },
        _ => operand,
    }
}

proof fn lemma_extends_trans(a: FuncContext, b: FuncContext, c: FuncContext)
    requires mmap_extends(b, a), mmap_extends(c, b),
    ensures mmap_extends(c, a),
{
    assert forall|v: usize| #[trigger] lookup(a.mmap@, v) is Some implies lookup(c.mmap@, v) == lookup(a.mmap@, v) by {
        assert(lookup(b.mmap@, v) == lookup(a.mmap@, v));
    }
}

/// Spills the operands of three-operand instructions.
fn spill3(cx: &mut FuncContext, d: Operand, l: Operand, r: Operand, size: usize) -> (res: (Operand, Operand, Operand))
    requires old(cx).frame_size + 24 <= 0x4000_0000,
    ensures
        mmap_extends(*final(cx), *old(cx)),
        res == (spill_op(*final(cx), d, size), spill_op(*final(cx), l, size), spill_op(*final(cx), r, size)),
        d matches Operand::VirtReg(v) ==> lookup(final(cx).mmap@, v) is Some,
        l matches Operand::VirtReg(v) ==> lookup(final(cx).mmap@, v) is Some,
        r matches Operand::VirtReg(v) ==> lookup(final(cx).mmap@, v) is Some,
        final(cx).frame_size <= old(cx).frame_size + 24,
        slots_in_frame(*old(cx)) ==> slots_in_frame(*final(cx)),
        slot_state(*final(cx)) == slot_all(slot_state(*old(cx)), seq![d, l, r]),
        slots_ok(*old(cx)) ==> slots_ok(*final(cx)),
{
    proof {
        reveal_with_fuel(slot_all, 4);
        assert(seq![d, l, r].drop_last() =~= seq![d, l]);
        assert(seq![d, l].drop_last() =~= seq![d]);
        assert(seq![d].drop_last() =~= Seq::<Operand>::empty());
    }
    let ghost c0 = *cx;
    let d2 = spill_operand(cx, d, size);
    let ghost c1 = *cx;
    let l2 = spill_operand(cx, l, size);
    let ghost c2 = *cx;
    let r2 = spill_operand(cx, r, size);
    proof {
        lemma_extends_trans(c0, c1, c2);
        lemma_extends_trans(c0, c2, *cx);
        lemma_extends_trans(c1, c2, *cx);
        if let Operand::VirtReg(v) = d { assert(lookup(c1.mmap@, v) is Some); }
        if let Operand::VirtReg(v) = l { assert(lookup(c2.mmap@, v) is Some); }
    }
    (d2, l2, r2)
}

/// Spills the operands of two-operand instructions, each with its own size.
fn spill2(cx: &mut FuncContext, a: Operand, sa: usize, b: Operand, sb: usize) -> (res: (Operand, Operand))
    requires old(cx).frame_size + 16 <= 0x4000_0000,
    ensures
        mmap_extends(*final(cx), *old(cx)),
        res == (spill_op(*final(cx), a, sa), spill_op(*final(cx), b, sb)),
        a matches Operand::VirtReg(v) ==> lookup(final(cx).mmap@, v) is Some,
        b matches Operand::VirtReg(v) ==> lookup(final(cx).mmap@, v) is Some,
        final(cx).frame_size <= old(cx).frame_size + 16,
        slots_in_frame(*old(cx)) ==> slots_in_frame(*final(cx)),
        slot_state(*final(cx)) == slot_all(slot_state(*old(cx)), seq![a, b]),
        slots_ok(*old(cx)) ==> slots_ok(*final(cx)),
{
    proof {
        reveal_with_fuel(slot_all, 3);
        assert(seq![a, b].drop_last() =~= seq![a]);
        assert(seq![a].drop_last() =~= Seq::<Operand>::empty());
    }
    let ghost c0 = *cx;
    let a2 = spill_operand(cx, a, sa);
    let ghost c1 = *cx;
    let b2 = spill_operand(cx, b, sb);
    proof {
        lemma_extends_trans(c0, c1, *cx);
        if let Operand::VirtReg(v) = a { assert(lookup(c1.mmap@, v) is Some); }
    }
    (a2, b2)
}


/// The names of the contexts, in order.
pub open spec fn keys_of(cxs: Seq<(StrDescriptor, FuncContext)>) -> Seq<StrDescriptor> {
    cxs.map_values(|p: (StrDescriptor, FuncContext)| p.0)
}

/// The position of the first name `name`.
pub open spec fn cx_index(keys: Seq<StrDescriptor>, name: StrDescriptor) -> int {
    choose|i: int| 0 <= i < keys.len() && keys[i] == name && forall|j: int| 0 <= j < i ==> keys[j] != name
}

pub proof fn lemma_cx_index(cxs: Seq<(StrDescriptor, FuncContext)>, name: StrDescriptor, i: int)
    requires 0 <= i < cxs.len(), cxs[i].0 == name, forall|j: int| 0 <= j < i ==> cxs[j].0 != name,
    ensures cx_index(keys_of(cxs), name) == i,
{
    let keys = keys_of(cxs);
    assert(keys[i] == name);
    assert forall|j: int| 0 <= j < i implies keys[j] != name by { assert(keys[j] == cxs[j].0); }
    let c = cx_index(keys, name);
    assert(0 <= c < keys.len() && keys[c] == name && forall|j: int| 0 <= j < c ==> keys[j] != name);
    if c < i { assert(cxs[c].0 == keys[c]); }
    if i < c { assert(keys[i] != name); }
}


/// The first position of a name that occurs.
pub proof fn lemma_cx_index_props(keys: Seq<StrDescriptor>, name: StrDescriptor, x: int)
    requires 0 <= x < keys.len(), keys[x] == name,
    ensures ({
        let c = cx_index(keys, name);
        0 <= c < keys.len() && keys[c] == name && forall|j: int| 0 <= j < c ==> keys[j] != name
    }),
    decreases x,
{
    if exists|y: int| 0 <= y < x && keys[y] == name {
        let y = choose|y: int| 0 <= y < x && keys[y] == name;
        lemma_cx_index_props(keys, name, y);
    } else {
        assert(0 <= x < keys.len() && keys[x] == name && forall|j: int| 0 <= j < x ==> keys[j] != name);
    }
}

/// Distinct names that occur have distinct first positions.
pub proof fn lemma_cx_index_distinct(cxs: Seq<(StrDescriptor, FuncContext)>, a: StrDescriptor, b: StrDescriptor)
    requires
        a != b,
        exists|x: int| 0 <= x < cxs.len() && cxs[x].0 == a,
        exists|x: int| 0 <= x < cxs.len() && cxs[x].0 == b,
    ensures cx_index(keys_of(cxs), a) != cx_index(keys_of(cxs), b),
{
    let keys = keys_of(cxs);
    let x = choose|x: int| 0 <= x < cxs.len() && cxs[x].0 == a;
    let y = choose|x: int| 0 <= x < cxs.len() && cxs[x].0 == b;
    assert(keys[x] == a && keys[y] == b);
    lemma_cx_index_props(keys, a, x);
    lemma_cx_index_props(keys, b, y);
}

/// A function that spilling accepts: its context is there, it holds no
/// instruction spilling cannot handle, and its frame stays small.
pub open spec fn spill_ready(f: Function, cxs: Seq<(StrDescriptor, FuncContext)>) -> bool {
    &&& exists|i: int| 0 <= i < cxs.len() && cxs[i].0 == f.name
    &&& forall|k: int| 0 <= k < f.body@.len() ==> spillable(#[trigger] f.body@[k])
    &&& f.body@.len() < 0x100_0000
    &&& cxs[cx_index(keys_of(cxs), f.name)].1.frame_size < 0x100_0000
}

proof fn lemma_spilled_same_mmap(i: Insn, a: FuncContext, b: FuncContext)
    requires a.mmap@ == b.mmap@,
    ensures spilled(i, a) == spilled(i, b),
{
}

impl CodeGen<Spill> {
    /// Spills a function and aligns its frame.
    pub fn spill_func(&mut self, func: Function) -> (r: Function)
        requires spill_ready(func, old(self).func_cxs@),
        ensures
            final(self).func_cxs@.len() == old(self).func_cxs@.len(),
            ({
                let i = cx_index(keys_of(old(self).func_cxs@), func.name);
                let cx = final(self).func_cxs@[i].1;
                &&& forall|j: int| 0 <= j < final(self).func_cxs@.len() && j != i ==> final(self).func_cxs@[j] == old(self).func_cxs@[j]
                &&& final(self).func_cxs@[i].0 == func.name
                &&& r.name == func.name && r.linkage == func.linkage && r.func_type == func.func_type
                &&& r.body@ == func.body@.map_values(|insn: Insn| spilled(insn, cx))
                &&& r.frame_size == cx.frame_size && cx.frame_size % 16 == 0
                &&& cx.frame_size >= old(self).func_cxs@[i].1.frame_size
                &&& slots_in_frame(old(self).func_cxs@[i].1) ==> slots_in_frame(cx)
                &&& slots_ok(old(self).func_cxs@[i].1) ==> slots_ok(cx)
            }),
    {
        let ghost cxs0 = self.func_cxs@;
        let idx = match crate::common::find_key(&self.func_cxs, func.name) {
            Some(i) => i,
            None => {
                proof { assert(false); }
                0
            },
        };
        proof { lemma_cx_index(cxs0, func.name, idx as int); }
        let (name, mut cx) = self.func_cxs.remove(idx);
        self.cur_func = Some(func.name);
        let Function { name: fname, linkage, func_type, body, .. } = func;
        let ghost orig = body@;
        let n = body.len();
        let mut out: Vec<Insn> = Vec::new();
        let mut k: usize = 0;
        let ghost c0 = cx;
        proof { assert(mmap_extends(cx, cx)); }
        while k < n
            invariant
                k <= n, n == orig.len(), orig == body@, n < 0x100_0000,
                self.func_cxs@ == cxs0.remove(idx as int), idx < cxs0.len(),
                c0.frame_size < 0x100_0000,
                cx.frame_size <= c0.frame_size + 24 * k,
                forall|m: int| 0 <= m < orig.len() ==> spillable(#[trigger] orig[m]),
                mmap_extends(cx, c0),
                slots_in_frame(c0) ==> slots_in_frame(cx),
                slots_ok(c0) ==> slots_ok(cx),
                out@.len() == k,
                forall|m: int| 0 <= m < k ==> ops_spilled(cx, #[trigger] orig[m]) && out@[m] == spilled(orig[m], cx),
            decreases n - k,
        {
            let ghost before = cx;
            let s_insn = self.spill_insn(&mut cx, body[k]);
            proof {
                lemma_extends_trans(c0, before, cx);
                assert forall|m: int| 0 <= m < k implies ops_spilled(cx, #[trigger] orig[m]) && out@[m] == spilled(orig[m], cx) by {
                    lemma_spilled_stable(orig[m], before, cx);
                }
            }
            out.push(s_insn);
            k = k + 1;
        }
        let ghost c_loop = cx;
        cx.frame_size = (cx.frame_size + 15) / 16 * 16;
        let callee_saved = match cx.callee_saved.take() {
            Some(v) => v,
            None => Vec::new(),
        };
        let frame_size = cx.frame_size;
        proof {
            assert forall|m: int| 0 <= m < k implies out@[m] == spilled(orig[m], cx) by {
                lemma_spilled_same_mmap(orig[m], cx, c_loop);
            }
            assert(out@ =~= orig.map_values(|insn: Insn| spilled(insn, cx)));
        }
        self.func_cxs.insert(idx, (name, cx));
        self.cur_func = None;
        proof {
            assert forall|j: int| 0 <= j < self.func_cxs@.len() && j != idx implies self.func_cxs@[j] == cxs0[j] by {
                if j < idx { assert(self.func_cxs@[j] == cxs0.remove(idx as int)[j]); }
                else { assert(self.func_cxs@[j] == cxs0.remove(idx as int)[j - 1]); }
            }
        }
        Function { name: fname, linkage, func_type, body: out, frame_size, callee_saved }
    }

    /// Spills every function.
    #[verifier::rlimit(80)]
    pub fn spill(self, lir: TopLevel) -> (r: (TopLevel, CodeGen<Canonic>))
        requires
            forall|i: int, j: int| 0 <= i < j < lir.functions@.len() ==> lir.functions@[i].name != lir.functions@[j].name,
            forall|i: int| 0 <= i < lir.functions@.len() ==> spill_ready(#[trigger] lir.functions@[i], self.func_cxs@),
        ensures
            r.0.strtb == lir.strtb,
            r.0.data_seg == lir.data_seg,
            r.0.bss_seg == lir.bss_seg,
            r.0.functions@.len() == lir.functions@.len(),
            keys_of(r.1.func_cxs@) == keys_of(self.func_cxs@),
            forall|i: int| 0 <= i < lir.functions@.len() ==> {
                let f = #[trigger] lir.functions@[i];
                let cx = r.1.func_cxs@[cx_index(keys_of(self.func_cxs@), f.name)].1;
                &&& r.0.functions@[i].name == f.name
                &&& r.0.functions@[i].body@ == f.body@.map_values(|insn: Insn| spilled(insn, cx))
                &&& r.0.functions@[i].frame_size == cx.frame_size && cx.frame_size % 16 == 0
                &&& slots_ok(self.func_cxs@[cx_index(keys_of(self.func_cxs@), f.name)].1) ==> slots_ok(cx)
            },
    {
        let mut this = self;
        let TopLevel { functions, data_seg, bss_seg, strtb } = lir;
        let ghost orig = functions@;
        let ghost cxs0 = this.func_cxs@;
        let ghost keys = keys_of(cxs0);
        let n = functions.len();
        let mut rest = functions;
        let mut out: Vec<Function> = Vec::new();
        let mut j: usize = 0;
        while j < n
            invariant
                j <= n, n == orig.len(),
                rest@ == orig.subrange(j as int, n as int),
                keys == keys_of(cxs0),
                forall|a: int, b: int| 0 <= a < b < orig.len() ==> orig[a].name != orig[b].name,
                forall|a: int| 0 <= a < orig.len() ==> spill_ready(#[trigger] orig[a], cxs0),
                keys_of(this.func_cxs@) == keys,
                forall|a: int| j <= a < n ==> #[trigger] this.func_cxs@[cx_index(keys, orig[a].name)] == cxs0[cx_index(keys, orig[a].name)],
                out@.len() == j,
                forall|a: int| 0 <= a < j ==> {
                    let f = #[trigger] orig[a];
                    let cx = this.func_cxs@[cx_index(keys, f.name)].1;
                    &&& out@[a].name == f.name
                    &&& out@[a].body@ == f.body@.map_values(|insn: Insn| spilled(insn, cx))
                    &&& out@[a].frame_size == cx.frame_size && cx.frame_size % 16 == 0
                    &&& slots_ok(cxs0[cx_index(keys, f.name)].1) ==> slots_ok(cx)
                },
            decreases n - j,
        {
            let func = rest.remove(0);
            proof {
                assert(func == orig[j as int]);
                assert(rest@ =~= orig.subrange(j as int + 1, n as int));
                assert(keys_of(this.func_cxs@) == keys);
                assert(spill_ready(orig[j as int], cxs0));
                let x = choose|x: int| 0 <= x < cxs0.len() && cxs0[x].0 == func.name;
                assert(keys[x] == func.name);
                assert(keys_of(this.func_cxs@)[x] == func.name);
                assert(this.func_cxs@[x].0 == func.name);
                assert(this.func_cxs@[cx_index(keys, func.name)] == cxs0[cx_index(keys, func.name)]);
            }
            let ghost before = this.func_cxs@;
            let f = this.spill_func(func);
            proof {
                let i = cx_index(keys, orig[j as int].name);
                let x = choose|x: int| 0 <= x < cxs0.len() && cxs0[x].0 == orig[j as int].name;
                assert(keys[x] == orig[j as int].name);
                lemma_cx_index_props(keys, orig[j as int].name, x);
                assert(keys_of(this.func_cxs@) =~= keys) by {
                    assert forall|b: int| 0 <= b < keys.len() implies keys_of(this.func_cxs@)[b] == keys[b] by {
                        if b != i { assert(this.func_cxs@[b] == before[b]); }
                        assert(keys_of(before)[b] == keys[b]);
                    }
                }
                assert forall|a: int| 0 <= a < orig.len() && a != j implies #[trigger] cx_index(keys, orig[a].name) != i by {
                    assert(spill_ready(orig[a], cxs0));
                    lemma_cx_index_distinct(cxs0, orig[a].name, orig[j as int].name);
                }
            }
            let ghost out0 = out@;
            out.push(f);
            proof {
                let i = cx_index(keys, orig[j as int].name);
                assert(keys_of(before) == keys);
                assert forall|a: int| j + 1 <= a < n implies #[trigger] this.func_cxs@[cx_index(keys, orig[a].name)]
                    == cxs0[cx_index(keys, orig[a].name)] by {
                    assert(cx_index(keys, orig[a].name) != i);
                    assert(spill_ready(orig[a], cxs0));
                    let x = choose|x: int| 0 <= x < cxs0.len() && cxs0[x].0 == orig[a].name;
                    assert(keys[x] == orig[a].name);
                    lemma_cx_index_props(keys, orig[a].name, x);
                    assert(this.func_cxs@[cx_index(keys, orig[a].name)] == before[cx_index(keys, orig[a].name)]);
                }
                assert forall|a: int| 0 <= a < j + 1 implies {
                    let f = #[trigger] orig[a];
                    let cx = this.func_cxs@[cx_index(keys, f.name)].1;
                    &&& out@[a].name == f.name
                    &&& out@[a].body@ == f.body@.map_values(|insn: Insn| spilled(insn, cx))
                    &&& out@[a].frame_size == cx.frame_size && cx.frame_size % 16 == 0
                    &&& slots_ok(cxs0[cx_index(keys, f.name)].1) ==> slots_ok(cx)
                } by {
                    if a < j {
                        assert(cx_index(keys, orig[a].name) != i);
                        assert(spill_ready(orig[a], cxs0));
                        let x = choose|x: int| 0 <= x < cxs0.len() && cxs0[x].0 == orig[a].name;
                        assert(keys[x] == orig[a].name);
                        lemma_cx_index_props(keys, orig[a].name, x);
                        assert(this.func_cxs@[cx_index(keys, orig[a].name)] == before[cx_index(keys, orig[a].name)]);
                        assert(out@[a] == out0[a]);
                    }
                }
            }
            j = j + 1;
        }
        (TopLevel { functions: out, data_seg, bss_seg, strtb },
         CodeGen { func_cxs: this.func_cxs, cur_func: None, next_label: this.next_label, lmap: this.lmap,
            _stage: core::marker::PhantomData })
    }
}


impl CodeGen<Spill> {
    /// Replaces the virtual registers of an instruction by their frame slots.
    #[verifier::rlimit(60)]
    pub fn spill_insn(&mut self, cx: &mut FuncContext, insn: Insn) -> (r: Insn)
        requires spillable(insn), old(cx).frame_size + 24 <= 0x4000_0000,
        ensures
            *final(self) == *old(self),
            mmap_extends(*final(cx), *old(cx)),
            r == spilled(insn, *final(cx)),
            ops_spilled(*final(cx), insn),
            final(cx).frame_size <= old(cx).frame_size + 24,
            slots_in_frame(*old(cx)) ==> slots_in_frame(*final(cx)),
            slot_state(*final(cx)) == slot_all(slot_state(*old(cx)), insn_ops(insn)),
            slots_ok(*old(cx)) ==> slots_ok(*final(cx)),
    {
        proof { assert(mmap_extends(*cx, *cx)); }
        match insn {
            Insn::Add(d, l, r) => { let (d, l, r) = spill3(cx, d, l, r, 8); Insn::Add(d, l, r) },
            Insn::Addw(d, l, r) => { let (d, l, r) = spill3(cx, d, l, r, 4); Insn::Addw(d, l, r) },
            Insn::Addi(d, s, imm) => { let (d, s) = spill2(cx, d, 8, s, 8); Insn::Addi(d, s, imm) },
            Insn::Sub(d, l, r) => { let (d, l, r) = spill3(cx, d, l, r, 8); Insn::Sub(d, l, r) },
            Insn::Subw(d, l, r) => { let (d, l, r) = spill3(cx, d, l, r, 4); Insn::Subw(d, l, r) },
            Insn::Mul(d, l, r) => { let (d, l, r) = spill3(cx, d, l, r, 8); Insn::Mul(d, l, r) },
            Insn::Mulw(d, l, r) => { let (d, l, r) = spill3(cx, d, l, r, 4); Insn::Mulw(d, l, r) },
            Insn::Div(d, l, r) => { let (d, l, r) = spill3(cx, d, l, r, 8); Insn::Div(d, l, r) },
            Insn::Divw(d, l, r) => { let (d, l, r) = spill3(cx, d, l, r, 4); Insn::Divw(d, l, r) },
            Insn::Rem(d, l, r) => { let (d, l, r) = spill3(cx, d, l, r, 8); Insn::Rem(d, l, r) },
            Insn::Remw(d, l, r) => { let (d, l, r) = spill3(cx, d, l, r, 4); Insn::Remw(d, l, r) },
            Insn::Beq(l, r, lb) => { let (l, r) = spill2(cx, l, 8, r, 8); Insn::Beq(l, r, lb) },
            Insn::Bne(l, r, lb) => { let (l, r) = spill2(cx, l, 8, r, 8); Insn::Bne(l, r, lb) },
            Insn::Slt(d, l, r) => { let (d, l, r) = spill3(cx, d, l, r, 8); Insn::Slt(d, l, r) },
            Insn::Sgt(d, l, r) => { let (d, l, r) = spill3(cx, d, l, r, 8); Insn::Sgt(d, l, r) },
            Insn::Seqz(d, s) => { let (d, s) = spill2(cx, d, 8, s, 8); Insn::Seqz(d, s) },
            Insn::Snez(d, s) => { let (d, s) = spill2(cx, d, 8, s, 8); Insn::Snez(d, s) },
            Insn::Sextw(d, s) => { let (d, s) = spill2(cx, d, 8, s, 4); Insn::Sextw(d, s) },
            Insn::Ld(d, m) => { let (d, m) = spill2(cx, d, 8, m, 8); Insn::Ld(d, m) },
            Insn::Lw(d, m) => { let (d, m) = spill2(cx, d, 4, m, 4); Insn::Lw(d, m) },
            Insn::Sd(s, m) => { let (s, m) = spill2(cx, s, 8, m, 8); Insn::Sd(s, m) },
            Insn::Sw(s, m) => { let (s, m) = spill2(cx, s, 4, m, 4); Insn::Sw(s, m) },
            Insn::Mv(d, s) => { let (d, s) = spill2(cx, d, 8, s, 8); Insn::Mv(d, s) },
            Insn::Neg(d, s) => { let (d, s) = spill2(cx, d, 8, s, 8); Insn::Neg(d, s) },
            Insn::Negw(d, s) => { let (d, s) = spill2(cx, d, 4, s, 4); Insn::Negw(d, s) },
            Insn::Not(d, s) => { let (d, s) = spill2(cx, d, 8, s, 8); Insn::Not(d, s) },
            other => other,
        }
    }
}

} // verus!
