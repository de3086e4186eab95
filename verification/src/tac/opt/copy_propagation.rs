//! Copy propagation: a forward analysis of the copies `dst = src` that hold
//! on every path to each instruction, then the replacement of each read of
//! a copied variable by its source, and the removal of copies that already hold.

use vstd::prelude::*;
use vstd::set_lib::{lemma_len_subset, lemma_subset_equality};
use super::super::tac::{Function, Insn, Operand};
use super::super::{CodeGen, Opt};
use super::cfg::{blocks_of, buildable, flatten, preds_of, succs_of, BasicBlock, Graph, NodeId};

verus! {

broadcast use vstd::seq_lib::group_seq_properties;

/// A set of copies `(dst, src)`, each held once.
#[derive(Debug)]
pub struct ReachingCopies {
    pub defs: Vec<(Operand, Operand)>,
}

impl View for ReachingCopies {
    type V = Set<(Operand, Operand)>;

    open spec fn view(&self) -> Set<(Operand, Operand)> {
        self.defs@.to_set()
    }
}

/// The copies of a set, one at a time.
#[derive(Debug)]
pub struct Iter {
    pub items: Vec<(Operand, Operand)>,
    pub index: usize,
}

impl Iter {
    /// The next copy `(dst, src)`, or `None` after the last one.
    pub fn next(&mut self) -> (r: Option<(Operand, Operand)>)
        ensures
            final(self).items == old(self).items,
            old(self).index < old(self).items@.len() ==> r == Some(old(self).items@[old(self).index as int])
                && final(self).index == old(self).index + 1,
            old(self).index >= old(self).items@.len() ==> r is None && final(self).index == old(self).index,
    {
        if self.index < self.items.len() {
            let c = self.items[self.index];
            self.index = self.index + 1;
            Some(c)
        } else {
            None
        }
    }
}

/// The copies of a set, without those that `keep` rejects.
pub open spec fn kept(c: Set<(Operand, Operand)>, dst: Operand, statics: bool) -> Set<(Operand, Operand)> {
    Set::new(|p: (Operand, Operand)| c.contains(p) && p.0 != dst && p.1 != dst
        && !(statics && (p.0.spec_is_static() || p.1.spec_is_static())))
}

impl ReachingCopies {
    /// No copy is held twice.
    pub open spec fn wf(self) -> bool {
        self.defs@.no_duplicates()
    }

    pub fn new() -> (r: Self)
        ensures r.wf(), r@ == Set::<(Operand, Operand)>::empty(),
    {
        let r = ReachingCopies { defs: Vec::new() };
        proof { assert(r@ =~= Set::<(Operand, Operand)>::empty()); }
        r
    }

    /// The same set.
    pub fn copy(&self) -> (r: Self)
        ensures r.defs@ == self.defs@, r@ == self@,
    {
        let mut v: Vec<(Operand, Operand)> = Vec::new();
        let mut i: usize = 0;
        while i < self.defs.len()
            invariant i <= self.defs@.len(), v@ == self.defs@.subrange(0, i as int),
            decreases self.defs@.len() - i,
        {
            v.push(self.defs[i]);
            i = i + 1;
            proof { assert(v@ =~= self.defs@.subrange(0, i as int)); }
        }
        proof { assert(v@ =~= self.defs@); }
        ReachingCopies { defs: v }
    }

    /// The copies of the set, in the order they were added.
    pub fn iter(&self) -> (r: Iter)
        ensures r.items@ == self.defs@, r.index == 0,
    {
        Iter { items: self.copy().defs, index: 0 }
    }

    pub fn contains(&self, dst: Operand, src: Operand) -> (r: bool)
        ensures r == self@.contains((dst, src)),
    {
        let mut i: usize = 0;
        while i < self.defs.len()
            invariant i <= self.defs@.len(), forall|j: int| 0 <= j < i ==> self.defs@[j] != (dst, src),
            decreases self.defs@.len() - i,
        {
            let (d, s) = self.defs[i];
            if d == dst && s == src {
                proof { assert(self.defs@[i as int] == (dst, src)); assert(self.defs@.contains((dst, src))); }
                return true;
            }
            i = i + 1;
        }
        proof { assert(!self.defs@.contains((dst, src))); }
        false
    }

    pub fn add(&mut self, dst: Operand, src: Operand)
        requires old(self).wf(),
        ensures final(self).wf(), final(self)@ == old(self)@.insert((dst, src)),
    {
        if !self.contains(dst, src) {
            let ghost s = self.defs@;
            self.defs.push((dst, src));
            proof {
                assert(self.defs@ == s.push((dst, src)));
                assert forall|i: int, j: int| 0 <= i < j < self.defs@.len() implies self.defs@[i] != self.defs@[j] by {
                    if j == s.len() { assert(s.contains(s[i])); }
                }
                assert(self@ =~= s.to_set().insert((dst, src)));
            }
        } else {
            proof { assert(self@ =~= self@.insert((dst, src))); }
        }
    }

    /// Keeps the copies that name neither `dst` nor, where `statics` holds,
    /// a static variable.
    pub fn retain_unrelated(&mut self, dst: Operand, statics: bool)
        requires old(self).wf(),
        ensures final(self).wf(), final(self)@ == kept(old(self)@, dst, statics),
    {
        let ghost s = self.defs@;
        let mut v: Vec<(Operand, Operand)> = Vec::new();
        let mut i: usize = 0;
        while i < self.defs.len()
            invariant
                self.defs@ == s, s.no_duplicates(), i <= s.len(),
                v@.no_duplicates(),
                v@.to_set() == kept(s.subrange(0, i as int).to_set(), dst, statics),
                forall|k: int| 0 <= k < v@.len() ==> s.subrange(0, i as int).contains(#[trigger] v@[k]),
            decreases s.len() - i,
        {
            let (d, sr) = self.defs[i];
            let ghost x = s[i as int];
            let ghost before = v@;
            let keep = d != dst && sr != dst && !(statics && (d.is_static() || sr.is_static()));
            if keep {
                v.push((d, sr));
                proof {
                    assert forall|a: int, b: int| 0 <= a < b < v@.len() implies v@[a] != v@[b] by {
                        if b == before.len() {
                            assert(s.subrange(0, i as int).contains(v@[a]));
                            let k = choose|k: int| 0 <= k < i && s.subrange(0, i as int)[k] == v@[a];
                            assert(s[k] == v@[a]);
                        }
                    }
                }
            }
            proof {
                assert(x == (d, sr));
                assert(s.subrange(0, i as int + 1) == s.subrange(0, i as int).push(x));
                assert(s.subrange(0, i as int + 1).to_set() =~= s.subrange(0, i as int).to_set().insert(x));
                if keep {
                    assert(v@ == before.push(x));
                    assert(v@.to_set() =~= before.to_set().insert(x));
                }
                assert(v@.to_set() =~= kept(s.subrange(0, i as int + 1).to_set(), dst, statics));
                assert forall|k: int| 0 <= k < v@.len() implies s.subrange(0, i as int + 1).contains(#[trigger] v@[k]) by {
                    if k < before.len() {
                        let m = choose|m: int| 0 <= m < i && s.subrange(0, i as int)[m] == v@[k];
                        assert(s.subrange(0, i as int + 1)[m] == v@[k]);
                    } else {
                        assert(s.subrange(0, i as int + 1)[i as int] == v@[k]);
                    }
                }
            }
            i = i + 1;
        }
        proof { assert(s.subrange(0, i as int) =~= s); }
        self.defs = v;
    }

    /// Keeps the copies that `other` holds too.
    pub fn intersect_with(&mut self, other: &Self)
        requires old(self).wf(),
        ensures final(self).wf(), final(self)@ == old(self)@.intersect(other@),
    {
        let ghost s = self.defs@;
        let mut v: Vec<(Operand, Operand)> = Vec::new();
        let mut i: usize = 0;
        while i < self.defs.len()
            invariant
                self.defs@ == s, s.no_duplicates(), i <= s.len(),
                v@.no_duplicates(),
                v@.to_set() == s.subrange(0, i as int).to_set().intersect(other@),
                forall|k: int| 0 <= k < v@.len() ==> s.subrange(0, i as int).contains(#[trigger] v@[k]),
            decreases s.len() - i,
        {
            let (d, sr) = self.defs[i];
            let ghost x = s[i as int];
            let ghost before = v@;
            let keep = other.contains(d, sr);
            if keep {
                v.push((d, sr));
                proof {
                    assert forall|a: int, b: int| 0 <= a < b < v@.len() implies v@[a] != v@[b] by {
                        if b == before.len() {
                            assert(s.subrange(0, i as int).contains(v@[a]));
                            let k = choose|k: int| 0 <= k < i && s.subrange(0, i as int)[k] == v@[a];
                            assert(s[k] == v@[a]);
                        }
                    }
                }
            }
            proof {
                assert(x == (d, sr));
                assert(s.subrange(0, i as int + 1) == s.subrange(0, i as int).push(x));
                assert(s.subrange(0, i as int + 1).to_set() =~= s.subrange(0, i as int).to_set().insert(x));
                if keep {
                    assert(v@ == before.push(x));
                    assert(v@.to_set() =~= before.to_set().insert(x));
                }
                assert(v@.to_set() =~= s.subrange(0, i as int + 1).to_set().intersect(other@));
                assert forall|k: int| 0 <= k < v@.len() implies s.subrange(0, i as int + 1).contains(#[trigger] v@[k]) by {
                    if k < before.len() {
                        let m = choose|m: int| 0 <= m < i && s.subrange(0, i as int)[m] == v@[k];
                        assert(s.subrange(0, i as int + 1)[m] == v@[k]);
                    } else {
                        assert(s.subrange(0, i as int + 1)[i as int] == v@[k]);
                    }
                }
            }
            i = i + 1;
        }
        proof { assert(s.subrange(0, i as int) =~= s); }
        self.defs = v;
    }

    /// Whether the two sets differ.
    pub fn diff_with(&self, other: &Self) -> (r: bool)
        requires self.wf(), other.wf(),
        ensures r == (self@ != other@),
    {
        proof {
            self.defs@.unique_seq_to_set();
            other.defs@.unique_seq_to_set();
        }
        if self.defs.len() != other.defs.len() {
            return true;
        }
        let mut i: usize = 0;
        while i < self.defs.len()
            invariant
                i <= self.defs@.len(),
                forall|j: int| 0 <= j < i ==> other@.contains(#[trigger] self.defs@[j]),
            decreases self.defs@.len() - i,
        {
            let (d, s) = self.defs[i];
            if !other.contains(d, s) {
                proof { assert(self.defs@[i as int] == (d, s)); assert(self@.contains(self.defs@[i as int])); }
                return true;
            }
            proof { assert(self.defs@[i as int] == (d, s)); }
            i = i + 1;
        }
        proof {
            assert(self@.subset_of(other@)) by {
                assert forall|x: (Operand, Operand)| self@.contains(x) implies other@.contains(x) by {
                    let j = choose|j: int| 0 <= j < self.defs@.len() && self.defs@[j] == x;
                }
            }
            lemma_subset_equality(self@, other@);
        }
        false
    }
}

/// The copies that hold after an instruction, given those that hold before
/// it: a copy that already holds changes nothing; a write kills every copy
/// that names its destination, and a call every copy that names a static
/// variable too.
pub open spec fn cstep(c: Set<(Operand, Operand)>, i: Insn) -> Set<(Operand, Operand)> {
    match i {
        Insn::Move { src, dst } => if c.contains((dst, src)) { c } else { kept(c, dst, false).insert((dst, src)) },
        Insn::FuncCall { dst, .. } => kept(c, dst, true),
        Insn::SignExt { dst, .. } | Insn::Truncate { dst, .. } | Insn::Unary { dst, .. } | Insn::Binary { dst, .. } =>
            kept(c, dst, false),
        _ => c,
    }
}

/// The copies that hold after a run of instructions, given those before it.
pub open spec fn ctransfer(c: Set<(Operand, Operand)>, insns: Seq<Insn>) -> Set<(Operand, Operand)>
    decreases insns.len(),
{
    if insns.len() == 0 { c } else { cstep(ctransfer(c, insns.drop_last()), insns.last()) }
}

/// The copies a run of instructions makes, in order.
pub open spec fn copies_seq(insns: Seq<Insn>) -> Seq<(Operand, Operand)>
    decreases insns.len(),
{
    if insns.len() == 0 {
        Seq::empty()
    } else {
        copies_seq(insns.drop_last()) + match insns.last() {
            Insn::Move { src, dst } => seq![(dst, src)],
            _ => Seq::empty(),
        }
    }
}

/// The copies every block makes, block after block.
pub open spec fn graph_copies(bs: Seq<Seq<Insn>>) -> Seq<(Operand, Operand)>
    decreases bs.len(),
{
    if bs.len() == 0 { Seq::empty() } else { graph_copies(bs.drop_last()) + copies_seq(bs.last()) }
}

/// Every copy of the body: what holds where nothing is known yet.
pub open spec fn all_copies(bs: Seq<Seq<Insn>>) -> Set<(Operand, Operand)> {
    graph_copies(bs).to_set()
}

/// The copies that hold on entering a block: none after the entry, else
/// those of the body that hold on leaving every predecessor.
pub open spec fn cmeet(out: Seq<Set<(Operand, Operand)>>, preds: Set<NodeId>, u: Set<(Operand, Operand)>) -> Set<(Operand, Operand)> {
    if preds.contains(NodeId::Entry) {
        Set::empty()
    } else {
        Set::new(|p: (Operand, Operand)| u.contains(p)
            && forall|t: usize| t < out.len() && #[trigger] preds.contains(NodeId::BasicBlock(t)) ==> out[t as int].contains(p))
    }
}

/// The copies that hold on leaving block `b`, given those on leaving every block.
pub open spec fn cflow(bs: Seq<Seq<Insn>>, out: Seq<Set<(Operand, Operand)>>, b: int) -> Set<(Operand, Operand)> {
    ctransfer(cmeet(out, preds_of(bs, b), all_copies(bs)), bs[b])
}

/// Sets of copies that the flow equations do not shrink.
pub open spec fn is_pre(bs: Seq<Seq<Insn>>, out: Seq<Set<(Operand, Operand)>>) -> bool {
    out.len() == bs.len() && forall|b: int| 0 <= b < out.len() ==> (#[trigger] out[b]).subset_of(cflow(bs, out, b))
}

/// `a` is contained in `b`, block by block.
pub open spec fn below(a: Seq<Set<(Operand, Operand)>>, b: Seq<Set<(Operand, Operand)>>) -> bool {
    a.len() == b.len() && forall|k: int| 0 <= k < a.len() ==> (#[trigger] a[k]).subset_of(b[k])
}

/// The copies of a body: the greatest solution of its flow equations,
/// containing block by block every set that the equations do not shrink.
pub open spec fn reaching(bs: Seq<Seq<Insn>>, out: Seq<Set<(Operand, Operand)>>) -> bool {
    &&& out.len() == bs.len()
    &&& forall|b: int| 0 <= b < bs.len() ==> #[trigger] out[b] == cflow(bs, out, b)
    &&& forall|l: Seq<Set<(Operand, Operand)>>| #[trigger] is_pre(bs, l) ==> below(l, out)
}

/// The copies that hold before instruction `k` of block `b`.
pub open spec fn copies_before(bs: Seq<Seq<Insn>>, out: Seq<Set<(Operand, Operand)>>, b: int, k: int) -> Set<(Operand, Operand)> {
    ctransfer(cmeet(out, preds_of(bs, b), all_copies(bs)), bs[b].subrange(0, k))
}

proof fn lemma_cstep_mono(a: Set<(Operand, Operand)>, b: Set<(Operand, Operand)>, i: Insn)
    requires a.subset_of(b),
    ensures cstep(a, i).subset_of(cstep(b, i)),
{
    match i {
        Insn::Move { src, dst } => {
            if !a.contains((dst, src)) && b.contains((dst, src)) {
                assert(kept(a, dst, false).insert((dst, src)).subset_of(b));
            }
        },
        _ => {},
    }
}

proof fn lemma_ctransfer_mono(a: Set<(Operand, Operand)>, b: Set<(Operand, Operand)>, insns: Seq<Insn>)
    requires a.subset_of(b),
    ensures ctransfer(a, insns).subset_of(ctransfer(b, insns)),
    decreases insns.len(),
{
    if insns.len() > 0 {
        lemma_ctransfer_mono(a, b, insns.drop_last());
        lemma_cstep_mono(ctransfer(a, insns.drop_last()), ctransfer(b, insns.drop_last()), insns.last());
    }
}

proof fn lemma_cflow_mono(bs: Seq<Seq<Insn>>, a: Seq<Set<(Operand, Operand)>>, b: Seq<Set<(Operand, Operand)>>, k: int)
    requires below(a, b), 0 <= k < bs.len(),
    ensures cflow(bs, a, k).subset_of(cflow(bs, b, k)),
{
    let preds = preds_of(bs, k);
    let u = all_copies(bs);
    assert(cmeet(a, preds, u).subset_of(cmeet(b, preds, u))) by {
        if !preds.contains(NodeId::Entry) {
            assert forall|p: (Operand, Operand)| cmeet(a, preds, u).contains(p) implies cmeet(b, preds, u).contains(p) by {
                assert forall|t: usize| t < b.len() && #[trigger] preds.contains(NodeId::BasicBlock(t)) implies b[t as int].contains(p) by {
                    assert(a[t as int].subset_of(b[t as int]));
                }
            }
        }
    }
    lemma_ctransfer_mono(cmeet(a, preds, u), cmeet(b, preds, u), bs[k]);
}

/// The flow out of a block does not depend on blocks that do not lead to it.
proof fn lemma_cflow_frame(bs: Seq<Seq<Insn>>, out: Seq<Set<(Operand, Operand)>>, t: int, s: Set<(Operand, Operand)>, k: int)
    requires
        0 <= k < bs.len(), 0 <= t < out.len(),
        !preds_of(bs, k).contains(NodeId::BasicBlock(t as usize)),
    ensures cflow(bs, out.update(t, s), k) == cflow(bs, out, k),
{
    let preds = preds_of(bs, k);
    let u = all_copies(bs);
    assert(cmeet(out.update(t, s), preds, u) =~= cmeet(out, preds, u)) by {
        if !preds.contains(NodeId::Entry) {
            assert forall|p: (Operand, Operand)| cmeet(out.update(t, s), preds, u).contains(p) <==> cmeet(out, preds, u).contains(p) by {
                if cmeet(out.update(t, s), preds, u).contains(p) {
                    assert forall|x: usize| x < out.len() && #[trigger] preds.contains(NodeId::BasicBlock(x)) implies out[x as int].contains(p) by {
                        assert(x != t);
                        assert(out.update(t, s)[x as int].contains(p));
                    }
                }
                if cmeet(out, preds, u).contains(p) {
                    assert forall|x: usize| x < out.len() && #[trigger] preds.contains(NodeId::BasicBlock(x)) implies out.update(t, s)[x as int].contains(p) by {
                        assert(x != t);
                        assert(out[x as int].contains(p));
                    }
                }
            }
        }
    }
}

proof fn lemma_concat_to_set(a: Seq<(Operand, Operand)>, b: Seq<(Operand, Operand)>)
    ensures (a + b).to_set() == a.to_set().union(b.to_set()),
{
    assert forall|x: (Operand, Operand)| (a + b).to_set().contains(x) <==> a.to_set().union(b.to_set()).contains(x) by {
        if (a + b).to_set().contains(x) {
            let k = choose|k: int| 0 <= k < (a + b).len() && (a + b)[k] == x;
            if k >= a.len() { assert(b[k - a.len()] == x); }
        }
        if a.to_set().contains(x) {
            let k = choose|k: int| 0 <= k < a.len() && a[k] == x;
            assert((a + b)[k] == x);
        }
        if b.to_set().contains(x) {
            let k = choose|k: int| 0 <= k < b.len() && b[k] == x;
            assert((a + b)[a.len() + k] == x);
        }
    }
    assert((a + b).to_set() =~= a.to_set().union(b.to_set()));
}

/// What a run of instructions leaves stays among the copies given and those it makes.
proof fn lemma_ctransfer_bound(c: Set<(Operand, Operand)>, insns: Seq<Insn>, u: Set<(Operand, Operand)>)
    requires c.subset_of(u), copies_seq(insns).to_set().subset_of(u),
    ensures ctransfer(c, insns).subset_of(u),
    decreases insns.len(),
{
    if insns.len() > 0 {
        let d = insns.drop_last();
        let last: Seq<(Operand, Operand)> = match insns.last() {
            Insn::Move { src, dst } => seq![(dst, src)],
            _ => Seq::empty(),
        };
        lemma_concat_to_set(copies_seq(d), last);
        lemma_ctransfer_bound(c, d, u);
        if let Insn::Move { src, dst } = insns.last() {
            assert(last.to_set().contains((dst, src))) by { assert(last[0] == (dst, src)); }
        }
    }
}

proof fn lemma_graph_copies(bs: Seq<Seq<Insn>>, b: int)
    requires 0 <= b < bs.len(),
    ensures copies_seq(bs[b]).to_set().subset_of(all_copies(bs)),
    decreases bs.len(),
{
    lemma_concat_to_set(graph_copies(bs.drop_last()), copies_seq(bs.last()));
    if b < bs.len() - 1 {
        lemma_graph_copies(bs.drop_last(), b);
    }
}

/// The flow out of a block stays among the copies of the body.
proof fn lemma_cflow_bound(bs: Seq<Seq<Insn>>, out: Seq<Set<(Operand, Operand)>>, b: int)
    requires 0 <= b < bs.len(),
    ensures cflow(bs, out, b).subset_of(all_copies(bs)),
{
    lemma_graph_copies(bs, b);
    lemma_ctransfer_bound(cmeet(out, preds_of(bs, b), all_copies(bs)), bs[b], all_copies(bs));
}

/// How many copies the sets hold, summed.
pub open spec fn size(out: Seq<Set<(Operand, Operand)>>) -> int
    decreases out.len(),
{
    if out.len() == 0 { 0 } else { size(out.drop_last()) + out.last().len() }
}

proof fn lemma_size_update(out: Seq<Set<(Operand, Operand)>>, t: int, s: Set<(Operand, Operand)>)
    requires 0 <= t < out.len(),
    ensures size(out.update(t, s)) == size(out) - out[t].len() + s.len(),
    decreases out.len(),
{
    if t < out.len() - 1 {
        lemma_size_update(out.drop_last(), t, s);
        assert(out.update(t, s).drop_last() =~= out.drop_last().update(t, s));
    } else {
        assert(out.update(t, s).drop_last() =~= out.drop_last());
    }
}

proof fn lemma_size_nonneg(out: Seq<Set<(Operand, Operand)>>)
    ensures size(out) >= 0,
    decreases out.len(),
{
    if out.len() > 0 { lemma_size_nonneg(out.drop_last()); }
}

/// What the worklist keeps between steps: every set among the copies of the
/// body and containing what the equations give it, and containing every set
/// they do not shrink.
pub open spec fn copy_inv(bs: Seq<Seq<Insn>>, out: Seq<Set<(Operand, Operand)>>) -> bool {
    &&& out.len() == bs.len()
    &&& forall|t: int| 0 <= t < out.len() ==> (#[trigger] out[t]).subset_of(all_copies(bs))
    &&& forall|t: int| 0 <= t < out.len() ==> cflow(bs, out, t).subset_of(#[trigger] out[t])
    &&& forall|l: Seq<Set<(Operand, Operand)>>| #[trigger] is_pre(bs, l) ==> below(l, out)
}

/// Replacing the set of block `b` by what the equations give it keeps the invariant.
proof fn lemma_copy_inv_update(bs: Seq<Seq<Insn>>, out: Seq<Set<(Operand, Operand)>>, b: int)
    requires copy_inv(bs, out), 0 <= b < out.len(),
    ensures
        copy_inv(bs, out.update(b, cflow(bs, out, b))),
        cflow(bs, out, b).subset_of(out[b]),
{
    let new = cflow(bs, out, b);
    let out2 = out.update(b, new);
    lemma_cflow_bound(bs, out, b);
    assert(below(out2, out));
    assert forall|t: int| 0 <= t < out2.len() implies cflow(bs, out2, t).subset_of(#[trigger] out2[t]) by {
        lemma_cflow_mono(bs, out2, out, t);
    }
    assert forall|l: Seq<Set<(Operand, Operand)>>| #[trigger] is_pre(bs, l) implies below(l, out2) by {
        assert(below(l, out));
        lemma_cflow_mono(bs, l, out, b);
        assert(l[b].subset_of(cflow(bs, l, b)));
    }
}

/// A graph whose edges are those of its blocks.
pub open spec fn analyzable(g: Graph) -> bool {
    &&& g.wf()
    &&& forall|b: int| 0 <= b < g.blocks@.len() ==> (#[trigger] g.blocks@[b]).successors@.to_set() == succs_of(g.block_seqs(), b)
        && g.blocks@[b].predecessors@.to_set() == preds_of(g.block_seqs(), b)
}

/// The sets of a vector of copy sets.
pub open spec fn copies_view(v: Seq<ReachingCopies>) -> Seq<Set<(Operand, Operand)>> {
    v.map_values(|c: ReachingCopies| c@)
}

/// Applies one instruction to the set of copies that hold.
fn cstep_exec(cur: &mut ReachingCopies, insn: &Insn)
    requires old(cur).wf(),
    ensures final(cur).wf(), final(cur)@ == cstep(old(cur)@, *insn),
{
    match insn {
        Insn::Move { src, dst } => {
            if !cur.contains(*dst, *src) {
                cur.retain_unrelated(*dst, false);
                cur.add(*dst, *src);
            }
        },
        Insn::FuncCall { dst, .. } => cur.retain_unrelated(*dst, true),
        Insn::SignExt { dst, .. } | Insn::Truncate { dst, .. } | Insn::Unary { dst, .. } | Insn::Binary { dst, .. } =>
            cur.retain_unrelated(*dst, false),
        _ => {},
    }
}

/// Every copy the blocks of the graph make.
fn initial_copies(cfg: &Graph) -> (r: ReachingCopies)
    ensures r.wf(), r@ == all_copies(cfg.block_seqs()),
{
    let ghost bs = cfg.block_seqs();
    let mut acc = ReachingCopies::new();
    let n = cfg.blocks.len();
    let mut b: usize = 0;
    while b < n
        invariant
            b <= n, n == bs.len(), bs == cfg.block_seqs(), acc.wf(),
            acc@ == graph_copies(bs.subrange(0, b as int)).to_set(),
        decreases n - b,
    {
        let insns = &cfg.blocks[b].insns;
        proof { assert(insns@ == bs[b as int]); }
        let ghost base = acc@;
        let mut k: usize = 0;
        while k < insns.len()
            invariant
                k <= insns@.len(), acc.wf(),
                acc@ == base.union(copies_seq(insns@.subrange(0, k as int)).to_set()),
            decreases insns@.len() - k,
        {
            let ghost a0 = acc@;
            match &insns[k] {
                Insn::Move { src, dst } => acc.add(*dst, *src),
                _ => {},
            }
            proof {
                let p = insns@.subrange(0, k as int + 1);
                assert(p.drop_last() =~= insns@.subrange(0, k as int));
                assert(p.last() == insns@[k as int]);
                let last: Seq<(Operand, Operand)> = match p.last() {
                    Insn::Move { src, dst } => seq![(dst, src)],
                    _ => Seq::empty(),
                };
                lemma_concat_to_set(copies_seq(p.drop_last()), last);
                assert(acc@ =~= base.union(copies_seq(p).to_set()));
            }
            k = k + 1;
        }
        proof {
            assert(insns@.subrange(0, k as int) =~= insns@);
            let q = bs.subrange(0, b as int + 1);
            assert(q.drop_last() =~= bs.subrange(0, b as int));
            assert(q.last() == bs[b as int]);
            lemma_concat_to_set(graph_copies(q.drop_last()), copies_seq(q.last()));
        }
        b = b + 1;
    }
    proof { assert(bs.subrange(0, n as int) =~= bs); }
    acc
}

/// The result of the analysis: the copies that hold on leaving each block,
/// and those that hold before each instruction.
#[derive(Debug)]
pub struct AnalysisResult {
    pub block_defs: Vec<ReachingCopies>,
    pub insn_defs: Vec<Vec<ReachingCopies>>,
}

/// Forward analysis of the copies that hold, by a worklist.
#[derive(Debug)]
pub struct CopyPropagation<'a> {
    pub cfg: &'a Graph,
    pub block_defs: Vec<ReachingCopies>,
    pub insn_defs: Vec<Vec<ReachingCopies>>,
    /// Every copy of the function: where each block starts.
    pub initial_copies: ReachingCopies,
}

impl<'a> CopyPropagation<'a> {
    pub fn new(cfg: &'a Graph) -> (r: Self)
        ensures
            r.cfg == cfg, r.block_defs@.len() == 0, r.insn_defs@.len() == 0,
            r.initial_copies.wf(), r.initial_copies@ == all_copies(cfg.block_seqs()),
    {
        let initial_copies = initial_copies(cfg);
        CopyPropagation { cfg, block_defs: Vec::new(), insn_defs: Vec::new(), initial_copies }
    }

    /// The copies that hold on entering block `b`, under the current sets.
    fn meet(&self, b: usize) -> (r: ReachingCopies)
        requires
            b < self.cfg.blocks@.len(),
            analyzable(*self.cfg),
            self.initial_copies.wf(), self.initial_copies@ == all_copies(self.cfg.block_seqs()),
            self.block_defs@.len() == self.cfg.blocks@.len(),
            forall|t: int| 0 <= t < self.block_defs@.len() ==> (#[trigger] self.block_defs@[t]).wf(),
        ensures r.wf(), r@ == cmeet(copies_view(self.block_defs@), preds_of(self.cfg.block_seqs(), b as int), all_copies(self.cfg.block_seqs())),
    {
        let preds = &self.cfg.blocks[b].predecessors;
        let ghost bs = self.cfg.block_seqs();
        let ghost out = copies_view(self.block_defs@);
        let ghost u = all_copies(bs);
        let mut r = self.initial_copies.copy();
        let mut j: usize = 0;
        while j < preds.len()
            invariant
                j <= preds@.len(), preds == &self.cfg.blocks@[b as int].predecessors, b < self.cfg.blocks@.len(),
                analyzable(*self.cfg), bs == self.cfg.block_seqs(), u == all_copies(bs),
                self.block_defs@.len() == self.cfg.blocks@.len(), out == copies_view(self.block_defs@),
                forall|t: int| 0 <= t < self.block_defs@.len() ==> (#[trigger] self.block_defs@[t]).wf(),
                !preds@.subrange(0, j as int).contains(NodeId::Entry),
                r.wf(),
                r@ == Set::new(|p: (Operand, Operand)| u.contains(p)
                    && forall|t: usize| t < out.len() && #[trigger] preds@.subrange(0, j as int).to_set().contains(NodeId::BasicBlock(t)) ==> out[t as int].contains(p)),
            decreases preds@.len() - j,
        {
            let ghost r0 = r@;
            let pd = preds[j];
            let ghost old_s = preds@.subrange(0, j as int).to_set();
            let ghost new_s = preds@.subrange(0, j as int + 1).to_set();
            proof {
                assert(preds@.subrange(0, j as int + 1) == preds@.subrange(0, j as int).push(pd));
                assert(new_s =~= old_s.insert(pd));
                assert(preds@.to_set().contains(pd));
            }
            match pd {
                NodeId::Entry => {
                    proof { assert(preds_of(bs, b as int).contains(NodeId::Entry)); }
                    return ReachingCopies::new();
                },
                NodeId::BasicBlock(t) => {
                    proof { assert(preds_of(bs, b as int).contains(NodeId::BasicBlock(t))); }
                    r.intersect_with(&self.block_defs[t]);
                    proof {
                        assert(out[t as int] == self.block_defs@[t as int]@);
                        assert(r@ =~= Set::new(|p: (Operand, Operand)| u.contains(p)
                            && forall|x: usize| x < out.len() && #[trigger] new_s.contains(NodeId::BasicBlock(x)) ==> out[x as int].contains(p))) by {
                            assert forall|p: (Operand, Operand)| r@.contains(p) implies
                                (forall|x: usize| x < out.len() && #[trigger] new_s.contains(NodeId::BasicBlock(x)) ==> out[x as int].contains(p)) by {
                                assert forall|x: usize| x < out.len() && #[trigger] new_s.contains(NodeId::BasicBlock(x)) implies out[x as int].contains(p) by {
                                    if x != t { assert(old_s.contains(NodeId::BasicBlock(x))); }
                                }
                            }
                            assert forall|p: (Operand, Operand)| u.contains(p)
                                && (forall|x: usize| x < out.len() && #[trigger] new_s.contains(NodeId::BasicBlock(x)) ==> out[x as int].contains(p))
                                implies r@.contains(p) by {
                                assert(new_s.contains(NodeId::BasicBlock(t)));
                                assert forall|x: usize| x < out.len() && #[trigger] old_s.contains(NodeId::BasicBlock(x)) implies out[x as int].contains(p) by {
                                    assert(new_s.contains(NodeId::BasicBlock(x)));
                                }
                            }
                        }
                    }
                },
                NodeId::Exit => {
                    proof {
                        assert(r@ =~= Set::new(|p: (Operand, Operand)| u.contains(p)
                            && forall|x: usize| x < out.len() && #[trigger] new_s.contains(NodeId::BasicBlock(x)) ==> out[x as int].contains(p))) by {
                            assert forall|p: (Operand, Operand)| r@.contains(p) implies
                                (forall|x: usize| x < out.len() && #[trigger] new_s.contains(NodeId::BasicBlock(x)) ==> out[x as int].contains(p)) by {
                                assert forall|x: usize| x < out.len() && #[trigger] new_s.contains(NodeId::BasicBlock(x)) implies out[x as int].contains(p) by {
                                    assert(old_s.contains(NodeId::BasicBlock(x)));
                                }
                            }
                            assert forall|p: (Operand, Operand)| u.contains(p)
                                && (forall|x: usize| x < out.len() && #[trigger] new_s.contains(NodeId::BasicBlock(x)) ==> out[x as int].contains(p))
                                implies r@.contains(p) by {
                                assert forall|x: usize| x < out.len() && #[trigger] old_s.contains(NodeId::BasicBlock(x)) implies out[x as int].contains(p) by {
                                    assert(new_s.contains(NodeId::BasicBlock(x)));
                                }
                            }
                        }
                    }
                },
            }
            j = j + 1;
        }
        proof {
            assert(preds@.subrange(0, j as int) =~= preds@);
            assert(preds@.to_set() == preds_of(bs, b as int));
            assert(!preds_of(bs, b as int).contains(NodeId::Entry));
            assert(r@ =~= cmeet(out, preds_of(bs, b as int), u));
        }
        r
    }

    /// The copies that hold on leaving block `b`, given those on entering it,
    /// and the copies that hold before each of its instructions.
    fn transfer(&self, initial: &ReachingCopies, b: usize) -> (r: (ReachingCopies, Vec<ReachingCopies>))
        requires b < self.cfg.blocks@.len(), initial.wf(),
        ensures
            r.0.wf(),
            r.0@ == ctransfer(initial@, self.cfg.blocks@[b as int].insns@),
            r.1@.len() == self.cfg.blocks@[b as int].insns@.len(),
            forall|k: int| 0 <= k < r.1@.len() ==> (#[trigger] r.1@[k]).wf()
                && r.1@[k]@ == ctransfer(initial@, self.cfg.blocks@[b as int].insns@.subrange(0, k)),
    {
        let insns = &self.cfg.blocks[b].insns;
        let ghost c0 = initial@;
        let n = insns.len();
        let mut cur = initial.copy();
        let mut befores: Vec<ReachingCopies> = Vec::new();
        let mut k: usize = 0;
        proof { assert(insns@.subrange(0, 0) =~= Seq::<Insn>::empty()); }
        while k < n
            invariant
                k <= n, n == insns@.len(),
                cur.wf(), cur@ == ctransfer(c0, insns@.subrange(0, k as int)),
                befores@.len() == k,
                forall|j: int| 0 <= j < k ==> (#[trigger] befores@[j]).wf()
                    && befores@[j]@ == ctransfer(c0, insns@.subrange(0, j)),
            decreases n - k,
        {
            befores.push(cur.copy());
            cstep_exec(&mut cur, &insns[k]);
            proof {
                let p = insns@.subrange(0, k as int + 1);
                assert(p.drop_last() =~= insns@.subrange(0, k as int));
                assert(p.last() == insns@[k as int]);
            }
            k = k + 1;
        }
        proof { assert(insns@.subrange(0, n as int) =~= insns@); }
        (cur, befores)
    }
}

/// Whether `x` is in `v`.
fn holds_usize(v: &Vec<usize>, x: usize) -> (r: bool)
    ensures r == v@.contains(x),
{
    let mut i: usize = 0;
    while i < v.len()
        invariant i <= v@.len(), forall|j: int| 0 <= j < i ==> v@[j] != x,
        decreases v@.len() - i,
    {
        if v[i] == x {
            return true;
        }
        i = i + 1;
    }
    false
}

impl<'a> CopyPropagation<'a> {
    /// Runs the worklist from the first block to the last until no set changes.
    #[verifier::rlimit(80)]
    fn iterate(&mut self)
        requires
            analyzable(*old(self).cfg),
            old(self).initial_copies.wf(), old(self).initial_copies@ == all_copies(old(self).cfg.block_seqs()),
            old(self).block_defs@.len() == old(self).cfg.blocks@.len(),
            forall|t: int| 0 <= t < old(self).block_defs@.len() ==> (#[trigger] old(self).block_defs@[t]).wf(),
            copy_inv(old(self).cfg.block_seqs(), copies_view(old(self).block_defs@)),
        ensures
            final(self).cfg == old(self).cfg, final(self).initial_copies == old(self).initial_copies,
            final(self).insn_defs == old(self).insn_defs,
            final(self).block_defs@.len() == old(self).block_defs@.len(),
            forall|t: int| 0 <= t < final(self).block_defs@.len() ==> (#[trigger] final(self).block_defs@[t]).wf(),
            reaching(final(self).cfg.block_seqs(), copies_view(final(self).block_defs@)),
    {
        let ghost g = *self.cfg;
        let ghost bs = g.block_seqs();
        let n = self.cfg.blocks.len();
        let mut j: usize = 0;
        while j < n
            invariant
                j <= n, n == g.blocks@.len(), n == bs.len(), g == *self.cfg, bs == g.block_seqs(),
                self.cfg == old(self).cfg, self.initial_copies == old(self).initial_copies, self.insn_defs == old(self).insn_defs,
                analyzable(g), self.initial_copies.wf(), self.initial_copies@ == all_copies(bs),
                self.block_defs@.len() == n,
                forall|t: int| 0 <= t < self.block_defs@.len() ==> (#[trigger] self.block_defs@[t]).wf(),
                copy_inv(bs, copies_view(self.block_defs@)),
                forall|c: int| 0 <= c < j ==> #[trigger] copies_view(self.block_defs@)[c] == cflow(bs, copies_view(self.block_defs@), c),
            decreases n - j,
        {
            let mut wl: Vec<usize> = Vec::new();
            wl.push(j);
            while wl.len() > 0
                invariant
                    j < n, n == g.blocks@.len(), n == bs.len(), g == *self.cfg, bs == g.block_seqs(),
                    self.cfg == old(self).cfg, self.initial_copies == old(self).initial_copies, self.insn_defs == old(self).insn_defs,
                    analyzable(g), self.initial_copies.wf(), self.initial_copies@ == all_copies(bs),
                    self.block_defs@.len() == n,
                    forall|t: int| 0 <= t < self.block_defs@.len() ==> (#[trigger] self.block_defs@[t]).wf(),
                    copy_inv(bs, copies_view(self.block_defs@)),
                    wl@.no_duplicates(),
                    forall|i: int| 0 <= i < wl@.len() ==> #[trigger] wl@[i] < n,
                    forall|c: int| 0 <= c <= j && !wl@.contains(c as usize) ==>
                        #[trigger] copies_view(self.block_defs@)[c] == cflow(bs, copies_view(self.block_defs@), c),
                decreases size(copies_view(self.block_defs@)), wl@.len(),
            {
                let ghost out = copies_view(self.block_defs@);
                let ghost wl0 = wl@;
                proof { lemma_size_nonneg(out); }
                let b = wl.remove(0);
                proof { assert(wl0[0] == b); }
                let incoming = self.meet(b);
                let (cur, _befores) = self.transfer(&incoming, b);
                let ghost new = cflow(bs, out, b as int);
                proof {
                    assert(bs[b as int] == g.blocks@[b as int].insns@);
                    assert(cur@ == new);
                    lemma_copy_inv_update(bs, out, b as int);
                }
                let changed = self.block_defs[b].diff_with(&cur);
                proof { assert(self.block_defs@[b as int]@ == out[b as int]); }
                self.block_defs.set(b, cur);
                let ghost out2 = copies_view(self.block_defs@);
                proof {
                    assert(out2 =~= out.update(b as int, new));
                    if changed {
                        assert(out[b as int].subset_of(all_copies(bs)));
                        lemma_len_subset(new, out[b as int]);
                        if new.len() == out[b as int].len() {
                            lemma_subset_equality(new, out[b as int]);
                        }
                        lemma_size_update(out, b as int, new);
                        lemma_size_nonneg(out2);
                    } else {
                        assert(out2 =~= out);
                    }
                }
                if changed {
                    let succs = &self.cfg.blocks[b].successors;
                    let ghost wl1 = wl@;
                    let mut k: usize = 0;
                    while k < succs.len()
                        invariant
                            k <= succs@.len(), succs == &g.blocks@[b as int].successors, b < n, n == g.blocks@.len(), n == bs.len(),
                            bs == g.block_seqs(), analyzable(g),
                            wl@.no_duplicates(),
                            forall|i: int| 0 <= i < wl@.len() ==> #[trigger] wl@[i] < n,
                            forall|x: usize| #[trigger] wl1.contains(x) ==> wl@.contains(x),
                            forall|i: int| 0 <= i < k ==> (#[trigger] succs@[i] matches NodeId::BasicBlock(c) ==> wl@.contains(c)),
                        decreases succs@.len() - k,
                    {
                        match succs[k] {
                            NodeId::BasicBlock(c) => {
                                proof {
                                    assert(g.blocks@[b as int].successors@[k as int] == NodeId::BasicBlock(c));
                                    assert(g.wf());
                                }
                                if !holds_usize(&wl, c) {
                                    let ghost w = wl@;
                                    wl.push(c);
                                    proof {
                                        assert forall|x: int, y: int| 0 <= x < y < wl@.len() implies wl@[x] != wl@[y] by {
                                            if y == w.len() { assert(w.contains(w[x])); }
                                        }
                                        assert forall|x: usize| #[trigger] wl1.contains(x) implies wl@.contains(x) by {
                                            assert(w.contains(x));
                                            let i = choose|i: int| 0 <= i < w.len() && w[i] == x;
                                            assert(wl@[i] == x);
                                        }
                                        assert forall|i: int| 0 <= i < k + 1 implies (#[trigger] succs@[i] matches NodeId::BasicBlock(d) ==> wl@.contains(d)) by {
                                            if i < k {
                                                if let NodeId::BasicBlock(d) = succs@[i] {
                                                    assert(w.contains(d));
                                                    let m = choose|m: int| 0 <= m < w.len() && w[m] == d;
                                                    assert(wl@[m] == d);
                                                }
                                            } else {
                                                assert(wl@[w.len() as int] == c);
                                            }
                                        }
                                    }
                                }
                            },
                            _ => {},
                        }
                        k = k + 1;
                    }
                    proof {
                        assert forall|c: int| 0 <= c <= j && !wl@.contains(c as usize) implies
                            #[trigger] out2[c] == cflow(bs, out2, c) by {
                            if preds_of(bs, c).contains(NodeId::BasicBlock(b)) {
                                assert(succs_of(bs, b as int).contains(NodeId::BasicBlock(c as usize)));
                                assert(succs@.to_set().contains(NodeId::BasicBlock(c as usize)));
                                let i = choose|i: int| 0 <= i < succs@.len() && succs@[i] == NodeId::BasicBlock(c as usize);
                                assert(false);
                            }
                            lemma_cflow_frame(bs, out, b as int, new, c);
                            if c != b {
                                if wl0.contains(c as usize) {
                                    let i = choose|i: int| 0 <= i < wl0.len() && wl0[i] == c as usize;
                                    assert(i != 0);
                                    assert(wl1[i - 1] == c as usize);
                                    assert(wl1.contains(c as usize));
                                }
                            }
                        }
                    }
                } else {
                    proof {
                        assert forall|c: int| 0 <= c <= j && !wl@.contains(c as usize) implies
                            #[trigger] out2[c] == cflow(bs, out2, c) by {
                            if c != b {
                                if wl0.contains(c as usize) {
                                    let i = choose|i: int| 0 <= i < wl0.len() && wl0[i] == c as usize;
                                    assert(i != 0);
                                    assert(wl@[i - 1] == c as usize);
                                }
                            }
                        }
                    }
                }
            }
            j = j + 1;
        }
    }
}

/// What the analysis of a graph gives: the copies of its blocks, and from
/// them the copies that hold before each instruction.
pub open spec fn analyzed(g: Graph, r: AnalysisResult) -> bool {
    let bs = g.block_seqs();
    let out = copies_view(r.block_defs@);
    &&& reaching(bs, out)
    &&& r.insn_defs@.len() == g.blocks@.len()
    &&& forall|b: int| 0 <= b < g.blocks@.len() ==> (#[trigger] r.insn_defs@[b])@.len() == bs[b].len()
    &&& forall|b: int, k: int| 0 <= b < g.blocks@.len() && 0 <= k < bs[b].len() ==> (#[trigger] r.insn_defs@[b]@[k])@
        == copies_before(bs, out, b, k)
}

impl<'a> CopyPropagation<'a> {
    /// The greatest solution of the copy equations of the graph.
    pub fn analyze(self) -> (r: AnalysisResult)
        requires analyzable(*self.cfg), self.initial_copies.wf(), self.initial_copies@ == all_copies(self.cfg.block_seqs()),
        ensures analyzed(*self.cfg, r),
    {
        let mut analysis = self;
        let ghost g = *analysis.cfg;
        let ghost bs = g.block_seqs();
        let ghost u = all_copies(bs);
        let n = analysis.cfg.blocks.len();
        let mut defs: Vec<ReachingCopies> = Vec::new();
        let mut b: usize = 0;
        while b < n
            invariant
                b <= n, defs@.len() == b, analysis.initial_copies.wf(), analysis.initial_copies@ == u,
                forall|t: int| 0 <= t < b ==> (#[trigger] defs@[t]).wf() && defs@[t]@ == u,
            decreases n - b,
        {
            defs.push(analysis.initial_copies.copy());
            b = b + 1;
        }
        analysis.block_defs = defs;
        proof {
            let out = copies_view(analysis.block_defs@);
            assert forall|t: int| 0 <= t < out.len() implies (#[trigger] out[t]).subset_of(u)
                && cflow(bs, out, t).subset_of(out[t]) by {
                assert(out[t] == analysis.block_defs@[t]@);
                lemma_cflow_bound(bs, out, t);
            }
            assert forall|l: Seq<Set<(Operand, Operand)>>| #[trigger] is_pre(bs, l) implies below(l, out) by {
                assert forall|k: int| 0 <= k < l.len() implies (#[trigger] l[k]).subset_of(out[k]) by {
                    assert(out[k] == analysis.block_defs@[k]@);
                    lemma_cflow_bound(bs, l, k);
                }
            }
        }
        analysis.iterate();
        let ghost out = copies_view(analysis.block_defs@);
        let mut insn_defs: Vec<Vec<ReachingCopies>> = Vec::new();
        let mut b: usize = 0;
        while b < n
            invariant
                b <= n, n == g.blocks@.len(), g == *analysis.cfg, bs == g.block_seqs(),
                analyzable(g), analysis.initial_copies.wf(), analysis.initial_copies@ == all_copies(bs),
                analysis.block_defs@.len() == n, out == copies_view(analysis.block_defs@),
                forall|t: int| 0 <= t < analysis.block_defs@.len() ==> (#[trigger] analysis.block_defs@[t]).wf(),
                insn_defs@.len() == b,
                forall|c: int| 0 <= c < b ==> (#[trigger] insn_defs@[c])@.len() == bs[c].len(),
                forall|c: int, k: int| 0 <= c < b && 0 <= k < bs[c].len() ==> (#[trigger] insn_defs@[c]@[k])@
                    == copies_before(bs, out, c, k),
            decreases n - b,
        {
            let incoming = analysis.meet(b);
            let (_, befores) = analysis.transfer(&incoming, b);
            proof { assert(bs[b as int] == g.blocks@[b as int].insns@); }
            insn_defs.push(befores);
            b = b + 1;
        }
        AnalysisResult { block_defs: analysis.block_defs, insn_defs }
    }
}

/// What a read of an operand may become: the source of a copy into it that
/// holds, if there is one, else the operand itself. Where one copy into the
/// operand holds, as on every path from the entry, the source is that copy's.
pub open spec fn op_rewritten(o: Operand, c: Set<(Operand, Operand)>, r: Operand) -> bool {
    if !(o is Imm) && exists|s: Operand| #[trigger] c.contains((o, s)) { c.contains((o, r)) } else { r == o }
}

/// Each operand of a run read as `op_rewritten` says.
pub open spec fn args_rewritten(a: Seq<Operand>, c: Set<(Operand, Operand)>, r: Seq<Operand>) -> bool {
    r.len() == a.len() && forall|k: int| 0 <= k < a.len() ==> op_rewritten(a[k], c, #[trigger] r[k])
}

/// What an instruction may become, `c` holding before it: a copy that holds
/// either way disappears; every other read is rewritten.
pub open spec fn insn_rewritten(i: Insn, c: Set<(Operand, Operand)>, j: Option<Insn>) -> bool {
    match i {
        Insn::Move { src, dst } =>
            if c.contains((dst, src)) || c.contains((src, dst)) {
                j is None
            } else {
                j matches Some(Insn::Move { src: s2, dst: d2 }) && d2 == dst && op_rewritten(src, c, s2)
            },
        Insn::Unary { op, src, dst } =>
            j matches Some(Insn::Unary { op: o2, src: s2, dst: d2 }) && o2 == op && d2 == dst && op_rewritten(src, c, s2),
        Insn::Binary { op, left, right, dst } =>
            j matches Some(Insn::Binary { op: o2, left: l2, right: r2, dst: d2 }) && o2 == op && d2 == dst
                && op_rewritten(left, c, l2) && op_rewritten(right, c, r2),
        Insn::SignExt { src, dst } =>
            j matches Some(Insn::SignExt { src: s2, dst: d2 }) && d2 == dst && op_rewritten(src, c, s2),
        Insn::Truncate { src, dst } =>
            j matches Some(Insn::Truncate { src: s2, dst: d2 }) && d2 == dst && op_rewritten(src, c, s2),
        Insn::FuncCall { target, args, dst } =>
            j matches Some(Insn::FuncCall { target: t2, args: a2, dst: d2 }) && t2 == target && d2 == dst
                && args_rewritten(args@, c, a2@),
        Insn::Return(src) => j matches Some(Insn::Return(s2)) && op_rewritten(src, c, s2),
        Insn::BranchIfZero { src, label } =>
            j matches Some(Insn::BranchIfZero { src: s2, label: l2 }) && l2 == label && op_rewritten(src, c, s2),
        Insn::BranchNotZero { src, label } =>
            j matches Some(Insn::BranchNotZero { src: s2, label: l2 }) && l2 == label && op_rewritten(src, c, s2),
        _ => j == Some(i),
    }
}

/// The instructions that a run of options holds, in order.
pub open spec fn somes(opts: Seq<Option<Insn>>) -> Seq<Insn>
    decreases opts.len(),
{
    if opts.len() == 0 {
        Seq::empty()
    } else {
        somes(opts.drop_last()) + match opts.last() {
            Some(x) => seq![x],
            None => Seq::empty(),
        }
    }
}

/// `out` is the run `insns` rewritten, `befores[k]` holding before instruction `k`.
pub open spec fn block_rewritten(insns: Seq<Insn>, befores: Seq<Set<(Operand, Operand)>>, out: Seq<Insn>) -> bool {
    exists|opts: Seq<Option<Insn>>| opts.len() == insns.len()
        && (forall|k: int| 0 <= k < insns.len() ==> insn_rewritten(insns[k], befores[k], #[trigger] opts[k]))
        && out == somes(opts)
}

/// `body` is the blocks `bs` after copy propagation under the copies `out`.
pub open spec fn cp_body(bs: Seq<Seq<Insn>>, out: Seq<Set<(Operand, Operand)>>, body: Seq<Insn>) -> bool {
    exists|outs: Seq<Seq<Insn>>| outs.len() == bs.len()
        && (forall|b: int| 0 <= b < bs.len() ==> block_rewritten(bs[b], Seq::new(bs[b].len(), |k: int| copies_before(bs, out, b, k)), #[trigger] outs[b]))
        && body == flatten(outs)
}

/// The blocks of a body have one set of copies at most.
pub proof fn lemma_reaching_unique(bs: Seq<Seq<Insn>>, a: Seq<Set<(Operand, Operand)>>, b: Seq<Set<(Operand, Operand)>>)
    requires reaching(bs, a), reaching(bs, b),
    ensures a == b,
{
    assert(is_pre(bs, a));
    assert(is_pre(bs, b));
    assert(below(a, b) && below(b, a));
    assert forall|k: int| 0 <= k < a.len() implies #[trigger] a[k] == b[k] by {
        assert(a[k] =~= b[k]);
    }
    assert(a =~= b);
}

/// The operand, or the source of a copy into it that holds.
fn rewrite_operand(operand: Operand, reaching_copies: &ReachingCopies) -> (r: Operand)
    ensures op_rewritten(operand, reaching_copies@, r),
{
    match operand {
        Operand::Imm(..) => operand,
        _ => {
            let mut i: usize = 0;
            while i < reaching_copies.defs.len()
                invariant
                    i <= reaching_copies.defs@.len(), !(operand is Imm),
                    forall|j: int| 0 <= j < i ==> (#[trigger] reaching_copies.defs@[j]).0 != operand,
                decreases reaching_copies.defs@.len() - i,
            {
                let (d, s) = reaching_copies.defs[i];
                if d == operand {
                    proof {
                        assert(reaching_copies.defs@[i as int] == (d, s));
                        assert(reaching_copies@.contains((operand, s)));
                        assert(exists|x: Operand| #[trigger] reaching_copies@.contains((operand, x)));
                        assert(!(operand is Imm));
                    }
                    return s;
                }
                proof { assert(reaching_copies.defs@[i as int] == (d, s)); }
                i = i + 1;
            }
            proof {
                assert forall|s: Operand| !reaching_copies@.contains((operand, s)) by {
                    if reaching_copies@.contains((operand, s)) {
                        let j = choose|j: int| 0 <= j < reaching_copies.defs@.len() && reaching_copies.defs@[j] == (operand, s);
                        assert(reaching_copies.defs@[j].0 == operand);
                    }
                }
            }
            operand
        },
    }
}

/// The instruction with its reads rewritten; `None` for a copy that holds already.
fn rewrite_insn(insn: Insn, reaching_copies: &ReachingCopies) -> (r: Option<Insn>)
    ensures insn_rewritten(insn, reaching_copies@, r),
{
    match insn {
        Insn::Move { src, dst } => {
            if reaching_copies.contains(dst, src) || reaching_copies.contains(src, dst) {
                None
            } else {
                Some(Insn::Move { src: rewrite_operand(src, reaching_copies), dst })
            }
        },
        Insn::Unary { op, dst, src } => Some(Insn::Unary { op, dst, src: rewrite_operand(src, reaching_copies) }),
        Insn::Binary { op, left, right, dst } => Some(Insn::Binary {
            op,
            left: rewrite_operand(left, reaching_copies),
            right: rewrite_operand(right, reaching_copies),
            dst,
        }),
        Insn::SignExt { dst, src } => Some(Insn::SignExt { dst, src: rewrite_operand(src, reaching_copies) }),
        Insn::Truncate { dst, src } => Some(Insn::Truncate { dst, src: rewrite_operand(src, reaching_copies) }),
        Insn::FuncCall { dst, args, target } => {
            let mut rewritten_args: Vec<Operand> = Vec::new();
            let mut i: usize = 0;
            while i < args.len()
                invariant
                    i <= args@.len(), rewritten_args@.len() == i,
                    forall|k: int| 0 <= k < i ==> op_rewritten(args@[k], reaching_copies@, #[trigger] rewritten_args@[k]),
                decreases args@.len() - i,
            {
                rewritten_args.push(rewrite_operand(args[i], reaching_copies));
                i = i + 1;
            }
            Some(Insn::FuncCall { dst, args: rewritten_args, target })
        },
        Insn::Return(ret_val) => Some(Insn::Return(rewrite_operand(ret_val, reaching_copies))),
        Insn::BranchIfZero { src, label } => Some(Insn::BranchIfZero { src: rewrite_operand(src, reaching_copies), label }),
        Insn::BranchNotZero { src, label } => Some(Insn::BranchNotZero { src: rewrite_operand(src, reaching_copies), label }),
        other => Some(other),
    }
}

/// The instructions of a block rewritten, `insn_defs[k]` holding before instruction `k`.
fn rewrite_insns(insns: Vec<Insn>, insn_defs: &Vec<ReachingCopies>) -> (r: Vec<Insn>)
    requires insn_defs@.len() == insns@.len(),
    ensures block_rewritten(insns@, copies_view(insn_defs@), r@),
{
    let ghost s = insns@;
    let ghost befores = copies_view(insn_defs@);
    let n = insns.len();
    let mut insns = insns;
    let mut r: Vec<Insn> = Vec::new();
    let ghost mut opts: Seq<Option<Insn>> = Seq::empty();
    let mut i: usize = 0;
    while i < n
        invariant
            n == s.len(), insn_defs@.len() == n, befores == copies_view(insn_defs@), i <= n,
            insns@ == s.subrange(i as int, n as int),
            opts.len() == i,
            forall|k: int| 0 <= k < i ==> insn_rewritten(s[k], befores[k], #[trigger] opts[k]),
            r@ == somes(opts),
        decreases n - i,
    {
        let insn = insns.remove(0);
        proof { assert(insn == s[i as int]); }
        let rw = rewrite_insn(insn, &insn_defs[i]);
        proof {
            assert(befores[i as int] == insn_defs@[i as int]@);
            let o2 = opts.push(rw);
            assert(o2.drop_last() =~= opts);
            assert(o2.last() == rw);
        }
        let ghost opts0 = opts;
        proof { opts = opts.push(rw); }
        match rw {
            Some(x) => r.push(x),
            None => {},
        }
        proof {
            assert(opts.drop_last() =~= opts0);
            assert(forall|k: int| 0 <= k < i ==> opts[k] == opts0[k]);
        }
        i = i + 1;
        proof { assert(insns@ =~= s.subrange(i as int, n as int)); }
    }
    r
}

/// The graph with every block rewritten.
fn rewrite_graph(cfg: Graph, insn_defs: &Vec<Vec<ReachingCopies>>) -> (r: Graph)
    requires insn_defs@.len() == cfg.blocks@.len(),
        forall|b: int| 0 <= b < cfg.blocks@.len() ==> (#[trigger] insn_defs@[b])@.len() == cfg.blocks@[b].insns@.len(),
    ensures
        r.blocks@.len() == cfg.blocks@.len(),
        forall|b: int| 0 <= b < cfg.blocks@.len() ==>
            block_rewritten(cfg.blocks@[b].insns@, copies_view(insn_defs@[b]@), (#[trigger] r.blocks@[b]).insns@),
{
    let Graph { entry, blocks, exit } = cfg;
    let ghost b0 = blocks@;
    let n = blocks.len();
    let mut blocks = blocks;
    let mut out: Vec<BasicBlock> = Vec::new();
    let mut i: usize = 0;
    while i < n
        invariant
            n == b0.len(), insn_defs@.len() == n, i <= n,
            forall|b: int| 0 <= b < n ==> (#[trigger] insn_defs@[b])@.len() == b0[b].insns@.len(),
            blocks@ == b0.subrange(i as int, n as int),
            out@.len() == i,
            forall|b: int| 0 <= b < i ==> block_rewritten(b0[b].insns@, copies_view(insn_defs@[b]@), (#[trigger] out@[b]).insns@),
        decreases n - i,
    {
        let blk = blocks.remove(0);
        proof { assert(blk == b0[i as int]); }
        let BasicBlock { id, insns, predecessors, successors } = blk;
        let insns = rewrite_insns(insns, &insn_defs[i]);
        out.push(BasicBlock { id, insns, predecessors, successors });
        i = i + 1;
        proof { assert(blocks@ =~= b0.subrange(i as int, n as int)); }
    }
    Graph { entry, blocks: out, exit }
}

impl CodeGen<Opt> {
    /// Replaces each read of a variable by the source of a copy into it that
    /// holds on every path there, and removes the copies that already hold;
    /// a declaration is unchanged. A call may write any static variable.
    pub fn copy_propagation(&mut self, func: Function) -> (r: Function)
        requires func matches Function::Defined { body, .. } ==> buildable(body@),
        ensures
            match func {
                Function::Declared { .. } => r == func,
                Function::Defined { return_type, linkage, name, params, local_vars, body } =>
                    r matches Function::Defined { return_type: rt, linkage: lk, name: nm, params: ps, local_vars: lv, body: b }
                    && rt == return_type && lk == linkage && nm == name && ps == params && lv == local_vars
                    && (exists|out: Seq<Set<(Operand, Operand)>>| #[trigger] reaching(blocks_of(body@), out))
                    && forall|out: Seq<Set<(Operand, Operand)>>| #[trigger] reaching(blocks_of(body@), out)
                        ==> cp_body(blocks_of(body@), out, b@),
            },
            final(self).static_vars == old(self).static_vars,
    {
        match func {
            Function::Declared { linkage, name, type_ } => Function::Declared { linkage, name, type_ },
            Function::Defined { return_type, linkage, name, params, local_vars, body } => {
                let ghost bs = blocks_of(body@);
                let cfg = Graph::build(body);
                proof { assert(analyzable(cfg)); }
                let analysis = CopyPropagation::new(&cfg);
                let AnalysisResult { block_defs, insn_defs } = analysis.analyze();
                let ghost out = copies_view(block_defs@);
                let ghost n = cfg.blocks@.len();
                let ghost orig = cfg.block_seqs();
                let ghost old_blocks = cfg.blocks@;
                proof {
                    assert(orig == bs);
                    assert forall|b: int| 0 <= b < n implies (#[trigger] insn_defs@[b])@.len() == cfg.blocks@[b].insns@.len() by {
                        assert(orig[b] == cfg.blocks@[b].insns@);
                    }
                }
                let opted_cfg = rewrite_graph(cfg, &insn_defs);
                let ghost new_seqs = opted_cfg.block_seqs();
                let opted_body = opted_cfg.emit();
                proof {
                    assert forall|b: int| 0 <= b < bs.len() implies
                        block_rewritten(bs[b], Seq::new(bs[b].len(), |k: int| copies_before(bs, out, b, k)), #[trigger] new_seqs[b]) by {
                        assert(orig[b] == bs[b]);
                        assert(old_blocks[b].insns@ == bs[b]);
                        assert(copies_view(insn_defs@[b]@) =~= Seq::new(bs[b].len(), |k: int| copies_before(bs, out, b, k)));
                    }
                    assert(cp_body(bs, out, opted_body@));
                    assert forall|o: Seq<Set<(Operand, Operand)>>| #[trigger] reaching(bs, o) implies cp_body(bs, o, opted_body@) by {
                        lemma_reaching_unique(bs, out, o);
                    }
                    assert(reaching(bs, out));
                }
                Function::Defined { return_type, linkage, name, params, local_vars, body: opted_body }
            },
        }
    }
}

} // verus!
