//! Optimizations within a function.

pub mod cfg;
pub mod constant_folding;
pub mod copy_propagation;
pub mod deadcode_elimination;
pub mod deadstore_elimination;

use vstd::prelude::*;
use super::tac::{Function, Insn, Operand, TopLevel};
use super::{CodeGen, Opt};
use self::cfg::{blocks_of, check_labels_resolved, labels_resolved, lemma_resolved_buildable, NodeId};
use self::constant_folding::{foldable, folded};
use self::copy_propagation::{cp_body, reaching};
use self::deadcode_elimination::{dce_body, reachable};

verus! {

/// `r` is `f` with its body changed as `p` relates the old body to the new;
/// a declaration stays as it is.
pub open spec fn body_changed(f: Function, r: Function, p: spec_fn(Seq<Insn>, Seq<Insn>) -> bool) -> bool {
    match f {
        Function::Declared { .. } => r == f,
        Function::Defined { return_type, linkage, name, params, local_vars, body } =>
            r matches Function::Defined { return_type: rt, linkage: lk, name: nm, params: ps, local_vars: lv, body: b }
            && rt == return_type && lk == linkage && nm == name && ps == params && lv == local_vars && p(body@, b@),
    }
}

/// What constant folding makes of a body.
pub open spec fn cf_step() -> spec_fn(Seq<Insn>, Seq<Insn>) -> bool {
    |a: Seq<Insn>, b: Seq<Insn>| b == folded(a)
}

/// What dead-code elimination makes of a body.
pub open spec fn dce_step() -> spec_fn(Seq<Insn>, Seq<Insn>) -> bool {
    |a: Seq<Insn>, b: Seq<Insn>| (exists|rs: Set<NodeId>| #[trigger] reachable(blocks_of(a), rs))
        && forall|rs: Set<NodeId>| #[trigger] reachable(blocks_of(a), rs) ==> b == dce_body(blocks_of(a), rs)
}

/// What copy propagation makes of a body.
pub open spec fn cp_step() -> spec_fn(Seq<Insn>, Seq<Insn>) -> bool {
    |a: Seq<Insn>, b: Seq<Insn>| (exists|out: Seq<Set<(Operand, Operand)>>| #[trigger] reaching(blocks_of(a), out))
        && forall|out: Seq<Set<(Operand, Operand)>>| #[trigger] reaching(blocks_of(a), out) ==> cp_body(blocks_of(a), out, b)
}

/// A function the graph passes take: a declaration, or a body whose jump
/// labels are all defined and whose nodes can be numbered. A jump to a label
/// the body does not define leaves no block to jump to, so no graph can be
/// built from such a body; it is left as constant folding gave it.
pub open spec fn graph_ready(f: Function) -> bool {
    f matches Function::Defined { body, .. } ==> labels_resolved(body@) && body@.len() < usize::MAX - 2
}

/// What optimizing a function gives: constant folding, then dead-code
/// elimination and copy propagation, each on a result whose jump labels
/// are all defined, the function passing unchanged otherwise.
pub open spec fn optimized(f: Function, r: Function) -> bool {
    exists|f1: Function, f2: Function| #[trigger] passes(f, f1, f2, r)
}

/// `f1` is `f` folded, `f2` is `f1` rid of dead code, `r` is `f2` after
/// copy propagation, each graph pass skipped where it does not apply.
pub open spec fn passes(f: Function, f1: Function, f2: Function, r: Function) -> bool {
    &&& body_changed(f, f1, cf_step())
    &&& if graph_ready(f1) { body_changed(f1, f2, dce_step()) } else { f2 == f1 }
    &&& if graph_ready(f2) { body_changed(f2, r, cp_step()) } else { r == f2 }
}

/// A function that constant folding takes.
pub open spec fn opt_ready(f: Function) -> bool {
    f matches Function::Defined { body, .. } ==> forall|i: int| 0 <= i < body@.len() ==> foldable(#[trigger] body@[i])
}

/// Whether the graph passes take the function.
fn check_graph_ready(f: &Function) -> (r: bool)
    ensures r == graph_ready(*f),
{
    match f {
        Function::Declared { .. } => true,
        Function::Defined { body, .. } => body.len() < usize::MAX - 2 && check_labels_resolved(body),
    }
}

/// We only do intra-function optimizations.
impl CodeGen<Opt> {
    /// Optimizes every function of the program; the static variables and the
    /// string table stay.
    pub fn optimize_all(self, tac: TopLevel) -> (r: TopLevel)
        requires forall|i: int| 0 <= i < tac.functions@.len() ==> opt_ready(#[trigger] tac.functions@[i]),
        ensures
            r.functions@.len() == tac.functions@.len(),
            forall|i: int| 0 <= i < tac.functions@.len() ==> optimized(tac.functions@[i], #[trigger] r.functions@[i]),
            r.static_vars == tac.static_vars,
            r.strtb == tac.strtb,
    {
        let mut opt = self;
        let TopLevel { functions, static_vars, strtb } = tac;
        let ghost fs = functions@;
        let n = functions.len();
        let mut functions = functions;
        let mut opted_funcs: Vec<Function> = Vec::new();
        let mut i: usize = 0;
        while i < n
            invariant
                n == fs.len(), i <= n,
                functions@ == fs.subrange(i as int, n as int),
                forall|k: int| 0 <= k < n ==> opt_ready(#[trigger] fs[k]),
                opted_funcs@.len() == i,
                forall|k: int| 0 <= k < i ==> optimized(fs[k], #[trigger] opted_funcs@[k]),
            decreases n - i,
        {
            let func = functions.remove(0);
            proof { assert(func == fs[i as int]); }
            let opted_func = opt.opt_func(func);
            opted_funcs.push(opted_func);
            i = i + 1;
            proof { assert(functions@ =~= fs.subrange(i as int, n as int)); }
        }
        TopLevel { functions: opted_funcs, static_vars, strtb }
    }

    /// Constant folding, dead-code elimination, then copy propagation: one pass each.
    fn opt_func(&mut self, func: Function) -> (r: Function)
        requires opt_ready(func),
        ensures optimized(func, r), final(self).static_vars == old(self).static_vars,
    {
        let ghost f0 = func;
        let post_constant_folding = self.constant_folding(func);
        let ghost f1 = post_constant_folding;
        proof { assert(body_changed(f0, f1, cf_step())); }
        let post_deadcode_elimination = if check_graph_ready(&post_constant_folding) {
            proof {
                if let Function::Defined { body, .. } = f1 {
                    lemma_resolved_buildable(body@);
                }
            }
            self.deadcode_elimination(post_constant_folding)
        } else {
            post_constant_folding
        };
        let ghost f2 = post_deadcode_elimination;
        proof { if graph_ready(f1) { assert(body_changed(f1, f2, dce_step())); } }
        let post_copy_propagation = if check_graph_ready(&post_deadcode_elimination) {
            proof {
                if let Function::Defined { body, .. } = f2 {
                    lemma_resolved_buildable(body@);
                }
            }
            self.copy_propagation(post_deadcode_elimination)
        } else {
            post_deadcode_elimination
        };
        proof {
            if graph_ready(f2) { assert(body_changed(f2, post_copy_propagation, cp_step())); }
            let r = post_copy_propagation;
            assert(passes(f0, f1, f2, r));
            assert(optimized(f0, r));
        }
        post_copy_propagation
    }
}

} // verus!
