//! Loop-label resolution: every loop gets a label of its own, and every
//! `break` and `continue` the label of the innermost loop around it.

use vstd::prelude::*;
use crate::common::{Error, Result, Span, error_located};
use super::hir::{BlockItem, Function, Stmt};

verus! {

/// The number of loops in a statement, nested ones included.
pub open spec fn stmt_loops(s: Stmt) -> nat
    decreases s,
{
    match s {
        Stmt::If { then_branch, else_branch, .. } => stmt_loops(*then_branch) + match else_branch {
            Some(e) => stmt_loops(*e),
            None => 0,
        },
        Stmt::While { body, .. } => 1 + stmt_loops(*body),
        Stmt::DoWhile { body, .. } => 1 + stmt_loops(*body),
        Stmt::For { body, .. } => 1 + stmt_loops(*body),
        Stmt::Compound(items) => items_loops(items@),
        _ => 0,
    }
}

/// The number of loops in a block item.
pub open spec fn item_loops(item: BlockItem) -> nat
    decreases item,
{
    match item {
        BlockItem::Declaration(_) => 0,
        BlockItem::Statement(s) => stmt_loops(s),
    }
}

/// The number of loops in a sequence of block items.
pub open spec fn items_loops(items: Seq<BlockItem>) -> nat
    decreases items,
{
    if items.len() == 0 {
        0
    } else {
        items_loops(items.subrange(0, items.len() - 1)) + item_loops(items[items.len() - 1])
    }
}

/// The place of the first `break` or `continue` that no loop encloses, in
/// the order in which the statement is read; `in_loop` tells whether a loop
/// encloses the statement itself.
pub open spec fn stmt_stray(s: Stmt, in_loop: bool) -> Option<Span>
    decreases s,
{
    match s {
        Stmt::Break { span, .. } => if in_loop { None } else { Some(span) },
        Stmt::Continue { span, .. } => if in_loop { None } else { Some(span) },
        Stmt::While { body, .. } => stmt_stray(*body, true),
        Stmt::DoWhile { body, .. } => stmt_stray(*body, true),
        Stmt::For { body, .. } => stmt_stray(*body, true),
        Stmt::If { then_branch, else_branch, .. } => match stmt_stray(*then_branch, in_loop) {
            Some(sp) => Some(sp),
            None => match else_branch {
                Some(e) => stmt_stray(*e, in_loop),
                None => None,
            },
        },
        Stmt::Compound(items) => items_stray(items@, in_loop),
        _ => None,
    }
}

pub open spec fn item_stray(item: BlockItem, in_loop: bool) -> Option<Span>
    decreases item,
{
    match item {
        BlockItem::Declaration(_) => None,
        BlockItem::Statement(s) => stmt_stray(s, in_loop),
    }
}

pub open spec fn items_stray(items: Seq<BlockItem>, in_loop: bool) -> Option<Span>
    decreases items,
{
    if items.len() == 0 {
        None
    } else {
        match items_stray(items.subrange(0, items.len() - 1), in_loop) {
            Some(sp) => Some(sp),
            None => item_stray(items[items.len() - 1], in_loop),
        }
    }
}

/// `n` is `o` with its loops labelled from `c` on, in the order in which they
/// are read, and each `break` and `continue` labelled by its innermost loop;
/// `top` is the label of the loop around `o`, if any.
pub open spec fn stmt_relabeled(o: Stmt, n: Stmt, c: int, top: Option<usize>) -> bool
    decreases o,
{
    match o {
        Stmt::Break { span, .. } => n == Stmt::Break { span, loop_label: top->0 } && top is Some,
        Stmt::Continue { span, .. } => n == Stmt::Continue { span, loop_label: top->0 } && top is Some,
        Stmt::While { span, controller, body, .. } => n matches Stmt::While { span: s2, controller: c2, body: b2, loop_label }
            && s2 == span && c2 == controller && loop_label == c && stmt_relabeled(*body, *b2, c + 1, Some(c as usize)),
        Stmt::DoWhile { span, controller, body, .. } => n matches Stmt::DoWhile { span: s2, controller: c2, body: b2, loop_label }
            && s2 == span && c2 == controller && loop_label == c && stmt_relabeled(*body, *b2, c + 1, Some(c as usize)),
        Stmt::For { span, initializer, controller, post, body, .. } =>
            n matches Stmt::For { span: s2, initializer: i2, controller: c2, post: p2, body: b2, loop_label }
            && s2 == span && i2 == initializer && c2 == controller && p2 == post && loop_label == c
            && stmt_relabeled(*body, *b2, c + 1, Some(c as usize)),
        Stmt::If { condition, then_branch, else_branch } => n matches Stmt::If { condition: c2, then_branch: t2, else_branch: e2 }
            && c2 == condition && stmt_relabeled(*then_branch, *t2, c, top)
            && match else_branch {
                Some(e) => e2 is Some && stmt_relabeled(*e, *e2->0, c + stmt_loops(*then_branch), top),
                None => e2 is None,
            },
        Stmt::Compound(items) => n is Compound && items_relabeled(items@, n->Compound_0@, c, top),
        _ => n == o,
    }
}

pub open spec fn item_relabeled(o: BlockItem, n: BlockItem, c: int, top: Option<usize>) -> bool
    decreases o,
{
    match o {
        BlockItem::Declaration(_) => n == o,
        BlockItem::Statement(s) => n is Statement && stmt_relabeled(s, n->Statement_0, c, top),
    }
}

pub open spec fn items_relabeled(o: Seq<BlockItem>, n: Seq<BlockItem>, c: int, top: Option<usize>) -> bool
    decreases o,
{
    &&& o.len() == n.len()
    &&& o.len() > 0 ==> {
        let k = o.len() - 1;
        &&& items_relabeled(o.subrange(0, k), n.subrange(0, k), c, top)
        &&& item_relabeled(o[k], n[k], c + items_loops(o.subrange(0, k)), top)
    }
}

/// The message of a `break` or `continue` outside any loop.
pub open spec fn stray_message() -> Seq<char> {
    "'continue' or 'break' must be inside a loop"@
}

/// The label of the innermost loop on a stack of loop labels.
pub open spec fn top_label(stack: Seq<usize>) -> Option<usize> {
    if stack.len() == 0 { None } else { Some(stack.last()) }
}

/// The error of `result` is the one for a stray `break` or `continue` at `sp`.
pub open spec fn is_stray_error<T>(result: Result<T>, sp: Span) -> bool {
    result matches Err(Error::Semantic(m)) && m@ == error_located(stray_message(), sp)
}

/// The pass that labels loops: a counter for fresh labels and the labels of
/// the loops around the statement being resolved.
#[derive(Debug)]
pub struct LResolver {
    pub label_counter: usize,
    pub loop_labels: Vec<usize>,
}

proof fn lemma_items_prefix(o: Seq<BlockItem>, n: Seq<BlockItem>, j: int, c: int, top: Option<usize>, in_loop: bool)
    requires 0 <= j < o.len(), j < n.len(),
    ensures
        o.subrange(0, j + 1).subrange(0, j) == o.subrange(0, j),
        n.subrange(0, j + 1).subrange(0, j) == n.subrange(0, j),
        items_loops(o.subrange(0, j + 1)) == items_loops(o.subrange(0, j)) + item_loops(o[j]),
        items_stray(o.subrange(0, j + 1), in_loop) == match items_stray(o.subrange(0, j), in_loop) {
            Some(sp) => Some(sp),
            None => item_stray(o[j], in_loop),
        },
        items_relabeled(o.subrange(0, j + 1), n.subrange(0, j + 1), c, top) == (
            items_relabeled(o.subrange(0, j), n.subrange(0, j), c, top)
            && item_relabeled(o[j], n[j], c + items_loops(o.subrange(0, j)), top)),
{
    assert(o.subrange(0, j + 1).subrange(0, j) =~= o.subrange(0, j));
    assert(n.subrange(0, j + 1).subrange(0, j) =~= n.subrange(0, j));
}

proof fn lemma_items_loops_mono(o: Seq<BlockItem>, j: int)
    requires 0 <= j <= o.len(),
    ensures items_loops(o.subrange(0, j)) <= items_loops(o),
    decreases o.len() - j,
{
    if j < o.len() {
        lemma_items_loops_mono(o, j + 1);
        lemma_items_prefix(o, o, j, 0, None, false);
    } else {
        assert(o.subrange(0, j) =~= o);
    }
}

proof fn lemma_items_stray_prefix(o: Seq<BlockItem>, j: int, in_loop: bool)
    requires 0 <= j <= o.len(), items_stray(o.subrange(0, j), in_loop) is Some,
    ensures items_stray(o, in_loop) == items_stray(o.subrange(0, j), in_loop),
    decreases o.len() - j,
{
    if j < o.len() {
        lemma_items_prefix(o, o, j, 0, None, in_loop);
        lemma_items_stray_prefix(o, j + 1, in_loop);
    } else {
        assert(o.subrange(0, j) =~= o);
    }
}

/// The number of loops in a statement, or `None` where it exceeds `usize::MAX`.
pub fn count_stmt_loops(s: &Stmt) -> (r: Option<usize>)
    ensures
        match r {
            Some(n) => n == stmt_loops(*s),
            None => stmt_loops(*s) > usize::MAX,
        },
    decreases s, 1nat,
{
    match s {
        Stmt::If { then_branch, else_branch, .. } => {
            let a = count_stmt_loops(then_branch)?;
            let b = match else_branch {
                Some(e) => count_stmt_loops(e)?,
                None => 0,
            };
            a.checked_add(b)
        },
        Stmt::While { body, .. } => count_stmt_loops(body)?.checked_add(1),
        Stmt::DoWhile { body, .. } => count_stmt_loops(body)?.checked_add(1),
        Stmt::For { body, .. } => count_stmt_loops(body)?.checked_add(1),
        Stmt::Compound(items) => count_items_loops(items),
        _ => Some(0),
    }
}

/// The number of loops in a sequence of block items, or `None` where it
/// exceeds `usize::MAX`.
pub fn count_items_loops(items: &Vec<BlockItem>) -> (r: Option<usize>)
    ensures
        match r {
            Some(n) => n == items_loops(items@),
            None => items_loops(items@) > usize::MAX,
        },
    decreases items, 0nat,
{
    let mut total: usize = 0;
    let mut j: usize = 0;
    while j < items.len()
        invariant
            j <= items@.len(),
            total == items_loops(items@.subrange(0, j as int)),
        decreases items@.len() - j,
    {
        proof {
            assert(decreases_to!(*items => items@));
            assert(decreases_to!(items@ => items@[j as int]));
            lemma_items_prefix(items@, items@, j as int, 0, None, false);
        }
        let n = match &items[j] {
            BlockItem::Declaration(_) => 0,
            BlockItem::Statement(st) => match count_stmt_loops(st) {
                Some(n) => n,
                None => {
                    proof { lemma_items_loops_mono(items@, j as int + 1); }
                    return None;
                },
            },
        };
        total = match total.checked_add(n) {
            Some(t) => t,
            None => {
                proof { lemma_items_loops_mono(items@, j as int + 1); }
                return None;
            },
        };
        j = j + 1;
    }
    proof { assert(items@.subrange(0, j as int) =~= items@); }
    Some(total)
}

impl LResolver {
    pub fn new() -> (r: Self)
        ensures r.label_counter == 0, r.loop_labels@.len() == 0,
    {
        Self { label_counter: 0, loop_labels: Vec::new() }
    }

    /// A fresh label.
    fn alloc_label(&mut self) -> (r: usize)
        requires old(self).label_counter < usize::MAX,
        ensures
            r == old(self).label_counter,
            final(self).label_counter == old(self).label_counter + 1,
            final(self).loop_labels@ == old(self).loop_labels@,
    {
        let label = self.label_counter;
        self.label_counter = self.label_counter + 1;
        label
    }

    /// Labels the loops of a function body, counting labels from zero.
    pub fn resolve_func(&mut self, func: &mut Function) -> (r: Result<()>)
        requires
            old(func).body matches Some(items) ==> items_loops(items@) <= usize::MAX,
        ensures
            final(func).name == old(func).name,
            final(func).type_ == old(func).type_,
            final(func).linkage == old(func).linkage,
            final(func).params == old(func).params,
            match old(func).body {
                None => r is Ok && final(func).body is None,
                Some(items) => match items_stray(items@, false) {
                    Some(sp) => is_stray_error(r, sp),
                    None => r is Ok && final(func).body is Some
                        && items_relabeled(items@, final(func).body->0@, 0, None)
                        && final(self).label_counter == items_loops(items@),
                },
            },
    {
        match &mut func.body {
            None => Ok(()),
            Some(items) => {
                self.label_counter = 0;
                self.loop_labels.clear();
                self.resolve_items(items)
            },
        }
    }

    /// Labels the loops of a sequence of block items.
    fn resolve_items(&mut self, items: &mut Vec<BlockItem>) -> (r: Result<()>)
        requires
            old(self).label_counter + items_loops(old(items)@) <= usize::MAX,
        ensures
            match items_stray(old(items)@, old(self).loop_labels@.len() > 0) {
                Some(sp) => is_stray_error(r, sp),
                None => r is Ok
                    && items_relabeled(old(items)@, final(items)@, old(self).label_counter as int, top_label(old(self).loop_labels@))
                    && final(self).label_counter == old(self).label_counter + items_loops(old(items)@)
                    && final(self).loop_labels@ == old(self).loop_labels@,
            },
        decreases *old(items), 1nat,
    {
        let ghost orig = items@;
        let ghost c0 = self.label_counter as int;
        let ghost stack = self.loop_labels@;
        let ghost in_loop = stack.len() > 0;
        let mut j: usize = 0;
        while j < items.len()
            invariant
                j <= items@.len(),
                items@.len() == orig.len(),
                orig == old(items)@,
                c0 == old(self).label_counter,
                stack == old(self).loop_labels@,
                in_loop == (stack.len() > 0),
                c0 + items_loops(orig) <= usize::MAX,
                forall|k: int| j <= k < orig.len() ==> items@[k] == orig[k],
                items_stray(orig.subrange(0, j as int), in_loop) is None,
                items_relabeled(orig.subrange(0, j as int), items@.subrange(0, j as int), c0, top_label(stack)),
                self.label_counter == c0 + items_loops(orig.subrange(0, j as int)),
                self.loop_labels@ == stack,
            decreases orig.len() - j,
        {
            proof {
                lemma_items_prefix(orig, items@, j as int, c0, top_label(stack), in_loop);
                lemma_items_loops_mono(orig, j as int + 1);
                assert(decreases_to!(*old(items) => old(items)@));
                assert(decreases_to!(old(items)@ => old(items)@[j as int]));
            }
            let ghost before = items@;
            let mut item = items.remove(j);
            let res = self.resolve_block_item(&mut item);
            items.insert(j, item);
            proof {
                assert(items@.subrange(0, j as int) =~= before.subrange(0, j as int));
                lemma_items_prefix(orig, items@, j as int, c0, top_label(stack), in_loop);
            }
            match res {
                Ok(()) => {},
                Err(e) => {
                    proof { lemma_items_stray_prefix(orig, j as int + 1, in_loop); }
                    return Err(e);
                },
            }
            j = j + 1;
        }
        proof {
            assert(orig.subrange(0, j as int) =~= orig);
            assert(items@.subrange(0, j as int) =~= items@);
        }
        Ok(())
    }

    pub fn resolve_block_item(&mut self, item: &mut BlockItem) -> (r: Result<()>)
        requires
            old(self).label_counter + item_loops(*old(item)) <= usize::MAX,
        ensures
            match item_stray(*old(item), old(self).loop_labels@.len() > 0) {
                Some(sp) => is_stray_error(r, sp),
                None => r is Ok
                    && item_relabeled(*old(item), *final(item), old(self).label_counter as int, top_label(old(self).loop_labels@))
                    && final(self).label_counter == old(self).label_counter + item_loops(*old(item))
                    && final(self).loop_labels@ == old(self).loop_labels@,
            },
        decreases *old(item), 0nat,
    {
        match item {
            BlockItem::Declaration(_) => Ok(()),
            BlockItem::Statement(stmt) => self.resolve_stmt(stmt),
        }
    }

    pub fn resolve_stmt(&mut self, stmt: &mut Stmt) -> (r: Result<()>)
        requires
            old(self).label_counter + stmt_loops(*old(stmt)) <= usize::MAX,
        ensures
            match stmt_stray(*old(stmt), old(self).loop_labels@.len() > 0) {
                Some(sp) => is_stray_error(r, sp),
                None => r is Ok
                    && stmt_relabeled(*old(stmt), *final(stmt), old(self).label_counter as int, top_label(old(self).loop_labels@))
                    && final(self).label_counter == old(self).label_counter + stmt_loops(*old(stmt))
                    && final(self).loop_labels@ == old(self).loop_labels@,
            },
        decreases *old(stmt), 2nat,
    {
        match stmt {
            Stmt::Compound(items) => self.resolve_items(items),
            Stmt::While { body, loop_label, .. } => {
                *loop_label = self.alloc_label();
                self.loop_labels.push(*loop_label);
                self.resolve_stmt(body)?;
                self.loop_labels.pop();
                Ok(())
            },
            Stmt::DoWhile { body, loop_label, .. } => {
                *loop_label = self.alloc_label();
                self.loop_labels.push(*loop_label);
                self.resolve_stmt(body)?;
                self.loop_labels.pop();
                Ok(())
            },
            Stmt::For { body, loop_label, .. } => {
                *loop_label = self.alloc_label();
                self.loop_labels.push(*loop_label);
                self.resolve_stmt(body)?;
                self.loop_labels.pop();
                Ok(())
            },
            Stmt::Continue { loop_label, span } => {
                let n = self.loop_labels.len();
                if n > 0 {
                    *loop_label = self.loop_labels[n - 1];
                    Ok(())
                } else {
                    Err(Error::semantic(crate::text::string_of("'continue' or 'break' must be inside a loop"), span.copy()))
                }
            },
            Stmt::Break { loop_label, span } => {
                let n = self.loop_labels.len();
                if n > 0 {
                    *loop_label = self.loop_labels[n - 1];
                    Ok(())
                } else {
                    Err(Error::semantic(crate::text::string_of("'continue' or 'break' must be inside a loop"), span.copy()))
                }
            },
            Stmt::If { then_branch, else_branch, .. } => {
                self.resolve_stmt(then_branch)?;
                match else_branch {
                    Some(e) => self.resolve_stmt(e),
                    None => Ok(()),
                }
            },
            _ => Ok(()),
        }
    }
}

} // verus!
