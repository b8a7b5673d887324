//! Naming, before a body is translated, every function and allocation its
//! blocks refer to. The translation of the blocks then finds every name in
//! place and leaves the program context as it is.
use vstd::prelude::*;
use crate::mir::{RsOperand, RsRvalue, RsCastKind, RsStatement, RsTerminator, RsCallee, RsBlock, RsBody, RsMir, RsAllocation, InstanceKey, AllocKey};
use crate::rs::RsTy;
use crate::constant::allocs_wf;
use crate::program::{Ctxt, cx_extends, extends, lemma_contains_extends};
use crate::constant::{const_keys_valid, lemma_const_keys_extends, const_alloc_key, grown, lemma_grown_compose, lemma_grown_none};
use crate::ty::tys_wf;
use crate::rvalue::{operand_keys_in, operands_keys_in, rvalue_keys_in};
use crate::bb::{stmt_keys_in, term_keys_in, block_keys_in, callee_is_static, place_is_dyn, is_panic_fn, str_eq};
use crate::constant::lemma_extends_trans;

verus! {

/// `b` is `a` with more functions and allocations named; nothing else that
/// the translation of a body reads has changed.
pub open spec fn interned(a: Ctxt, b: Ctxt) -> bool {
    &&& cx_extends(a, b)
    &&& b.functions == a.functions
    &&& b.vtable_names == a.vtable_names
    &&& b.vtables == a.vtables
}

/// Every block that is translated (no cleanup block is) has all its names.
pub open spec fn body_keys_in(body: RsBody, cx: Ctxt, blocks: Seq<RsBlock>) -> bool {
    forall|b: int| 0 <= b < blocks.len() && !blocks[b].is_cleanup ==> block_keys_in(body, cx, #[trigger] blocks[b])
}

/// The rvalue refers to function `k`: it reifies it into a function pointer.
pub open spec fn rvalue_fn_key(rv: RsRvalue, k: InstanceKey) -> bool {
    rv matches RsRvalue::Cast { kind: RsCastKind::ReifyFnPointer { instance }, .. } && instance == k
}

/// The statement refers to function `k`.
pub open spec fn stmt_fn_key(s: RsStatement, k: InstanceKey) -> bool {
    s matches RsStatement::Assign { rvalue, .. } && rvalue_fn_key(rvalue, k)
}

/// The terminator refers to function `k`: it calls it statically, or drops
/// a place with it.
pub open spec fn term_fn_key(t: RsTerminator, k: InstanceKey) -> bool {
    match t {
        RsTerminator::Call { callee, .. } => callee matches RsCallee::Instance { instance, .. } && callee_is_static(callee)
            && instance == k,
        RsTerminator::Drop { drop_fn, .. } => drop_fn == k,
        _ => false,
    }
}

/// The block refers to function `k`.
pub open spec fn block_fn_key(blk: RsBlock, k: InstanceKey) -> bool {
    ||| exists|i: int| 0 <= i < blk.statements@.len() && stmt_fn_key(#[trigger] blk.statements@[i], k)
    ||| term_fn_key(blk.terminator, k)
}

/// Some block that is translated (no cleanup block) refers to function `k`.
pub open spec fn body_fn_key(blocks: Seq<RsBlock>, k: InstanceKey) -> bool {
    exists|b: int| 0 <= b < blocks.len() && !blocks[b].is_cleanup && block_fn_key(#[trigger] blocks[b], k)
}

/// The operand is a constant that points to allocation `k`.
pub open spec fn operand_alloc_key(op: RsOperand, k: AllocKey) -> bool {
    op matches RsOperand::Constant(c) && const_alloc_key(c, k)
}

/// One of the operands points to allocation `k`.
pub open spec fn operands_alloc_key(ops: Seq<RsOperand>, k: AllocKey) -> bool {
    exists|i: int| 0 <= i < ops.len() && operand_alloc_key(#[trigger] ops[i], k)
}

/// An operand of the rvalue points to allocation `k`.
pub open spec fn rvalue_alloc_key(rv: RsRvalue, k: AllocKey) -> bool {
    match rv {
        RsRvalue::Use(o) => operand_alloc_key(o, k),
        RsRvalue::BinaryOp { left, right, .. } => operand_alloc_key(left, k) || operand_alloc_key(right, k),
        RsRvalue::CheckedBinaryOp { left, right, .. } => operand_alloc_key(left, k) || operand_alloc_key(right, k),
        RsRvalue::UnaryOp { operand, .. } => operand_alloc_key(operand, k),
        RsRvalue::Aggregate { operands, .. } => operands_alloc_key(operands@, k),
        RsRvalue::Repeat { operand, .. } => operand_alloc_key(operand, k),
        RsRvalue::Cast { operand, .. } => operand_alloc_key(operand, k),
        _ => false,
    }
}

/// An operand of the statement points to allocation `k`.
pub open spec fn stmt_alloc_key(s: RsStatement, k: AllocKey) -> bool {
    match s {
        RsStatement::Assign { rvalue, .. } => rvalue_alloc_key(rvalue, k),
        RsStatement::Assume(op) => operand_alloc_key(op, k),
        _ => false,
    }
}

/// An operand of the terminator points to allocation `k`.
pub open spec fn term_alloc_key(t: RsTerminator, k: AllocKey) -> bool {
    match t {
        RsTerminator::Call { callee, args, .. } => operands_alloc_key(args@, k) || (callee matches RsCallee::FnPtr { func, .. }
            && operand_alloc_key(func, k)),
        RsTerminator::SwitchInt { discr, .. } => operand_alloc_key(discr, k),
        RsTerminator::Assert { cond, .. } => operand_alloc_key(cond, k),
        _ => false,
    }
}

/// An operand of the block points to allocation `k`.
pub open spec fn block_alloc_key(blk: RsBlock, k: AllocKey) -> bool {
    ||| exists|i: int| 0 <= i < blk.statements@.len() && stmt_alloc_key(#[trigger] blk.statements@[i], k)
    ||| term_alloc_key(blk.terminator, k)
}

/// An operand of a block that is translated (no cleanup block) points to allocation `k`.
pub open spec fn body_alloc_key(blocks: Seq<RsBlock>, k: AllocKey) -> bool {
    exists|b: int| 0 <= b < blocks.len() && !blocks[b].is_cleanup && block_alloc_key(#[trigger] blocks[b], k)
}

/// The number of statements of blocks `..i`.
pub open spec fn stmt_count(blocks: Seq<RsBlock>, i: int) -> int
    decreases i,
{
    if i <= 0 {
        0
    } else {
        stmt_count(blocks, i - 1) + blocks[i - 1].statements@.len()
    }
}

pub proof fn lemma_stmt_count_mono(blocks: Seq<RsBlock>, i: int, j: int)
    requires
        0 <= i <= j <= blocks.len(),
    ensures
        stmt_count(blocks, i) <= stmt_count(blocks, j),
    decreases j - i,
{
    if i < j {
        lemma_stmt_count_mono(blocks, i, j - 1);
    }
}

proof fn lemma_interned_trans(a: Ctxt, b: Ctxt, c: Ctxt)
    requires
        interned(a, b),
        interned(b, c),
    ensures
        interned(a, c),
{
    lemma_extends_trans(a.fn_names@, b.fn_names@, c.fn_names@);
    lemma_extends_trans(a.alloc_names@, b.alloc_names@, c.alloc_names@);
}

proof fn lemma_interned_refl(a: Ctxt)
    ensures
        interned(a, a),
{
    assert(a.fn_names@.subrange(0, a.fn_names@.len() as int) =~= a.fn_names@);
    assert(a.alloc_names@.subrange(0, a.alloc_names@.len() as int) =~= a.alloc_names@);
}

// ---------------------------------------------------------------------------
// Names stay given
// ---------------------------------------------------------------------------

pub proof fn lemma_operand_keys_stay(a: Ctxt, b: Ctxt, op: RsOperand)
    requires
        operand_keys_in(a, op),
        interned(a, b),
    ensures
        operand_keys_in(b, op),
{
    match op {
        RsOperand::Constant(c) => if const_keys_valid(c, a.allocs@.len() as int) {
            lemma_const_keys_extends(c, a.alloc_names@, b.alloc_names@);
        },
        _ => {},
    }
}

pub proof fn lemma_operands_keys_stay(a: Ctxt, b: Ctxt, ops: Seq<RsOperand>)
    requires
        operands_keys_in(a, ops),
        interned(a, b),
    ensures
        operands_keys_in(b, ops),
{
    assert forall|i: int| 0 <= i < ops.len() implies operand_keys_in(b, #[trigger] ops[i]) by {
        lemma_operand_keys_stay(a, b, ops[i]);
    }
}

pub proof fn lemma_rvalue_keys_stay(a: Ctxt, b: Ctxt, rv: RsRvalue)
    requires
        rvalue_keys_in(a, rv),
        interned(a, b),
    ensures
        rvalue_keys_in(b, rv),
{
    match rv {
        RsRvalue::Use(o) => lemma_operand_keys_stay(a, b, o),
        RsRvalue::BinaryOp { left, right, .. } => {
            lemma_operand_keys_stay(a, b, left);
            lemma_operand_keys_stay(a, b, right);
        },
        RsRvalue::CheckedBinaryOp { left, right, .. } => {
            lemma_operand_keys_stay(a, b, left);
            lemma_operand_keys_stay(a, b, right);
        },
        RsRvalue::UnaryOp { operand, .. } => lemma_operand_keys_stay(a, b, operand),
        RsRvalue::Aggregate { operands, .. } => lemma_operands_keys_stay(a, b, operands@),
        RsRvalue::Repeat { operand, .. } => lemma_operand_keys_stay(a, b, operand),
        RsRvalue::Cast { kind, operand, .. } => {
            lemma_operand_keys_stay(a, b, operand);
            if let RsCastKind::ReifyFnPointer { instance } = kind {
                lemma_contains_extends(a.fn_names@, b.fn_names@, instance);
            }
        },
        _ => {},
    }
}

pub proof fn lemma_stmt_keys_stay(a: Ctxt, b: Ctxt, s: RsStatement)
    requires
        stmt_keys_in(a, s),
        interned(a, b),
    ensures
        stmt_keys_in(b, s),
{
    match s {
        RsStatement::Assign { rvalue, .. } => lemma_rvalue_keys_stay(a, b, rvalue),
        RsStatement::Assume(op) => lemma_operand_keys_stay(a, b, op),
        _ => {},
    }
}

pub proof fn lemma_term_keys_stay(body: RsBody, a: Ctxt, b: Ctxt, t: RsTerminator)
    requires
        term_keys_in(body, a, t),
        interned(a, b),
    ensures
        term_keys_in(body, b, t),
{
    match t {
        RsTerminator::Call { callee, args, .. } => {
            lemma_operands_keys_stay(a, b, args@);
            match callee {
                RsCallee::FnPtr { func, .. } => lemma_operand_keys_stay(a, b, func),
                RsCallee::Instance { instance, .. } => if callee_is_static(callee) {
                    lemma_contains_extends(a.fn_names@, b.fn_names@, instance);
                },
                _ => {},
            }
        },
        RsTerminator::SwitchInt { discr, .. } => lemma_operand_keys_stay(a, b, discr),
        RsTerminator::Assert { cond, .. } => lemma_operand_keys_stay(a, b, cond),
        RsTerminator::Drop { place, drop_fn, .. } => if !place_is_dyn(body, a, place) {
            lemma_contains_extends(a.fn_names@, b.fn_names@, drop_fn);
        },
        _ => {},
    }
}

pub proof fn lemma_block_keys_stay(body: RsBody, a: Ctxt, b: Ctxt, blk: RsBlock)
    requires
        block_keys_in(body, a, blk),
        interned(a, b),
    ensures
        block_keys_in(body, b, blk),
{
    assert forall|i: int| 0 <= i < blk.statements@.len() implies stmt_keys_in(b, #[trigger] blk.statements@[i]) by {
        lemma_stmt_keys_stay(a, b, blk.statements@[i]);
    }
    lemma_term_keys_stay(body, a, b, blk.terminator);
}

/// Growing names for some roots is growing them for more roots.
proof fn lemma_grown_subset(allocs: Seq<RsAllocation>, names: Seq<AllocKey>, from: int, r1: Set<AllocKey>, r2: Set<AllocKey>)
    requires
        grown(allocs, names, from, r1),
        r1.subset_of(r2),
    ensures
        grown(allocs, names, from, r2),
{
}

// ---------------------------------------------------------------------------
// Naming
// ---------------------------------------------------------------------------

impl Ctxt {
    /// The invariants of the program context between translations.
    pub open spec fn wf(&self) -> bool {
        &&& tys_wf(self.tcx.tys@)
        &&& self.names_wf()
        &&& self.allocs_named_wf()
        &&& self.globals_done_except(Set::empty())
    }

    /// Adds types to the table; the ones there keep their ids.
    pub fn add_types(&mut self, more: Vec<RsTy>)
        requires
            old(self).wf(),
            tys_wf(old(self).tcx.tys@ + more@),
        ensures
            final(self).wf(),
            final(self).tcx.tys@ == old(self).tcx.tys@ + more@,
            final(self).session == old(self).session,
            final(self).entry == old(self).entry,
            final(self).fn_names == old(self).fn_names,
            final(self).functions == old(self).functions,
            final(self).allocs == old(self).allocs,
            final(self).alloc_names == old(self).alloc_names,
            final(self).globals == old(self).globals,
            final(self).vtable_names == old(self).vtable_names,
            final(self).vtables == old(self).vtables,
    {
        let mut more = more;
        self.tcx.tys.append(&mut more);
        proof {
            assert forall|i: int| 0 <= i < self.globals@.len() && !Set::<int>::empty().contains(i)
                implies #[trigger] self.global_done(i) by {
                assert(old(self).global_done(i));
            }
        }
    }

    /// Adds global allocations to the table; the ones there keep their keys.
    pub fn add_allocs(&mut self, more: Vec<RsAllocation>)
        requires
            old(self).wf(),
            allocs_wf(old(self).allocs@ + more@),
            old(self).allocs@.len() + more@.len() < u32::MAX,
        ensures
            final(self).wf(),
            final(self).allocs@ == old(self).allocs@ + more@,
            final(self).tcx == old(self).tcx,
            final(self).session == old(self).session,
            final(self).entry == old(self).entry,
            final(self).fn_names == old(self).fn_names,
            final(self).functions == old(self).functions,
            final(self).alloc_names == old(self).alloc_names,
            final(self).globals == old(self).globals,
            final(self).vtable_names == old(self).vtable_names,
            final(self).vtables == old(self).vtables,
    {
        let mut more = more;
        self.allocs.append(&mut more);
        proof {
            assert forall|i: int| 0 <= i < self.alloc_names@.len() implies #[trigger] self.alloc_names@[i] < self.allocs@.len() by {
                assert(old(self).alloc_names@[i] < old(self).allocs@.len());
            }
            assert forall|i: int| 0 <= i < self.globals@.len() && !Set::<int>::empty().contains(i)
                implies #[trigger] self.global_done(i) by {
                assert(old(self).global_done(i));
                assert(old(self).alloc_names@[i] < old(self).allocs@.len());
                assert(self.allocs@[self.alloc_names@[i] as int] == old(self).allocs@[old(self).alloc_names@[i] as int]);
            }
        }
    }

    /// Names the function instance `key`.
    fn intern_fn(&mut self, key: u64)
        requires
            old(self).wf(),
            old(self).fn_names@.len() + 1 < u32::MAX,
        ensures
            final(self).wf(),
            interned(*old(self), *final(self)),
            final(self).fn_names@.contains(key),
            final(self).fn_names@.len() <= old(self).fn_names@.len() + 1,
            forall|i: int| old(self).fn_names@.len() <= i < final(self).fn_names@.len() ==> #[trigger] final(self).fn_names@[i] == key,
            grown(
                final(self).allocs@,
                final(self).alloc_names@,
                old(self).alloc_names@.len() as int,
                Set::<AllocKey>::empty(),
            ),
    {
        let _ = self.get_fn_name(key);
        proof {
            assert(self.alloc_names@.subrange(0, self.alloc_names@.len() as int) =~= self.alloc_names@);
            assert forall|i: int| 0 <= i < self.globals@.len() && !Set::<int>::empty().contains(i)
                implies #[trigger] self.global_done(i) by {
                assert(old(self).global_done(i));
            }
        }
    }

    fn intern_operand(&mut self, op: &RsOperand)
        requires
            old(self).wf(),
        ensures
            final(self).wf(),
            interned(*old(self), *final(self)),
            final(self).fn_names == old(self).fn_names,
            operand_keys_in(*final(self), *op),
            grown(
                final(self).allocs@,
                final(self).alloc_names@,
                old(self).alloc_names@.len() as int,
                Set::new(|k: AllocKey| operand_alloc_key(*op, k)),
            ),
    {
        match op {
            RsOperand::Constant(c) => {
                self.intern_const(c);
                proof {
                    assert(self.fn_names@.subrange(0, self.fn_names@.len() as int) =~= self.fn_names@);
                }
            },
            _ => {
                proof {
                    lemma_interned_refl(*self);
                }
            },
        }
    }

    fn intern_operands(&mut self, ops: &Vec<RsOperand>)
        requires
            old(self).wf(),
        ensures
            final(self).wf(),
            interned(*old(self), *final(self)),
            final(self).fn_names == old(self).fn_names,
            operands_keys_in(*final(self), ops@),
            grown(
                final(self).allocs@,
                final(self).alloc_names@,
                old(self).alloc_names@.len() as int,
                Set::new(|k: AllocKey| operands_alloc_key(ops@, k)),
            ),
    {
        proof {
            lemma_interned_refl(*self);
            lemma_grown_none(self.allocs@, self.alloc_names@, Set::new(|k: AllocKey| operands_alloc_key(ops@, k)));
        }
        let mut i: usize = 0;
        while i < ops.len()
            invariant
                self.wf(),
                interned(*old(self), *self),
                self.fn_names == old(self).fn_names,
                i <= ops@.len(),
                forall|j: int| 0 <= j < i ==> operand_keys_in(*self, #[trigger] ops@[j]),
                grown(self.allocs@, self.alloc_names@, old(self).alloc_names@.len() as int, Set::new(|k: AllocKey| operands_alloc_key(ops@, k))),
            decreases ops@.len() - i,
        {
            let ghost before = *self;
            self.intern_operand(&ops[i]);
            proof {
                let r = Set::new(|k: AllocKey| operands_alloc_key(ops@, k));
                let r2 = Set::new(|k: AllocKey| operand_alloc_key(ops@[i as int], k));
                assert(r2.subset_of(r));
                lemma_grown_compose(self.allocs@, before.alloc_names@, self.alloc_names@, old(self).alloc_names@.len() as int, r, r2, r);
                lemma_interned_trans(*old(self), before, *self);
                assert forall|j: int| 0 <= j < i + 1 implies operand_keys_in(*self, #[trigger] ops@[j]) by {
                    if j < i {
                        lemma_operand_keys_stay(before, *self, ops@[j]);
                    }
                }
            }
            i = i + 1;
        }
    }

    fn intern_rvalue(&mut self, rv: &RsRvalue)
        requires
            old(self).wf(),
            old(self).fn_names@.len() + 1 < u32::MAX,
        ensures
            final(self).wf(),
            interned(*old(self), *final(self)),
            final(self).fn_names@.len() <= old(self).fn_names@.len() + 1,
            rvalue_keys_in(*final(self), *rv),
            forall|i: int|
                old(self).fn_names@.len() <= i < final(self).fn_names@.len() ==> rvalue_fn_key(*rv, #[trigger] final(self).fn_names@[i]),
            grown(
                final(self).allocs@,
                final(self).alloc_names@,
                old(self).alloc_names@.len() as int,
                Set::new(|k: AllocKey| rvalue_alloc_key(*rv, k)),
            ),
    {
        match rv {
            RsRvalue::Use(o) => self.intern_operand(o),
            RsRvalue::BinaryOp { left, right, .. } | RsRvalue::CheckedBinaryOp { left, right, .. } => {
                self.intern_operand(left);
                let ghost mid = *self;
                self.intern_operand(right);
                proof {
                    lemma_interned_trans(*old(self), mid, *self);
                    lemma_operand_keys_stay(mid, *self, *left);
                    let r = Set::new(|k: AllocKey| rvalue_alloc_key(*rv, k));
                    let r1 = Set::new(|k: AllocKey| operand_alloc_key(*left, k));
                    let r2 = Set::new(|k: AllocKey| operand_alloc_key(*right, k));
                    assert(r1.subset_of(r));
                    assert(r2.subset_of(r));
                    lemma_grown_compose(self.allocs@, mid.alloc_names@, self.alloc_names@, old(self).alloc_names@.len() as int, r1, r2, r);
                }
            },
            RsRvalue::UnaryOp { operand, .. } => self.intern_operand(operand),
            RsRvalue::Aggregate { operands, .. } => self.intern_operands(operands),
            RsRvalue::Repeat { operand, .. } => self.intern_operand(operand),
            RsRvalue::Cast { kind, operand, .. } => {
                self.intern_operand(operand);
                if let RsCastKind::ReifyFnPointer { instance } = kind {
                    let ghost mid = *self;
                    self.intern_fn(*instance);
                    proof {
                        lemma_interned_trans(*old(self), mid, *self);
                        lemma_operand_keys_stay(mid, *self, *operand);
                        let r = Set::new(|k: AllocKey| rvalue_alloc_key(*rv, k));
                        let r1 = Set::new(|k: AllocKey| operand_alloc_key(*operand, k));
                        assert(r1.subset_of(r));
                        lemma_grown_compose(
                            self.allocs@,
                            mid.alloc_names@,
                            self.alloc_names@,
                            old(self).alloc_names@.len() as int,
                            r1,
                            Set::<AllocKey>::empty(),
                            r,
                        );
                    }
                }
            },
            _ => {
                proof {
                    lemma_interned_refl(*self);
                }
            },
        }
    }

    fn intern_stmt(&mut self, s: &RsStatement)
        requires
            old(self).wf(),
            old(self).fn_names@.len() + 1 < u32::MAX,
        ensures
            final(self).wf(),
            interned(*old(self), *final(self)),
            final(self).fn_names@.len() <= old(self).fn_names@.len() + 1,
            stmt_keys_in(*final(self), *s),
            forall|i: int|
                old(self).fn_names@.len() <= i < final(self).fn_names@.len() ==> stmt_fn_key(*s, #[trigger] final(self).fn_names@[i]),
            grown(
                final(self).allocs@,
                final(self).alloc_names@,
                old(self).alloc_names@.len() as int,
                Set::new(|k: AllocKey| stmt_alloc_key(*s, k)),
            ),
    {
        match s {
            RsStatement::Assign { rvalue, .. } => self.intern_rvalue(rvalue),
            RsStatement::Assume(op) => self.intern_operand(op),
            _ => {
                proof {
                    lemma_interned_refl(*self);
                }
            },
        }
    }

    fn intern_term(&mut self, body: &RsBody, t: &RsTerminator)
        requires
            old(self).wf(),
            old(self).fn_names@.len() + 1 < u32::MAX,
        ensures
            final(self).wf(),
            interned(*old(self), *final(self)),
            final(self).fn_names@.len() <= old(self).fn_names@.len() + 1,
            term_keys_in(*body, *final(self), *t),
            forall|i: int|
                old(self).fn_names@.len() <= i < final(self).fn_names@.len() ==> term_fn_key(*t, #[trigger] final(self).fn_names@[i]),
            grown(
                final(self).allocs@,
                final(self).alloc_names@,
                old(self).alloc_names@.len() as int,
                Set::new(|k: AllocKey| term_alloc_key(*t, k)),
            ),
    {
        proof {
            lemma_interned_refl(*self);
        }
        match t {
            RsTerminator::Call { callee, args, .. } => {
                self.intern_operands(args);
                let ghost mid = *self;
                match callee {
                    RsCallee::FnPtr { func, .. } => {
                        self.intern_operand(func);
                        assert(self.fn_names@.len() == old(self).fn_names@.len());
                        proof {
                            let r = Set::new(|k: AllocKey| term_alloc_key(*t, k));
                            assert(Set::new(|k: AllocKey| operand_alloc_key(*func, k)).subset_of(r));
                            lemma_grown_subset(
                                self.allocs@,
                                self.alloc_names@,
                                mid.alloc_names@.len() as int,
                                Set::new(|k: AllocKey| operand_alloc_key(*func, k)),
                                r,
                            );
                        }
                    },
                    RsCallee::Instance { instance, crate_name, path, virtual_method, .. } => {
                        // Only a static call names its callee.
                        if !str_eq(crate_name.as_str(), "intrinsics") && !is_panic_fn(path.as_str()) && virtual_method.is_none() {
                            self.intern_fn(*instance);
                            proof {
                                assert(callee_is_static(*callee));
                                assert forall|i: int| old(self).fn_names@.len() <= i < self.fn_names@.len() implies term_fn_key(
                                    *t,
                                    #[trigger] self.fn_names@[i],
                                ) by {
                                    assert(self.fn_names@[i] == *instance);
                                }
                            }
                        } else {
                            proof {
                                lemma_interned_refl(*self);
                                assert(self.fn_names@.len() == old(self).fn_names@.len());
                            }
                        }
                    },
                    _ => {
                        proof {
                            lemma_interned_refl(*self);
                        }
                    },
                }
                proof {
                    lemma_interned_trans(*old(self), mid, *self);
                    lemma_operands_keys_stay(mid, *self, args@);
                    let r = Set::new(|k: AllocKey| term_alloc_key(*t, k));
                    let r1 = Set::new(|k: AllocKey| operands_alloc_key(args@, k));
                    assert(r1.subset_of(r));
                    if self.alloc_names@.len() == mid.alloc_names@.len() {
                        lemma_grown_none(self.allocs@, self.alloc_names@, r);
                    }
                    lemma_grown_compose(self.allocs@, mid.alloc_names@, self.alloc_names@, old(self).alloc_names@.len() as int, r1, r, r);
                }
            },
            RsTerminator::SwitchInt { discr, .. } => self.intern_operand(discr),
            RsTerminator::Assert { cond, .. } => self.intern_operand(cond),
            RsTerminator::Drop { place, drop_fn, .. } => {
                let ty = if place.projection.len() == 0 {
                    if place.local < body.local_tys.len() {
                        Some(body.local_tys[place.local])
                    } else {
                        None
                    }
                } else {
                    Some(place.projection[place.projection.len() - 1].ty)
                };
                // A trait object is dropped through its vtable, anything else
                // by its `drop_in_place` instance.
                let is_dyn = match ty {
                    Some(ty) => ty < self.tcx.tys.len() && match &self.tcx.tys[ty].kind {
                        crate::rs::RsTyKind::Dynamic { .. } => true,
                        _ => false,
                    },
                    None => false,
                };
                if !is_dyn {
                    self.intern_fn(*drop_fn);
                }
            },
            _ => {},
        }
    }
}

impl Ctxt {
    /// Names every function and allocation that the blocks of a body refer
    /// to. Cleanup blocks are not translated, so they are skipped.
    pub fn intern_body(&mut self, body: &RsBody, blocks: &Vec<RsBlock>)
        requires
            old(self).wf(),
            old(self).fn_names@.len() + stmt_count(blocks@, blocks@.len() as int) + blocks@.len() + 1 < u32::MAX,
        ensures
            final(self).wf(),
            interned(*old(self), *final(self)),
            body_keys_in(*body, *final(self), blocks@),
            final(self).fn_names@.len() <= old(self).fn_names@.len() + stmt_count(blocks@, blocks@.len() as int) + blocks@.len(),
            forall|i: int|
                old(self).fn_names@.len() <= i < final(self).fn_names@.len() ==> body_fn_key(blocks@, #[trigger] final(self).fn_names@[i]),
            grown(
                final(self).allocs@,
                final(self).alloc_names@,
                old(self).alloc_names@.len() as int,
                Set::new(|k: AllocKey| body_alloc_key(blocks@, k)),
            ),
    {
        proof {
            lemma_interned_refl(*self);
            lemma_grown_none(self.allocs@, self.alloc_names@, Set::new(|k: AllocKey| body_alloc_key(blocks@, k)));
        }
        let ghost total = stmt_count(blocks@, blocks@.len() as int);
        let mut b: usize = 0;
        while b < blocks.len()
            invariant
                self.wf(),
                interned(*old(self), *self),
                b <= blocks@.len(),
                total == stmt_count(blocks@, blocks@.len() as int),
                old(self).fn_names@.len() + total + blocks@.len() + 1 < u32::MAX,
                self.fn_names@.len() <= old(self).fn_names@.len() + stmt_count(blocks@, b as int) + b,
                forall|x: int| 0 <= x < b && !blocks@[x].is_cleanup ==> block_keys_in(*body, *self, #[trigger] blocks@[x]),
                forall|i: int| old(self).fn_names@.len() <= i < self.fn_names@.len() ==> body_fn_key(blocks@, #[trigger] self.fn_names@[i]),
                grown(self.allocs@, self.alloc_names@, old(self).alloc_names@.len() as int, Set::new(|k: AllocKey| body_alloc_key(blocks@, k))),
            decreases blocks@.len() - b,
        {
            proof {
                lemma_stmt_count_mono(blocks@, b + 1, blocks@.len() as int);
            }
            let ghost start = *self;
            if !blocks[b].is_cleanup {
                let stmts = &blocks[b].statements;
                proof {
                    lemma_interned_refl(*self);
                }
                let mut i: usize = 0;
                while i < stmts.len()
                    invariant
                        self.wf(),
                        interned(start, *self),
                        i <= stmts@.len(),
                        stmts == blocks@[b as int].statements,
                        start.fn_names@.len() + stmts@.len() + 1 < u32::MAX,
                        self.fn_names@.len() <= start.fn_names@.len() + i,
                        forall|j: int| 0 <= j < i ==> stmt_keys_in(*self, #[trigger] stmts@[j]),
                        forall|k: int| start.fn_names@.len() <= k < self.fn_names@.len() ==> block_fn_key(
                            blocks@[b as int],
                            #[trigger] self.fn_names@[k],
                        ),
                        !blocks@[b as int].is_cleanup,
                        b < blocks@.len(),
                        interned(*old(self), start),
                        grown(self.allocs@, self.alloc_names@, old(self).alloc_names@.len() as int, Set::new(|k: AllocKey| body_alloc_key(blocks@, k))),
                    decreases stmts@.len() - i,
                {
                    let ghost mid = *self;
                    self.intern_stmt(&stmts[i]);
                    proof {
                        let rb = Set::new(|k: AllocKey| body_alloc_key(blocks@, k));
                        let rs = Set::new(|k: AllocKey| stmt_alloc_key(stmts@[i as int], k));
                        assert forall|k: AllocKey| rs.contains(k) implies rb.contains(k) by {
                            assert(block_alloc_key(blocks@[b as int], k));
                        }
                        lemma_interned_trans(*old(self), start, mid);
                        lemma_grown_compose(self.allocs@, mid.alloc_names@, self.alloc_names@, old(self).alloc_names@.len() as int, rb, rs, rb);
                        assert forall|k: int| start.fn_names@.len() <= k < self.fn_names@.len() implies block_fn_key(
                            blocks@[b as int],
                            #[trigger] self.fn_names@[k],
                        ) by {
                            if k < mid.fn_names@.len() {
                                assert(self.fn_names@[k] == mid.fn_names@[k]);
                            } else {
                                assert(stmt_fn_key(stmts@[i as int], self.fn_names@[k]));
                            }
                        }
                        lemma_interned_trans(start, mid, *self);
                        assert forall|j: int| 0 <= j < i + 1 implies stmt_keys_in(*self, #[trigger] stmts@[j]) by {
                            if j < i {
                                lemma_stmt_keys_stay(mid, *self, stmts@[j]);
                            }
                        }
                    }
                    i = i + 1;
                }
                let ghost mid = *self;
                self.intern_term(body, &blocks[b].terminator);
                proof {
                    let rb = Set::new(|k: AllocKey| body_alloc_key(blocks@, k));
                    let rt = Set::new(|k: AllocKey| term_alloc_key(blocks@[b as int].terminator, k));
                    assert forall|k: AllocKey| rt.contains(k) implies rb.contains(k) by {
                        assert(block_alloc_key(blocks@[b as int], k));
                    }
                    lemma_interned_trans(*old(self), start, mid);
                    lemma_grown_compose(self.allocs@, mid.alloc_names@, self.alloc_names@, old(self).alloc_names@.len() as int, rb, rt, rb);
                    assert forall|k: int| start.fn_names@.len() <= k < self.fn_names@.len() implies block_fn_key(
                        blocks@[b as int],
                        #[trigger] self.fn_names@[k],
                    ) by {
                        if k < mid.fn_names@.len() {
                            assert(self.fn_names@[k] == mid.fn_names@[k]);
                        }
                    }
                    assert forall|k: int| start.fn_names@.len() <= k < self.fn_names@.len() implies body_fn_key(
                        blocks@,
                        #[trigger] self.fn_names@[k],
                    ) by {
                        assert(block_fn_key(blocks@[b as int], self.fn_names@[k]));
                    }
                    lemma_interned_trans(start, mid, *self);
                    assert forall|j: int| 0 <= j < stmts@.len() implies stmt_keys_in(*self, #[trigger] stmts@[j]) by {
                        lemma_stmt_keys_stay(mid, *self, stmts@[j]);
                    }
                    assert(block_keys_in(*body, *self, blocks@[b as int]));
                }
            } else {
                proof {
                    lemma_interned_refl(*self);
                }
            }
            proof {
                assert forall|k: int| old(self).fn_names@.len() <= k < self.fn_names@.len() implies body_fn_key(
                    blocks@,
                    #[trigger] self.fn_names@[k],
                ) by {
                    if k < start.fn_names@.len() {
                        assert(self.fn_names@[k] == start.fn_names@[k]);
                        assert(body_fn_key(blocks@, start.fn_names@[k]));
                    }
                }
                lemma_interned_trans(*old(self), start, *self);
                assert forall|x: int| 0 <= x < b + 1 && !blocks@[x].is_cleanup implies block_keys_in(*body, *self, #[trigger] blocks@[x]) by {
                    if x < b {
                        lemma_block_keys_stay(*body, start, *self, blocks@[x]);
                    }
                }
            }
            b = b + 1;
        }
    }
}

} // verus!
