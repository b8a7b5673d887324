//! Which functions translated code refers to: every function pointer in a
//! translated body names a function that has been named, so that once all
//! named functions are translated, every function the program refers to
//! exists.
use vstd::prelude::*;
use crate::lang::{
    List, list_from_seq, ValueExpr, PlaceExpr, ArgumentExpr, Statement, Terminator, BasicBlock, Constant, FnName,
    TraitMethodName,
};
use crate::mir::{RsBody, RsConst, RsOperand, RsPlace, RsProj};
use crate::rs::RsTy;
use crate::program::Ctxt;
use crate::rvalue::{
    spec_project, spec_place_prefix, spec_place, spec_operand, spec_operands, spec_bin, spec_un, spec_cast, spec_aggregate,
    spec_nullary, spec_rvalue, repeat_seq, rvalue_keys_in,
};
use crate::mir::{RsRvalue, RsCastKind, RsBinOp, RsUnOp};
use crate::program::{fn_name_of, lemma_index_of};
use crate::mir::{RsStatement, RsTerminator, RsBlock, RsCallee, RsUnwindAction, RsIntrinsic, BlockId};
use crate::lang::BbName;
use crate::bb::{
    StatementResult, spec_stmt, stmt_keys_in, term_keys_in, block_keys_in, spec_call_arg, spec_call_args, tuple_field_args,
    spec_instance_args, spec_callee, spec_call, spec_rs_intrinsic, spec_catch_unwind, spec_switch, spec_drop, spec_panic,
    spec_unwind_action, spec_terminator, split_blocks, stmt_results, spec_bb, callee_is_static, place_is_dyn,
};
use crate::constant::{spec_const, spec_consts};

verus! {

/// Every function pointer in the value names a function below `n`.
pub open spec fn value_refs(e: ValueExpr, n: int) -> bool
    decreases e,
{
    match e {
        ValueExpr::Constant(c, _) => c matches Constant::FnPointer(f) ==> f.0 < n,
        ValueExpr::Tuple(l, _) => values_refs(l, n),
        ValueExpr::Union { expr, .. } => value_refs(*expr, n),
        ValueExpr::Variant { data, .. } => value_refs(*data, n),
        ValueExpr::GetDiscriminant { place } => place_refs(*place, n),
        ValueExpr::Load { source } => place_refs(*source, n),
        ValueExpr::AddrOf { target, .. } => place_refs(*target, n),
        ValueExpr::UnOp { operand, .. } => value_refs(*operand, n),
        ValueExpr::BinOp { left, right, .. } => value_refs(*left, n) && value_refs(*right, n),
    }
}

/// Every function pointer in the values names a function below `n`.
pub open spec fn values_refs(l: List<ValueExpr>, n: int) -> bool
    decreases l,
{
    match l {
        List::Nil => true,
        List::Cons(v, rest) => value_refs(*v, n) && values_refs(*rest, n),
    }
}

/// Every function pointer in the place names a function below `n`.
pub open spec fn place_refs(p: PlaceExpr, n: int) -> bool
    decreases p,
{
    match p {
        PlaceExpr::Local(_) => true,
        PlaceExpr::Deref { operand, .. } => value_refs(*operand, n),
        PlaceExpr::Field { root, .. } => place_refs(*root, n),
        PlaceExpr::Index { root, index } => place_refs(*root, n) && value_refs(*index, n),
        PlaceExpr::Downcast { root, .. } => place_refs(*root, n),
    }
}

pub open spec fn arg_refs(a: ArgumentExpr, n: int) -> bool {
    match a {
        ArgumentExpr::ByValue(v) => value_refs(v, n),
        ArgumentExpr::InPlace(p) => place_refs(p, n),
    }
}

pub open spec fn args_refs(l: List<ArgumentExpr>, n: int) -> bool
    decreases l,
{
    match l {
        List::Nil => true,
        List::Cons(a, rest) => arg_refs(*a, n) && args_refs(*rest, n),
    }
}

pub open spec fn stmt_refs(s: Statement, n: int) -> bool {
    match s {
        Statement::Assign { destination, source } => place_refs(destination, n) && value_refs(source, n),
        Statement::PlaceMention(p) => place_refs(p, n),
        Statement::SetDiscriminant { destination, .. } => place_refs(destination, n),
        Statement::Validate { place, .. } => place_refs(place, n),
        Statement::Deinit { place } => place_refs(place, n),
        _ => true,
    }
}

pub open spec fn stmts_refs(l: List<Statement>, n: int) -> bool
    decreases l,
{
    match l {
        List::Nil => true,
        List::Cons(s, rest) => stmt_refs(*s, n) && stmts_refs(*rest, n),
    }
}

/// Every function pointer in the terminator names a function below `n`.
pub open spec fn term_refs(t: Terminator, n: int) -> bool {
    match t {
        Terminator::Switch { value, .. } => value_refs(value, n),
        Terminator::Intrinsic { arguments, ret, .. } => values_refs(arguments, n) && place_refs(ret, n),
        Terminator::Call { callee, arguments, ret, .. } => value_refs(callee, n) && args_refs(arguments, n) && place_refs(ret, n),
        Terminator::StartUnwind { unwind_payload, .. } => value_refs(unwind_payload, n),
        _ => true,
    }
}

/// Every function pointer in the block names a function below `n`.
pub open spec fn block_refs(b: BasicBlock, n: int) -> bool {
    stmts_refs(b.statements, n) && term_refs(b.terminator, n)
}

/// Every function pointer in the blocks that are there names a function
/// below `n`.
pub open spec fn fn_blocks_refs(bs: Seq<Option<BasicBlock>>, n: int) -> bool {
    forall|i: int| 0 <= i < bs.len() && #[trigger] bs[i] is Some ==> block_refs(bs[i].unwrap(), n)
}

/// Every method of the vtable is a function below `n`.
pub open spec fn methods_refs(l: List<(TraitMethodName, FnName)>, n: int) -> bool
    decreases l,
{
    match l {
        List::Nil => true,
        List::Cons(m, rest) => m.1.0 < n && methods_refs(*rest, n),
    }
}

// ---------------------------------------------------------------------------
// More functions named: what is below stays below.
// ---------------------------------------------------------------------------

proof fn lemma_value_mono(e: ValueExpr, n: int, n2: int)
    requires
        value_refs(e, n),
        n <= n2,
    ensures
        value_refs(e, n2),
    decreases e,
{
    match e {
        ValueExpr::Tuple(l, _) => lemma_values_mono(l, n, n2),
        ValueExpr::Union { expr, .. } => lemma_value_mono(*expr, n, n2),
        ValueExpr::Variant { data, .. } => lemma_value_mono(*data, n, n2),
        ValueExpr::GetDiscriminant { place } => lemma_place_mono(*place, n, n2),
        ValueExpr::Load { source } => lemma_place_mono(*source, n, n2),
        ValueExpr::AddrOf { target, .. } => lemma_place_mono(*target, n, n2),
        ValueExpr::UnOp { operand, .. } => lemma_value_mono(*operand, n, n2),
        ValueExpr::BinOp { left, right, .. } => {
            lemma_value_mono(*left, n, n2);
            lemma_value_mono(*right, n, n2);
        },
        _ => {},
    }
}

proof fn lemma_values_mono(l: List<ValueExpr>, n: int, n2: int)
    requires
        values_refs(l, n),
        n <= n2,
    ensures
        values_refs(l, n2),
    decreases l,
{
    if let List::Cons(v, rest) = l {
        lemma_value_mono(*v, n, n2);
        lemma_values_mono(*rest, n, n2);
    }
}

proof fn lemma_place_mono(p: PlaceExpr, n: int, n2: int)
    requires
        place_refs(p, n),
        n <= n2,
    ensures
        place_refs(p, n2),
    decreases p,
{
    match p {
        PlaceExpr::Deref { operand, .. } => lemma_value_mono(*operand, n, n2),
        PlaceExpr::Field { root, .. } => lemma_place_mono(*root, n, n2),
        PlaceExpr::Index { root, index } => {
            lemma_place_mono(*root, n, n2);
            lemma_value_mono(*index, n, n2);
        },
        PlaceExpr::Downcast { root, .. } => lemma_place_mono(*root, n, n2),
        _ => {},
    }
}

proof fn lemma_args_mono(l: List<ArgumentExpr>, n: int, n2: int)
    requires
        args_refs(l, n),
        n <= n2,
    ensures
        args_refs(l, n2),
    decreases l,
{
    if let List::Cons(a, rest) = l {
        match *a {
            ArgumentExpr::ByValue(v) => lemma_value_mono(v, n, n2),
            ArgumentExpr::InPlace(p) => lemma_place_mono(p, n, n2),
        }
        lemma_args_mono(*rest, n, n2);
    }
}

proof fn lemma_stmt_mono(s: Statement, n: int, n2: int)
    requires
        stmt_refs(s, n),
        n <= n2,
    ensures
        stmt_refs(s, n2),
{
    match s {
        Statement::Assign { destination, source } => {
            lemma_place_mono(destination, n, n2);
            lemma_value_mono(source, n, n2);
        },
        Statement::PlaceMention(p) => lemma_place_mono(p, n, n2),
        Statement::SetDiscriminant { destination, .. } => lemma_place_mono(destination, n, n2),
        Statement::Validate { place, .. } => lemma_place_mono(place, n, n2),
        Statement::Deinit { place } => lemma_place_mono(place, n, n2),
        _ => {},
    }
}

proof fn lemma_stmts_mono(l: List<Statement>, n: int, n2: int)
    requires
        stmts_refs(l, n),
        n <= n2,
    ensures
        stmts_refs(l, n2),
    decreases l,
{
    if let List::Cons(s, rest) = l {
        lemma_stmt_mono(*s, n, n2);
        lemma_stmts_mono(*rest, n, n2);
    }
}

pub proof fn lemma_block_mono(b: BasicBlock, n: int, n2: int)
    requires
        block_refs(b, n),
        n <= n2,
    ensures
        block_refs(b, n2),
{
    lemma_stmts_mono(b.statements, n, n2);
    match b.terminator {
        Terminator::Switch { value, .. } => lemma_value_mono(value, n, n2),
        Terminator::Intrinsic { arguments, ret, .. } => {
            lemma_values_mono(arguments, n, n2);
            lemma_place_mono(ret, n, n2);
        },
        Terminator::Call { callee, arguments, ret, .. } => {
            lemma_value_mono(callee, n, n2);
            lemma_args_mono(arguments, n, n2);
            lemma_place_mono(ret, n, n2);
        },
        Terminator::StartUnwind { unwind_payload, .. } => lemma_value_mono(unwind_payload, n, n2),
        _ => {},
    }
}

pub proof fn lemma_methods_mono(l: List<(TraitMethodName, FnName)>, n: int, n2: int)
    requires
        methods_refs(l, n),
        n <= n2,
    ensures
        methods_refs(l, n2),
    decreases l,
{
    if let List::Cons(_, rest) = l {
        lemma_methods_mono(*rest, n, n2);
    }
}

// ---------------------------------------------------------------------------
// Places, constants and operands refer to no function.
// ---------------------------------------------------------------------------

proof fn lemma_project(body: RsBody, tys: Seq<RsTy>, root: PlaceExpr, proj: RsProj, n: int)
    requires
        place_refs(root, n),
    ensures
        spec_project(body, tys, root, proj) matches Some(p) ==> place_refs(p, n),
{
    assert(value_refs(ValueExpr::Load { source: Box::new(root) }, n));
    if let crate::mir::RsProjKind::Index { local } = proj.kind {
        let l = PlaceExpr::Local(crate::lang::LocalName(local as u32));
        assert(place_refs(l, n));
        assert(value_refs(ValueExpr::Load { source: Box::new(l) }, n));
    }
}

proof fn lemma_place_prefix(body: RsBody, tys: Seq<RsTy>, p: RsPlace, k: int, n: int)
    ensures
        spec_place_prefix(body, tys, p, k) matches Some(pe) ==> place_refs(pe, n),
    decreases k,
{
    if k > 0 {
        lemma_place_prefix(body, tys, p, k - 1, n);
        if let Some(root) = spec_place_prefix(body, tys, p, k - 1) {
            lemma_project(body, tys, root, p.projection@[k - 1], n);
        }
    }
}

pub proof fn lemma_place(body: RsBody, tys: Seq<RsTy>, p: RsPlace, n: int)
    ensures
        spec_place(body, tys, p) matches Some(pe) ==> place_refs(pe, n),
{
    lemma_place_prefix(body, tys, p, p.projection@.len() as int, n);
}

pub proof fn lemma_const(cx: Ctxt, c: RsConst, n: int)
    ensures
        spec_const(cx, c) matches Some(v) ==> value_refs(v, n),
    decreases c, 0int,
{
    match c.kind {
        crate::mir::RsConstKind::Fields(vs) => {
            lemma_consts(cx, vs, 0, n);
        },
        crate::mir::RsConstKind::Variant { fields, .. } => {
            lemma_consts(cx, fields, 0, n);
            reveal_with_fuel(value_refs, 3);
        },
        _ => {},
    }
}

pub proof fn lemma_consts(cx: Ctxt, vs: Vec<RsConst>, i: int, n: int)
    ensures
        spec_consts(cx, vs, i) matches Some(l) ==> values_refs(l, n),
    decreases vs, vs@.len() - i,
{
    if 0 <= i < vs@.len() {
        assert(decreases_to!(vs => vs@[i]));
        lemma_const(cx, vs@[i], n);
        lemma_consts(cx, vs, i + 1, n);
    }
}

pub proof fn lemma_operand(body: RsBody, cx: Ctxt, op: RsOperand, n: int)
    ensures
        spec_operand(body, cx, op) matches Some(v) ==> value_refs(v, n),
{
    match op {
        RsOperand::Copy(p) => lemma_place(body, cx.tcx.tys@, p, n),
        RsOperand::Move(p) => lemma_place(body, cx.tcx.tys@, p, n),
        RsOperand::Constant(c) => lemma_const(cx, c, n),
    }
}

pub proof fn lemma_operands(body: RsBody, cx: Ctxt, ops: Seq<RsOperand>, i: int, n: int)
    ensures
        spec_operands(body, cx, ops, i) matches Some(l) ==> values_refs(l, n),
    decreases ops.len() - i,
{
    if 0 <= i < ops.len() {
        lemma_operand(body, cx, ops[i], n);
        lemma_operands(body, cx, ops, i + 1, n);
    }
}

// ---------------------------------------------------------------------------
// Rvalues: a reified function is one that has a name.
// ---------------------------------------------------------------------------

/// A named function's pointer refers below the number of names.
pub proof fn lemma_fn_ptr(cx: Ctxt, k: crate::mir::InstanceKey)
    requires
        cx.names_wf(),
        cx.fn_names@.contains(k),
    ensures
        fn_name_of(cx.fn_names@, k).0 < cx.fn_names@.len(),
        value_refs(crate::builder::fn_ptr(fn_name_of(cx.fn_names@, k)), cx.fn_names@.len() as int),
{
    lemma_index_of(cx.fn_names@, k);
}

proof fn lemma_bin(cx: Ctxt, op: RsBinOp, lt: int, lty: crate::lang::Type, rty: crate::lang::Type, l: ValueExpr, r: ValueExpr, n: int)
    requires
        value_refs(l, n),
        value_refs(r, n),
    ensures
        spec_bin(cx, op, lt, lty, rty, l, r) matches Some(v) ==> value_refs(v, n),
{
    reveal_with_fuel(value_refs, 3);
}

proof fn lemma_un(op: RsUnOp, ty: crate::lang::Type, v: ValueExpr, n: int)
    requires
        value_refs(v, n),
    ensures
        spec_un(op, ty, v) matches Some(e) ==> value_refs(e, n),
{
}

proof fn lemma_values_from_seq(s: Seq<ValueExpr>, n: int)
    requires
        forall|i: int| 0 <= i < s.len() ==> value_refs(#[trigger] s[i], n),
    ensures
        values_refs(list_from_seq(s), n),
    decreases s.len(),
{
    if s.len() > 0 {
        assert(value_refs(s[0], n));
        lemma_values_from_seq(s.drop_first(), n);
    }
}

proof fn lemma_aggregate(
    body: RsBody,
    cx: Ctxt,
    ty: int,
    t: crate::lang::Type,
    variant: int,
    union_field: Option<usize>,
    ops: Seq<RsOperand>,
    n: int,
)
    ensures
        spec_aggregate(body, cx, ty, t, variant, union_field, ops) matches Some(v) ==> value_refs(v, n),
{
    lemma_operands(body, cx, ops, 0, n);
    if ops.len() > 0 {
        lemma_operand(body, cx, ops[0], n);
    }
    if ops.len() > 1 {
        lemma_operand(body, cx, ops[1], n);
    }
    reveal_with_fuel(value_refs, 3);
}

proof fn lemma_cast(body: RsBody, cx: Ctxt, kind: RsCastKind, operand: RsOperand, ot: int, ty: int)
    requires
        cx.names_wf(),
        kind matches RsCastKind::ReifyFnPointer { instance } ==> cx.fn_names@.contains(instance),
    ensures
        spec_cast(body, cx, kind, operand, ot, ty) matches Some(v) ==> value_refs(v, cx.fn_names@.len() as int),
{
    let n = cx.fn_names@.len() as int;
    lemma_operand(body, cx, operand, n);
    reveal_with_fuel(value_refs, 3);
    if let RsCastKind::ReifyFnPointer { instance } = kind {
        lemma_fn_ptr(cx, instance);
    }
}

/// What an rvalue becomes refers only to functions that have names.
pub proof fn lemma_rvalue(body: RsBody, cx: Ctxt, rv: RsRvalue)
    requires
        cx.names_wf(),
        rvalue_keys_in(cx, rv),
    ensures
        spec_rvalue(body, cx, rv) matches Some(v) ==> value_refs(v, cx.fn_names@.len() as int),
{
    let n = cx.fn_names@.len() as int;
    let tys = cx.tcx.tys@;
    match rv {
        RsRvalue::Use(o) => lemma_operand(body, cx, o, n),
        RsRvalue::BinaryOp { op, left, right } => {
            lemma_operand(body, cx, left, n);
            lemma_operand(body, cx, right, n);
            let lt = crate::rvalue::spec_operand_ty(body, left);
            if let (Some(lty), Some(rty), Some(l), Some(r)) = (
                crate::ty::spec_ty(tys, lt),
                crate::ty::spec_ty(tys, crate::rvalue::spec_operand_ty(body, right)),
                spec_operand(body, cx, left),
                spec_operand(body, cx, right),
            ) {
                lemma_bin(cx, op, lt, lty, rty, l, r, n);
            }
        },
        RsRvalue::CheckedBinaryOp { left, right, .. } => {
            lemma_operand(body, cx, left, n);
            lemma_operand(body, cx, right, n);
        },
        RsRvalue::UnaryOp { op, operand } => {
            lemma_operand(body, cx, operand, n);
            if let (Some(t), Some(v)) = (crate::ty::spec_ty(tys, crate::rvalue::spec_operand_ty(body, operand)), spec_operand(body, cx, operand)) {
                lemma_un(op, t, v, n);
            }
        },
        RsRvalue::Ref { place, .. } => lemma_place(body, tys, place, n),
        RsRvalue::AddressOf { place } => lemma_place(body, tys, place, n),
        RsRvalue::Aggregate { ty, variant, union_field, operands } => {
            if let Some(t) = crate::ty::spec_ty(tys, ty as int) {
                lemma_aggregate(body, cx, ty as int, t, variant as int, union_field, operands@, n);
            }
        },
        RsRvalue::CopyForDeref(place) => lemma_place(body, tys, place, n),
        RsRvalue::Len(place) => {
            lemma_place(body, tys, place, n);
            reveal_with_fuel(value_refs, 3);
        },
        RsRvalue::Discriminant(place) => lemma_place(body, tys, place, n),
        RsRvalue::Repeat { operand, count } => {
            lemma_operand(body, cx, operand, n);
            if let Some(v) = spec_operand(body, cx, operand) {
                lemma_values_from_seq(repeat_seq(v, count as nat), n);
            }
        },
        RsRvalue::Cast { kind, operand, ty } => {
            lemma_cast(body, cx, kind, operand, crate::rvalue::spec_operand_ty(body, operand), ty as int);
        },
        _ => {},
    }
}

// ---------------------------------------------------------------------------
// Statements and terminators
// ---------------------------------------------------------------------------

pub open spec fn sres_refs(r: StatementResult, n: int) -> bool {
    match r {
        StatementResult::Statement(s) => stmt_refs(s, n),
        StatementResult::Intrinsic { destination, arguments, .. } => place_refs(destination, n) && values_refs(arguments, n),
    }
}

/// Every function pointer in what a terminator becomes (statements,
/// terminator and added blocks) names a function below `n`.
pub open spec fn tres_refs(r: Option<(Seq<Statement>, Terminator, Seq<BasicBlock>, Seq<crate::lang::Type>)>, n: int) -> bool {
    r matches Some(x) ==> {
        &&& forall|i: int| 0 <= i < x.0.len() ==> stmt_refs(#[trigger] x.0[i], n)
        &&& term_refs(x.1, n)
        &&& forall|i: int| 0 <= i < x.2.len() ==> block_refs(#[trigger] x.2[i], n)
    }
}

proof fn lemma_unit_place(n: int)
    ensures
        place_refs(crate::builder::spec_unit_place(), n),
        value_refs(crate::builder::spec_unit_ptr(), n),
        term_refs(crate::builder::spec_abort(), n),
        block_refs(crate::bb::empty_block(crate::builder::spec_abort(), crate::lang::BbKind::Cleanup), n),
{
    reveal_with_fuel(place_refs, 2);
    assert(place_refs(crate::builder::spec_unit_place(), n));
}

proof fn lemma_load_local(l: crate::lang::LocalName, n: int)
    ensures
        value_refs(crate::bb::load_local(l), n),
{
    reveal_with_fuel(value_refs, 2);
}

pub proof fn lemma_stmt(body: RsBody, cx: Ctxt, s: RsStatement)
    requires
        cx.names_wf(),
        stmt_keys_in(cx, s),
    ensures
        spec_stmt(body, cx, s) matches Some(r) ==> sres_refs(r, cx.fn_names@.len() as int),
{
    reveal(spec_stmt);
    let n = cx.fn_names@.len() as int;
    let tys = cx.tcx.tys@;
    match s {
        RsStatement::Assign { place, rvalue } => {
            lemma_place(body, tys, place, n);
            lemma_rvalue(body, cx, rvalue);
            if let RsRvalue::Cast { operand, .. } = rvalue {
                lemma_operand(body, cx, operand, n);
            }
            reveal_with_fuel(values_refs, 2);
        },
        RsStatement::Retag { place, .. } => lemma_place(body, tys, place, n),
        RsStatement::Deinit(place) => lemma_place(body, tys, place, n),
        RsStatement::SetDiscriminant { place, .. } => lemma_place(body, tys, place, n),
        RsStatement::Assume(op) => {
            lemma_operand(body, cx, op, n);
            lemma_unit_place(n);
            reveal_with_fuel(values_refs, 2);
        },
        RsStatement::PlaceMention(place) => lemma_place(body, tys, place, n),
        _ => {},
    }
}

proof fn lemma_stmts_from_seq(s: Seq<Statement>, n: int)
    requires
        forall|i: int| 0 <= i < s.len() ==> stmt_refs(#[trigger] s[i], n),
    ensures
        stmts_refs(list_from_seq(s), n),
    decreases s.len(),
{
    if s.len() > 0 {
        assert(stmt_refs(s[0], n));
        lemma_stmts_from_seq(s.drop_first(), n);
    }
}

proof fn lemma_args_from_seq(s: Seq<ArgumentExpr>, n: int)
    requires
        forall|i: int| 0 <= i < s.len() ==> arg_refs(#[trigger] s[i], n),
    ensures
        args_refs(list_from_seq(s), n),
    decreases s.len(),
{
    if s.len() > 0 {
        assert(arg_refs(s[0], n));
        lemma_args_from_seq(s.drop_first(), n);
    }
}

proof fn lemma_call_args(body: RsBody, cx: Ctxt, ops: Seq<RsOperand>, i: int, n: int)
    ensures
        spec_call_args(body, cx, ops, i) matches Some(a) ==> forall|j: int| 0 <= j < a.len() ==> arg_refs(#[trigger] a[j], n),
    decreases ops.len() - i,
{
    if 0 <= i < ops.len() {
        lemma_call_args(body, cx, ops, i + 1, n);
        lemma_operand(body, cx, ops[i], n);
        if let RsOperand::Move(p) = ops[i] {
            lemma_place(body, cx.tcx.tys@, p, n);
        }
        if let (Some(a), Some(rest)) = (spec_call_arg(body, cx, ops[i]), spec_call_args(body, cx, ops, i + 1)) {
            let all = seq![a] + rest;
            assert forall|j: int| 0 <= j < all.len() implies arg_refs(#[trigger] all[j], n) by {
                if j > 0 {
                    assert(all[j] == rest[j - 1]);
                }
            }
        }
    }
}

proof fn lemma_instance_args(body: RsBody, cx: Ctxt, ops: Seq<RsOperand>, rust_call: bool, n: int)
    ensures
        spec_instance_args(body, cx, ops, rust_call) matches Some(a) ==> forall|j: int| 0 <= j < a.len() ==> arg_refs(#[trigger] a[j], n),
{
    lemma_call_args(body, cx, ops, 0, n);
    if ops.len() > 0 {
        lemma_call_args(body, cx, ops.drop_last(), 0, n);
        let tp = match ops.last() {
            RsOperand::Move(p) => Some(p),
            RsOperand::Copy(p) => Some(p),
            RsOperand::Constant(_) => None,
        };
        if let Some(tp) = tp {
            lemma_place(body, cx.tcx.tys@, tp, n);
            if let Some(tpe) = spec_place(body, cx.tcx.tys@, tp) {
                assert forall|k: nat, j: int| 0 <= j < k implies arg_refs(#[trigger] tuple_field_args(tpe, k)[j], n) by {
                    reveal_with_fuel(place_refs, 2);
                }
            }
        }
    }
}

proof fn lemma_callee(body: RsBody, cx: Ctxt, ops: Seq<RsOperand>, args: Seq<ArgumentExpr>, instance: u64, virtual_method: Option<u32>)
    requires
        cx.names_wf(),
        virtual_method is None ==> cx.fn_names@.contains(instance),
        forall|j: int| 0 <= j < args.len() ==> arg_refs(#[trigger] args[j], cx.fn_names@.len() as int),
    ensures
        spec_callee(body, cx, ops, args, instance, virtual_method) matches Some((f, a)) ==> {
            &&& value_refs(f, cx.fn_names@.len() as int)
            &&& forall|j: int| 0 <= j < a.len() ==> arg_refs(#[trigger] a[j], cx.fn_names@.len() as int)
        },
{
    let n = cx.fn_names@.len() as int;
    if ops.len() > 0 {
        lemma_operand(body, cx, ops[0], n);
    }
    reveal_with_fuel(value_refs, 3);
    if virtual_method is None {
        lemma_fn_ptr(cx, instance);
    }
}

proof fn lemma_unwind_action_refs(bbs: Seq<Option<BbName>>, n: int, is_cleanup: bool, unwind: RsUnwindAction, m: int)
    ensures
        spec_unwind_action(bbs, n, is_cleanup, unwind) matches Some((_, blocks))
            ==> forall|i: int| 0 <= i < blocks.len() ==> block_refs(#[trigger] blocks[i], m),
{
    lemma_unit_place(m);
}

proof fn lemma_panic_refs(cx: Ctxt, bbs: Seq<Option<BbName>>, n: int, is_cleanup: bool, unwind: RsUnwindAction, m: int)
    ensures
        spec_panic(cx, bbs, n, is_cleanup, unwind) matches Some((t, blocks)) ==> {
            &&& term_refs(t, m)
            &&& forall|i: int| 0 <= i < blocks.len() ==> block_refs(#[trigger] blocks[i], m)
        },
{
    lemma_unit_place(m);
    lemma_unwind_action_refs(bbs, n, is_cleanup, unwind, m);
}

proof fn lemma_catch_unwind(
    n: int,
    m: int,
    try_fn: ValueExpr,
    data: ValueExpr,
    catch_fn: ValueExpr,
    destination: PlaceExpr,
    target: BbName,
    k: int,
)
    requires
        value_refs(try_fn, k),
        value_refs(data, k),
        value_refs(catch_fn, k),
        place_refs(destination, k),
    ensures
        ({
            let c = spec_catch_unwind(n, m, try_fn, data, catch_fn, destination, target);
            &&& term_refs(c.0, k)
            &&& forall|i: int| 0 <= i < c.1.len() ==> block_refs(#[trigger] c.1[i], k)
        }),
{
    let c = spec_catch_unwind(n, m, try_fn, data, catch_fn, destination, target);
    lemma_unit_place(k);
    reveal_with_fuel(stmts_refs, 10);
    reveal_with_fuel(args_refs, 3);
    reveal_with_fuel(value_refs, 3);
    reveal_with_fuel(place_refs, 3);
    assert(block_refs(c.1[0], k));
    assert(block_refs(c.1[1], k));
    assert(block_refs(c.1[2], k));
    assert(block_refs(c.1[3], k));
    assert(block_refs(c.1[4], k));
}

#[verifier::rlimit(40)]
proof fn lemma_rs_intrinsic_refs(
    body: RsBody,
    cx: Ctxt,
    bbs: Seq<Option<BbName>>,
    n: int,
    m: int,
    ri: RsIntrinsic,
    args: Seq<RsOperand>,
    dest: RsPlace,
    target: Option<BlockId>,
    k: int,
)
    ensures
        tres_refs(spec_rs_intrinsic(body, cx, bbs, n, m, ri, args, dest, target), k),
{
    let tys = cx.tcx.tys@;
    lemma_unit_place(k);
    lemma_place(body, tys, dest, k);
    lemma_operands(body, cx, args, 0, k);
    if args.len() > 0 {
        lemma_operand(body, cx, args[0], k);
    }
    if args.len() > 1 {
        lemma_operand(body, cx, args[1], k);
    }
    if args.len() > 2 {
        lemma_operand(body, cx, args[2], k);
    }
    let r = spec_rs_intrinsic(body, cx, bbs, n, m, ri, args, dest, target);
    match ri {
        RsIntrinsic::CatchUnwind => {
            if r is Some {
                let d = spec_place(body, tys, dest).unwrap();
                let t = crate::bb::goto_target(bbs, target).unwrap()->Goto_0;
                crate::bb::lemma_operands_some(body, cx, args, 0, 0);
                crate::bb::lemma_operands_some(body, cx, args, 0, 1);
                crate::bb::lemma_operands_some(body, cx, args, 0, 2);
                lemma_catch_unwind(
                    n,
                    m,
                    spec_operand(body, cx, args[0]).unwrap(),
                    spec_operand(body, cx, args[1]).unwrap(),
                    spec_operand(body, cx, args[2]).unwrap(),
                    d,
                    t,
                    k,
                );
            }
        },
        RsIntrinsic::ArithOffset => {
            reveal_with_fuel(value_refs, 4);
        },
        RsIntrinsic::PtrOffsetFrom { .. } => {
            reveal_with_fuel(value_refs, 4);
        },
        RsIntrinsic::SizeOfVal { .. } => {
            reveal_with_fuel(value_refs, 3);
        },
        RsIntrinsic::AlignOfVal { .. } => {
            reveal_with_fuel(value_refs, 3);
        },
        RsIntrinsic::Ctpop => {
            reveal_with_fuel(value_refs, 2);
        },
        RsIntrinsic::ExactDiv => {
            reveal_with_fuel(value_refs, 2);
        },
        _ => {},
    }
}

#[verifier::rlimit(40)]
proof fn lemma_call_refs(
    body: RsBody,
    cx: Ctxt,
    bbs: Seq<Option<BbName>>,
    n: int,
    m: int,
    is_cleanup: bool,
    callee: RsCallee,
    args: Seq<RsOperand>,
    dest: RsPlace,
    target: Option<BlockId>,
    unwind: RsUnwindAction,
)
    requires
        cx.names_wf(),
        callee matches RsCallee::Instance { instance, .. } ==> (callee_is_static(callee) ==> cx.fn_names@.contains(instance)),
    ensures
        tres_refs(spec_call(body, cx, bbs, n, m, is_cleanup, callee, args, dest, target, unwind), cx.fn_names@.len() as int),
{
    let k = cx.fn_names@.len() as int;
    let tys = cx.tcx.tys@;
    lemma_place(body, tys, dest, k);
    lemma_unwind_action_refs(bbs, n, is_cleanup, unwind, k);
    match callee {
        RsCallee::FnPtr { func, .. } => {
            lemma_operand(body, cx, func, k);
            lemma_call_args(body, cx, args, 0, k);
            if let Some(a) = spec_call_args(body, cx, args, 0) {
                lemma_args_from_seq(a, k);
            }
        },
        RsCallee::Intrinsic(ri) => {
            lemma_rs_intrinsic_refs(body, cx, bbs, n, m, ri, args, dest, target, k);
        },
        RsCallee::Instance { instance, rust_call, virtual_method, .. } => {
            lemma_operands(body, cx, args, 0, k);
            lemma_panic_refs(cx, bbs, n, is_cleanup, unwind, k);
            lemma_instance_args(body, cx, args, rust_call, k);
            if let Some(a) = spec_instance_args(body, cx, args, rust_call) {
                if callee_is_static(callee) || virtual_method is Some {
                    lemma_callee(body, cx, args, a, instance, virtual_method);
                    if let Some((f, a2)) = spec_callee(body, cx, args, a, instance, virtual_method) {
                        lemma_args_from_seq(a2, k);
                    }
                }
            }
        },
    }
}

proof fn lemma_drop_refs(body: RsBody, cx: Ctxt, bbs: Seq<Option<BbName>>, place: RsPlace, target: BlockId, drop_fn: u64)
    requires
        cx.names_wf(),
        !place_is_dyn(body, cx, place) ==> cx.fn_names@.contains(drop_fn),
    ensures
        spec_drop(body, cx, bbs, place, target, drop_fn) matches Some(t) ==> term_refs(t, cx.fn_names@.len() as int),
{
    let k = cx.fn_names@.len() as int;
    lemma_place(body, cx.tcx.tys@, place, k);
    lemma_unit_place(k);
    reveal_with_fuel(value_refs, 3);
    reveal_with_fuel(args_refs, 2);
    if !place_is_dyn(body, cx, place) {
        lemma_fn_ptr(cx, drop_fn);
    }
}

proof fn lemma_assert_refs(body: RsBody, cx: Ctxt, bbs: Seq<Option<BbName>>, n: int, m: int, blk: RsBlock)
    requires
        cx.names_wf(),
        blk.terminator is Assert,
        term_keys_in(body, cx, blk.terminator),
    ensures
        tres_refs(spec_terminator(body, cx, bbs, n, m, blk), cx.fn_names@.len() as int),
{
    let k = cx.fn_names@.len() as int;
    let r = spec_terminator(body, cx, bbs, n, m, blk);
    if let RsTerminator::Assert { cond, unwind, .. } = blk.terminator {
            lemma_operand(body, cx, cond, k);
            lemma_panic_refs(cx, bbs, n, blk.is_cleanup, unwind, k);
            if r is Some {
                assert(spec_panic(cx, bbs, n, blk.is_cleanup, unwind) is Some && spec_operand(body, cx, cond) is Some) by {
                    reveal(spec_terminator);
                }
                let (pt, blocks) = spec_panic(cx, bbs, n, blk.is_cleanup, unwind).unwrap();
                let c = spec_operand(body, cx, cond).unwrap();
                let x = r.unwrap();
                assert(x.2 == blocks.push(
                    crate::bb::empty_block(pt, crate::bb::block_kind(blk.is_cleanup)),
                ) && x.0.len() == 0 && (x.1 matches Terminator::Switch { value, .. } && (value == crate::rvalue::mk_un(
                    crate::lang::UnOp::Cast(crate::lang::CastOp::Transmute(crate::lang::Type::Int(crate::builder::u8_ty()))),
                    c,
                ) || value == crate::rvalue::mk_un(
                    crate::lang::UnOp::Cast(crate::lang::CastOp::Transmute(crate::lang::Type::Int(crate::builder::u8_ty()))),
                    crate::rvalue::mk_un(crate::lang::UnOp::BoolNot, c),
                )))) by {
                    reveal(spec_terminator);
                }
                reveal_with_fuel(value_refs, 3);
                assert forall|i: int| 0 <= i < x.2.len() implies block_refs(#[trigger] x.2[i], k) by {
                    if i < blocks.len() {
                        assert(x.2[i] == blocks[i]);
                    }
                }
            }
    }
}

/// What a terminator becomes refers only to functions that have names.
pub proof fn lemma_terminator_refs(body: RsBody, cx: Ctxt, bbs: Seq<Option<BbName>>, n: int, m: int, blk: RsBlock)
    requires
        cx.names_wf(),
        term_keys_in(body, cx, blk.terminator),
    ensures
        tres_refs(spec_terminator(body, cx, bbs, n, m, blk), cx.fn_names@.len() as int),
{
    let k = cx.fn_names@.len() as int;
    let r = spec_terminator(body, cx, bbs, n, m, blk);
    match blk.terminator {
        RsTerminator::Call { callee, args, destination, target, unwind } => {
            assert(r == spec_call(body, cx, bbs, n, m, blk.is_cleanup, callee, args@, destination, target, unwind)) by {
                reveal(spec_terminator);
            }
            lemma_call_refs(body, cx, bbs, n, m, blk.is_cleanup, callee, args@, destination, target, unwind);
        },
        RsTerminator::SwitchInt { discr, targets, otherwise } => {
            lemma_operand(body, cx, discr, k);
            let sw = spec_switch(body, cx, bbs, discr, targets@, otherwise);
            assert(r == (match sw {
                Some(t) => Some(crate::bb::plain(t)),
                None => None,
            })) by {
                reveal(spec_terminator);
            }
        },
        RsTerminator::Assert { .. } => {
            lemma_assert_refs(body, cx, bbs, n, m, blk);
        },
        RsTerminator::Drop { place, target, drop_fn } => {
            lemma_drop_refs(body, cx, bbs, place, target, drop_fn);
            let d = spec_drop(body, cx, bbs, place, target, drop_fn);
            assert(r == (match d {
                Some(t) => Some(crate::bb::plain(t)),
                None => None,
            })) by {
                reveal(spec_terminator);
            }
        },
        _ => {
            reveal(spec_terminator);
        },
    }
}

// ---------------------------------------------------------------------------
// Blocks and functions
// ---------------------------------------------------------------------------

proof fn lemma_split_refs(rs: Seq<StatementResult>, n: int, kind: crate::lang::BbKind, k: int)
    requires
        forall|i: int| 0 <= i < rs.len() ==> sres_refs(#[trigger] rs[i], k),
    ensures
        forall|i: int| 0 <= i < split_blocks(rs, n, kind).0.len() ==> block_refs(#[trigger] split_blocks(rs, n, kind).0[i], k),
        forall|i: int| 0 <= i < split_blocks(rs, n, kind).1.len() ==> stmt_refs(#[trigger] split_blocks(rs, n, kind).1[i], k),
    decreases rs.len(),
{
    if rs.len() > 0 {
        let prev = split_blocks(rs.drop_last(), n, kind);
        lemma_split_refs(rs.drop_last(), n, kind, k);
        assert(sres_refs(rs.last(), k));
        lemma_stmts_from_seq(prev.1, k);
        let cur = split_blocks(rs, n, kind);
        assert forall|i: int| 0 <= i < cur.0.len() implies block_refs(#[trigger] cur.0[i], k) by {
            if i < prev.0.len() {
                assert(cur.0[i] == prev.0[i]);
            }
        }
        assert forall|i: int| 0 <= i < cur.1.len() implies stmt_refs(#[trigger] cur.1[i], k) by {
            if i < prev.1.len() {
                assert(cur.1[i] == prev.1[i]);
            }
        }
    }
}

/// What a MIR block becomes refers only to functions that have names.
pub proof fn lemma_bb_refs(body: RsBody, cx: Ctxt, bbs: Seq<Option<BbName>>, n: int, m: int, blk: RsBlock)
    requires
        cx.names_wf(),
        block_keys_in(body, cx, blk),
    ensures
        spec_bb(body, cx, bbs, n, m, blk) matches Some((first, added, _)) ==> {
            &&& block_refs(first, cx.fn_names@.len() as int)
            &&& forall|i: int| 0 <= i < added.len() ==> block_refs(#[trigger] added[i], cx.fn_names@.len() as int)
        },
{
    let k = cx.fn_names@.len() as int;
    let r = spec_bb(body, cx, bbs, n, m, blk);
    if r is Some {
        let (first, added, _) = r.unwrap();
        let kind = crate::bb::block_kind(blk.is_cleanup);
        let rs = stmt_results(body, cx, blk.statements@);
        assert forall|i: int| 0 <= i < rs.len() implies sres_refs(#[trigger] rs[i], k) by {
            assert(crate::bb::stmt_keys_in(cx, blk.statements@[i]));
            assert(spec_stmt(body, cx, blk.statements@[i]) is Some);
            lemma_stmt(body, cx, blk.statements@[i]);
        }
        let split = split_blocks(rs, n, kind);
        lemma_split_refs(rs, n, kind, k);
        let n2 = n + split.0.len();
        lemma_terminator_refs(body, cx, bbs, n2, m, blk);
        let (ts, t, tblocks, tlocals) = spec_terminator(body, cx, bbs, n2, m, blk).unwrap();
        let last_stmts = split.1 + ts;
        assert forall|i: int| 0 <= i < last_stmts.len() implies stmt_refs(#[trigger] last_stmts[i], k) by {
            if i < split.1.len() {
                assert(last_stmts[i] == split.1[i]);
            } else {
                assert(last_stmts[i] == ts[i - split.1.len()]);
            }
        }
        lemma_stmts_from_seq(last_stmts, k);
        let all = split.0.push(BasicBlock { statements: list_from_seq(last_stmts), terminator: t, kind });
        assert(first == all[0] && added == all.drop_first() + tblocks);
        assert forall|i: int| 0 <= i < all.len() implies block_refs(#[trigger] all[i], k) by {
            if i < split.0.len() {
                assert(all[i] == split.0[i]);
            }
        }
        assert forall|i: int| 0 <= i < added.len() implies block_refs(#[trigger] added[i], k) by {
            if i < all.len() - 1 {
                assert(added[i] == all[i + 1]);
            } else {
                assert(added[i] == tblocks[i - (all.len() - 1)]);
            }
        }
    }
}

proof fn lemma_blocks_from_refs(
    body: RsBody,
    cx: Ctxt,
    blocks: Seq<RsBlock>,
    i: int,
    bs0: Seq<Option<BasicBlock>>,
    ls0: Seq<crate::lang::Type>,
)
    requires
        0 <= i <= blocks.len(),
        cx.names_wf(),
        crate::intern::body_keys_in(body, cx, blocks),
        fn_blocks_refs(bs0, cx.fn_names@.len() as int),
        crate::function::count_regular(blocks, blocks.len() as int) <= bs0.len(),
    ensures
        crate::function::spec_blocks_from(body, cx, blocks, i, bs0, ls0) matches Some((bs, _)) ==> {
            &&& bs.len() >= bs0.len()
            &&& fn_blocks_refs(bs, cx.fn_names@.len() as int)
        },
    decreases i,
{
    if i > 0 {
        let k = cx.fn_names@.len() as int;
        lemma_blocks_from_refs(body, cx, blocks, i - 1, bs0, ls0);
        let prev = crate::function::spec_blocks_from(body, cx, blocks, i - 1, bs0, ls0);
        let cur = crate::function::spec_blocks_from(body, cx, blocks, i, bs0, ls0);
        if cur is Some && !blocks[i - 1].is_cleanup {
            let (bs, ls) = prev.unwrap();
            let names = crate::function::spec_bb_names(blocks);
            assert(block_keys_in(body, cx, blocks[i - 1]));
            lemma_bb_refs(body, cx, names, bs.len() as int, ls.len() as int, blocks[i - 1]);
            let (first, added, _) = spec_bb(body, cx, names, bs.len() as int, ls.len() as int, blocks[i - 1]).unwrap();
            let c = crate::function::count_regular(blocks, i - 1);
            crate::function::lemma_count_regular_mono(blocks, i - 1, blocks.len() as int);
            crate::function::lemma_count_regular_mono(blocks, 0, i - 1);
            assert(0 <= c < bs.len());
            let upd = bs.update(c, Some(first));
            let new_bs = cur.unwrap().0;
            assert(new_bs == upd + crate::bb::somes(added));
            assert forall|x: int| 0 <= x < new_bs.len() && #[trigger] new_bs[x] is Some implies block_refs(new_bs[x].unwrap(), k) by {
                if x < upd.len() {
                    assert(new_bs[x] == upd[x]);
                    if x != c {
                        assert(upd[x] == bs[x]);
                    }
                } else {
                    assert(new_bs[x] == crate::bb::somes(added)[x - upd.len()]);
                }
            }
        }
    }
}

/// Every function pointer in a translated function names a function that
/// has a name, once every function the body refers to is named.
pub proof fn law_fn_refs_named(body: RsBody, cx: Ctxt, blocks: Seq<RsBlock>)
    requires
        cx.names_wf(),
        crate::intern::body_keys_in(body, cx, blocks),
        crate::function::spec_fn_blocks(body, cx, blocks) is Some,
    ensures
        fn_blocks_refs(crate::function::spec_fn_blocks(body, cx, blocks).unwrap().0, cx.fn_names@.len() as int),
{
    let k = cx.fn_names@.len() as int;
    let len = blocks.len() as int;
    let nr = crate::function::count_regular(blocks, len);
    let init = crate::function::spec_init_block(body);
    let bs0 = crate::bb::nones(nr as nat).push(Some(init));
    let stmts = crate::function::spec_init_stmts(body, body.always_live@.len() as int);
    lemma_init_stmts(body, body.always_live@.len() as int, k);
    lemma_stmts_from_seq(stmts, k);
    assert(fn_blocks_refs(bs0, k)) by {
        assert forall|x: int| 0 <= x < bs0.len() && #[trigger] bs0[x] is Some implies block_refs(bs0[x].unwrap(), k) by {
            if x < bs0.len() - 1 {
                assert(bs0[x] is None);
            }
        }
    }
    crate::function::lemma_count_regular_mono(blocks, 0, len);
    lemma_blocks_from_refs(body, cx, blocks, len, bs0, crate::function::spec_locals(cx, body));
}

proof fn lemma_init_stmts(body: RsBody, i: int, k: int)
    ensures
        forall|j: int| 0 <= j < crate::function::spec_init_stmts(body, i).len()
            ==> stmt_refs(#[trigger] crate::function::spec_init_stmts(body, i)[j], k),
    decreases i,
{
    if i > 0 {
        lemma_init_stmts(body, i - 1, k);
        let prev = crate::function::spec_init_stmts(body, i - 1);
        let cur = crate::function::spec_init_stmts(body, i);
        assert forall|j: int| 0 <= j < cur.len() implies stmt_refs(#[trigger] cur[j], k) by {
            if j < prev.len() {
                assert(cur[j] == prev[j]);
            }
        }
    }
}

// ---------------------------------------------------------------------------
// The whole program
// ---------------------------------------------------------------------------

impl Ctxt {
    /// Every function translated so far is there and refers only to named
    /// functions, and so does every vtable.
    pub open spec fn refs_closed(&self) -> bool {
        &&& forall|i: int| 0 <= i < self.functions@.len() ==> #[trigger] self.functions@[i] is Some
        &&& forall|i: int| 0 <= i < self.functions@.len()
            ==> fn_blocks_refs(#[trigger] self.functions@[i].unwrap().blocks@, self.fn_names@.len() as int)
        &&& forall|i: int| 0 <= i < self.vtables@.len()
            ==> methods_refs(#[trigger] self.vtables@[i].methods, self.fn_names@.len() as int)
    }
}

pub proof fn lemma_fn_blocks_mono(bs: Seq<Option<BasicBlock>>, n: int, n2: int)
    requires
        fn_blocks_refs(bs, n),
        n <= n2,
    ensures
        fn_blocks_refs(bs, n2),
{
    assert forall|i: int| 0 <= i < bs.len() && #[trigger] bs[i] is Some implies block_refs(bs[i].unwrap(), n2) by {
        lemma_block_mono(bs[i].unwrap(), n, n2);
    }
}

/// Naming more functions keeps a closed context closed.
pub proof fn lemma_refs_closed_grows(a: Ctxt, b: Ctxt)
    requires
        a.refs_closed(),
        b.functions == a.functions,
        b.vtables == a.vtables,
        a.fn_names@.len() <= b.fn_names@.len(),
    ensures
        b.refs_closed(),
{
    let n = a.fn_names@.len() as int;
    let n2 = b.fn_names@.len() as int;
    assert forall|i: int| 0 <= i < b.functions@.len() implies fn_blocks_refs(#[trigger] b.functions@[i].unwrap().blocks@, n2) by {
        lemma_fn_blocks_mono(a.functions@[i].unwrap().blocks@, n, n2);
    }
    assert forall|i: int| 0 <= i < b.vtables@.len() implies methods_refs(#[trigger] b.vtables@[i].methods, n2) by {
        lemma_methods_mono(a.vtables@[i].methods, n, n2);
    }
}

/// The start function refers only to function 0.
pub proof fn lemma_start_fn_refs(f: crate::lang::Function, n: int)
    requires
        crate::program::is_start_fn(f, 0),
        n > 0,
    ensures
        fn_blocks_refs(f.blocks@, n),
{
    lemma_unit_place(n);
    reveal_with_fuel(value_refs, 2);
    assert(block_refs(f.blocks@[0].unwrap(), n));
    assert(block_refs(f.blocks@[1].unwrap(), n));
    assert(block_refs(f.blocks@[2].unwrap(), n));
}

} // verus!
