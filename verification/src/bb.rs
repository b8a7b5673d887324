//! The translation of basic blocks: statements, terminators, calls and the
//! Rust intrinsics that become MiniRust code.
//!
//! Some MIR statements become MiniRust intrinsic calls, which end a block, so
//! one MIR block may become several MiniRust blocks; some terminators need
//! extra blocks (for unwinding, panicking or `catch_unwind`). New blocks get
//! the next free names in order, new locals the next free local names.
use vstd::prelude::*;
use crate::num::{Int, int_of, lemma_int_of, wrap_to_bits};
use vstd::arithmetic::power2::pow2;
use crate::lang::{
    List, list_from_seq, list_from_vec, Type, IntType, PtrType, PointerMetaKind, Constant, ValueExpr, PlaceExpr,
    LocalName, BbName, TraitMethodName, BinOp, IntBinOp, UnOp, IntUnOp, CastOp, ArgumentExpr, Statement,
    Terminator, IntrinsicOp, IntrinsicLockOp, BbKind, BasicBlock, CallingConvention,
};
use crate::mir::{
    RsPlace, RsOperand, RsRvalue, RsCastKind, RsBody, RsStatement, RsUnwindAction, RsIntrinsic, RsCallee,
    RsTerminator, RsBlock, BlockId,
};
use crate::rs::{RsTyKind, RsCanonAbi, TyId};
use crate::ty::{spec_ty, spec_calling_convention, translate_calling_convention};
use crate::enums::{spec_discriminant, int_from_bits};
use crate::builder::{
    u8_ty, make_u8_ty, usize_ty, make_usize_ty, isize_ty, make_isize_ty, i32_ty, make_i32_ty, spec_unit_ptr,
    unit_ptr, spec_unit_place, unit_place, spec_abort, abort,
};
use crate::program::{Ctxt, fn_name_of};
use crate::rvalue::{
    spec_place, spec_place_ty, spec_operand, spec_operand_ty, spec_operands, spec_rvalue, operand_keys_in,
    operands_keys_in, rvalue_keys_in, builtin_deref, mk_bin, mk_un, lemma_place_local,
};
use crate::function::FnCtxt;
use crate::copy::{copy_value, copy_place};

verus! {

/// What a MIR statement becomes: a MiniRust statement, or an intrinsic call,
/// which ends the current block.
pub enum StatementResult {
    Statement(Statement),
    Intrinsic { intrinsic: IntrinsicOp, destination: PlaceExpr, arguments: List<ValueExpr> },
}

/// What a MIR terminator becomes: statements for the end of the current
/// block, and the block's terminator.
pub struct TerminatorResult {
    pub stmts: Vec<Statement>,
    pub terminator: Terminator,
}

/// The vtable slot of the drop function (rustc's `COMMON_VTABLE_ENTRIES_DROPINPLACE`).
pub const DROP_IN_PLACE_ENTRY: u32 = 0;

// ---------------------------------------------------------------------------
// Small pieces
// ---------------------------------------------------------------------------

/// The blocks, each present.
pub open spec fn somes(s: Seq<BasicBlock>) -> Seq<Option<BasicBlock>> {
    Seq::new(s.len(), |i: int| Some(s[i]))
}

/// `new` is `old` with the blocks `added` under the next free names and the
/// locals `locals` under the next free local names; nothing else changed.
pub open spec fn grows_by(old: FnCtxt, new: FnCtxt, added: Seq<BasicBlock>, locals: Seq<Type>) -> bool {
    &&& new.body == old.body
    &&& new.cx == old.cx
    &&& new.bb_name_map == old.bb_name_map
    &&& new.next_bb == old.next_bb + added.len()
    &&& new.blocks@ == old.blocks@ + somes(added)
    &&& new.locals@ == old.locals@ + locals
}


pub open spec fn cons<T>(x: T, l: List<T>) -> List<T> {
    List::Cons(Box::new(x), Box::new(l))
}

/// The name of MIR block `b`, if it has one (cleanup blocks have none).
pub open spec fn bb_of(bbs: Seq<Option<BbName>>, b: BlockId) -> Option<BbName> {
    if b < bbs.len() {
        bbs[b as int]
    } else {
        None
    }
}

/// The name of the block after a call, where there is one.
pub open spec fn next_of(bbs: Seq<Option<BbName>>, target: Option<BlockId>) -> Option<Option<BbName>> {
    match target {
        Some(t) => match bb_of(bbs, t) {
            Some(b) => Some(Some(b)),
            None => None,
        },
        None => Some(None),
    }
}

/// A jump to the block after a call, which must exist.
pub open spec fn goto_target(bbs: Seq<Option<BbName>>, target: Option<BlockId>) -> Option<Terminator> {
    match target {
        Some(t) => match bb_of(bbs, t) {
            Some(b) => Some(Terminator::Goto(b)),
            None => None,
        },
        None => None,
    }
}

/// The kind of the blocks a MIR block becomes.
pub open spec fn block_kind(is_cleanup: bool) -> BbKind {
    if is_cleanup {
        BbKind::Cleanup
    } else {
        BbKind::Regular
    }
}

/// The kind of a block that unwinding out of a block continues in: cleanup,
/// or, when unwinding out of cleanup code, termination.
pub open spec fn unwind_kind(is_cleanup: bool) -> BbKind {
    if is_cleanup {
        BbKind::Terminate
    } else {
        BbKind::Cleanup
    }
}

pub open spec fn empty_block(terminator: Terminator, kind: BbKind) -> BasicBlock {
    BasicBlock { statements: List::Nil, terminator, kind }
}

pub open spec fn load_local(l: LocalName) -> ValueExpr {
    ValueExpr::Load { source: Box::new(PlaceExpr::Local(l)) }
}

/// A terminator that adds no statements, blocks or locals.
pub open spec fn plain(t: Terminator) -> (Seq<Statement>, Terminator, Seq<BasicBlock>, Seq<Type>) {
    (Seq::empty(), t, Seq::empty(), Seq::empty())
}

/// An assignment followed by a jump to the call's target.
pub open spec fn assign_then(
    bbs: Seq<Option<BbName>>,
    target: Option<BlockId>,
    destination: PlaceExpr,
    source: ValueExpr,
) -> Option<(Seq<Statement>, Terminator, Seq<BasicBlock>, Seq<Type>)> {
    match goto_target(bbs, target) {
        Some(t) => Some((seq![Statement::Assign { destination, source }], t, Seq::empty(), Seq::empty())),
        None => None,
    }
}

/// The integer that `bits` encodes in integer type `it`.
pub open spec fn int_bits(bits: int, it: IntType) -> Int {
    int_of(wrap_to_bits(bits, it.signed, (8 * it.size.bytes) as nat))
}

// ---------------------------------------------------------------------------
// Statements
// ---------------------------------------------------------------------------

/// What a MIR statement becomes, or `None` where it is not supported.
#[verifier::opaque]
pub open spec fn spec_stmt(body: RsBody, cx: Ctxt, s: RsStatement) -> Option<StatementResult> {
    let tys = cx.tcx.tys@;
    match s {
        RsStatement::Assign { place, rvalue } => match spec_place(body, tys, place) {
            None => None,
            // Exposing casts are not deterministic, so they are intrinsics.
            Some(destination) => match rvalue {
                RsRvalue::Cast { kind: RsCastKind::ExposeProvenance, operand, .. } => match spec_operand(body, cx, operand) {
                    Some(v) => Some(StatementResult::Intrinsic {
                        intrinsic: IntrinsicOp::PointerExposeProvenance,
                        destination,
                        arguments: cons(v, List::Nil),
                    }),
                    None => None,
                },
                RsRvalue::Cast { kind: RsCastKind::WithExposedProvenance, operand, .. } => match spec_operand(body, cx, operand) {
                    Some(v) => Some(StatementResult::Intrinsic {
                        intrinsic: IntrinsicOp::PointerWithExposedProvenance,
                        destination,
                        arguments: cons(v, List::Nil),
                    }),
                    None => None,
                },
                _ => match spec_rvalue(body, cx, rvalue) {
                    Some(source) => Some(StatementResult::Statement(Statement::Assign { destination, source })),
                    None => None,
                },
            },
        },
        RsStatement::StorageLive(l) => if l < body.local_tys@.len() {
            Some(StatementResult::Statement(Statement::StorageLive(LocalName(l as u32))))
        } else {
            None
        },
        RsStatement::StorageDead(l) => if l < body.local_tys@.len() {
            Some(StatementResult::Statement(Statement::StorageDead(LocalName(l as u32))))
        } else {
            None
        },
        RsStatement::Retag { fn_entry, place } => match spec_place(body, tys, place) {
            Some(p) => Some(StatementResult::Statement(Statement::Validate { place: p, fn_entry })),
            None => None,
        },
        RsStatement::Deinit(place) => match spec_place(body, tys, place) {
            Some(p) => Some(StatementResult::Statement(Statement::Deinit { place: p })),
            None => None,
        },
        RsStatement::SetDiscriminant { place, variant } => match spec_place(body, tys, place) {
            Some(p) => match spec_discriminant(tys, spec_place_ty(body, place), variant as int) {
                Some(d) => Some(StatementResult::Statement(Statement::SetDiscriminant { destination: p, value: d })),
                None => None,
            },
            None => None,
        },
        // `assume` returns nothing, so its result goes to a dummy place.
        RsStatement::Assume(op) => match spec_operand(body, cx, op) {
            Some(v) => Some(StatementResult::Intrinsic {
                intrinsic: IntrinsicOp::Assume,
                destination: spec_unit_place(),
                arguments: cons(v, List::Nil),
            }),
            None => None,
        },
        RsStatement::PlaceMention(place) => match spec_place(body, tys, place) {
            Some(p) => Some(StatementResult::Statement(Statement::PlaceMention(p))),
            None => None,
        },
        RsStatement::Unsupported => None,
    }
}

/// Every allocation and function a statement refers to has a name.
pub open spec fn stmt_keys_in(cx: Ctxt, s: RsStatement) -> bool {
    match s {
        RsStatement::Assign { rvalue, .. } => rvalue_keys_in(cx, rvalue),
        RsStatement::Assume(op) => operand_keys_in(cx, op),
        _ => true,
    }
}

// ---------------------------------------------------------------------------
// Unwinding and panics
// ---------------------------------------------------------------------------

/// The block that unwinding continues in, with the new block made for it
/// (named `n`) where there is one.
pub open spec fn spec_unwind_action(
    bbs: Seq<Option<BbName>>,
    n: int,
    is_cleanup: bool,
    unwind: RsUnwindAction,
) -> Option<(BbName, Seq<BasicBlock>)> {
    match unwind {
        // Only calls in regular blocks continue unwinding.
        RsUnwindAction::Continue => if is_cleanup {
            None
        } else {
            Some((BbName(n as u32), seq![empty_block(Terminator::ResumeUnwind, BbKind::Cleanup)]))
        },
        RsUnwindAction::Unreachable => Some((BbName(n as u32), seq![empty_block(Terminator::Unreachable, unwind_kind(is_cleanup))])),
        RsUnwindAction::Terminate => Some((BbName(n as u32), seq![empty_block(spec_abort(), unwind_kind(is_cleanup))])),
        RsUnwindAction::Cleanup(b) => match bb_of(bbs, b) {
            Some(name) => Some((name, Seq::empty())),
            None => None,
        },
    }
}

/// What a panic becomes: unwinding with a dummy payload, or an abort,
/// following the session's panic strategy.
pub open spec fn spec_panic(
    cx: Ctxt,
    bbs: Seq<Option<BbName>>,
    n: int,
    is_cleanup: bool,
    unwind: RsUnwindAction,
) -> Option<(Terminator, Seq<BasicBlock>)> {
    if cx.session.panic_unwind {
        match spec_unwind_action(bbs, n, is_cleanup, unwind) {
            Some((name, blocks)) => Some((Terminator::StartUnwind { unwind_payload: spec_unit_ptr(), unwind_block: name }, blocks)),
            None => None,
        }
    } else {
        Some((spec_abort(), Seq::empty()))
    }
}

// ---------------------------------------------------------------------------
// catch_unwind
// ---------------------------------------------------------------------------

/// An assignment of an `i32` constant through the pointer in local `ptr`.
pub open spec fn store_i32(ptr: LocalName, v: int) -> Statement {
    Statement::Assign {
        destination: PlaceExpr::Deref { operand: Box::new(load_local(ptr)), ty: Type::Int(i32_ty()) },
        source: ValueExpr::Constant(Constant::Int(int_of(v)), Type::Int(i32_ty())),
    }
}

/// The five blocks (named `n..n+5`) and five locals (named `m..m+5`) of
/// `destination = catch_unwind(try_fn, data, catch_fn)`, and the jump into
/// them. The try block calls `try_fn(data)` and stores 0 on return; if it
/// unwinds, the payload is fetched, 1 is stored, `catch_fn(data, payload)` is
/// called and unwinding stops; both ways lead to `target`.
pub open spec fn spec_catch_unwind(
    n: int,
    m: int,
    try_fn: ValueExpr,
    data: ValueExpr,
    catch_fn: ValueExpr,
    destination: PlaceExpr,
    target: BbName,
) -> (Terminator, Seq<BasicBlock>, Seq<Type>) {
    let try_bb = BbName(n as u32);
    let return_bb = BbName((n + 1) as u32);
    let get_payload_bb = BbName((n + 2) as u32);
    let catch_bb = BbName((n + 3) as u32);
    let stop_unwind_bb = BbName((n + 4) as u32);
    let ret_tmp = LocalName(m as u32);
    let try_fn_tmp = LocalName((m + 1) as u32);
    let data_tmp = LocalName((m + 2) as u32);
    let catch_fn_tmp = LocalName((m + 3) as u32);
    let payload_tmp = LocalName((m + 4) as u32);
    let thin = Type::Ptr(PtrType::Raw { meta_kind: PointerMetaKind::Thin });
    let fn_ptr = Type::Ptr(PtrType::FnPtr);
    let dead = cons(
        Statement::StorageDead(ret_tmp),
        cons(Statement::StorageDead(try_fn_tmp), cons(Statement::StorageDead(data_tmp), cons(Statement::StorageDead(catch_fn_tmp), List::Nil))),
    );
    let try_block = BasicBlock {
        statements: cons(Statement::StorageLive(ret_tmp), cons(Statement::StorageLive(try_fn_tmp), cons(Statement::StorageLive(data_tmp), cons(
            Statement::StorageLive(catch_fn_tmp),
            cons(
                Statement::Assign {
                    destination: PlaceExpr::Local(ret_tmp),
                    source: ValueExpr::AddrOf { target: Box::new(destination), ptr_ty: PtrType::Raw { meta_kind: PointerMetaKind::Thin } },
                },
                cons(
                    Statement::Assign { destination: PlaceExpr::Local(try_fn_tmp), source: try_fn },
                    cons(
                        Statement::Assign { destination: PlaceExpr::Local(data_tmp), source: data },
                        cons(Statement::Assign { destination: PlaceExpr::Local(catch_fn_tmp), source: catch_fn }, List::Nil),
                    ),
                ),
            ),
        )))),
        terminator: Terminator::Call {
            callee: load_local(try_fn_tmp),
            calling_convention: CallingConvention::Rust,
            arguments: cons(ArgumentExpr::ByValue(load_local(data_tmp)), List::Nil),
            ret: spec_unit_place(),
            next_block: Some(return_bb),
            unwind_block: Some(get_payload_bb),
        },
        kind: BbKind::Regular,
    };
    let return_block = BasicBlock {
        statements: cons(store_i32(ret_tmp, 0), dead),
        terminator: Terminator::Goto(target),
        kind: BbKind::Regular,
    };
    let get_payload_block = BasicBlock {
        statements: cons(Statement::StorageLive(payload_tmp), List::Nil),
        terminator: Terminator::Intrinsic {
            intrinsic: IntrinsicOp::GetUnwindPayload,
            arguments: List::Nil,
            ret: PlaceExpr::Local(payload_tmp),
            next_block: Some(catch_bb),
        },
        kind: BbKind::Catch,
    };
    let catch_block = BasicBlock {
        statements: cons(store_i32(ret_tmp, 1), List::Nil),
        terminator: Terminator::Call {
            callee: load_local(catch_fn_tmp),
            calling_convention: CallingConvention::Rust,
            arguments: cons(ArgumentExpr::ByValue(load_local(data_tmp)), cons(ArgumentExpr::ByValue(load_local(payload_tmp)), List::Nil)),
            ret: spec_unit_place(),
            next_block: Some(stop_unwind_bb),
            unwind_block: None,
        },
        kind: BbKind::Catch,
    };
    let stop_unwind_block = BasicBlock { statements: dead, terminator: Terminator::StopUnwind(target), kind: BbKind::Catch };
    (
        Terminator::Goto(try_bb),
        seq![try_block, return_block, get_payload_block, catch_block, stop_unwind_block],
        seq![thin, fn_ptr, thin, fn_ptr, thin],
    )
}

// ---------------------------------------------------------------------------
// Rust intrinsics
// ---------------------------------------------------------------------------

/// The size of the pointee of the pointer type `ty`, where it is sized.
pub open spec fn pointee_size(cx: Ctxt, ty: int) -> Option<int> {
    let tys = cx.tcx.tys@;
    match builtin_deref(tys, ty) {
        Some(p) => if p < tys.len() && tys[p as int].layout.sized {
            Some(tys[p as int].layout.size as int)
        } else {
            None
        },
        None => None,
    }
}

/// What a call of a Rust intrinsic becomes (blocks from `n`, locals from `m`).
pub open spec fn spec_rs_intrinsic(
    body: RsBody,
    cx: Ctxt,
    bbs: Seq<Option<BbName>>,
    n: int,
    m: int,
    ri: RsIntrinsic,
    args: Seq<RsOperand>,
    dest: RsPlace,
    target: Option<BlockId>,
) -> Option<(Seq<Statement>, Terminator, Seq<BasicBlock>, Seq<Type>)> {
    let tys = cx.tcx.tys@;
    let a0 = spec_operand(body, cx, args[0]);
    let a1 = spec_operand(body, cx, args[1]);
    let d = spec_place(body, tys, dest);
    match ri {
        // A failed validity check aborts.
        RsIntrinsic::AssertValid { should_panic } => if should_panic {
            Some(plain(spec_abort()))
        } else {
            match goto_target(bbs, target) {
                Some(t) => Some(plain(t)),
                None => None,
            }
        },
        RsIntrinsic::RawEq => match (spec_operands(body, cx, args, 0), d, next_of(bbs, target)) {
            (Some(arguments), Some(ret), Some(next_block)) => Some(plain(
                Terminator::Intrinsic { intrinsic: IntrinsicOp::RawEq, arguments, ret, next_block },
            )),
            _ => None,
        },
        // The offset counts elements; MiniRust wants bytes.
        RsIntrinsic::ArithOffset => if args.len() >= 2 {
            match (a0, a1, d, pointee_size(cx, spec_operand_ty(body, args[0])), spec_ty(tys, spec_operand_ty(body, args[1]))) {
                (Some(l), Some(r), Some(dp), Some(size), Some(rty)) => assign_then(
                    bbs,
                    target,
                    dp,
                    mk_bin(
                        BinOp::PtrOffset { inbounds: false },
                        l,
                        mk_bin(BinOp::Int(IntBinOp::MulUnchecked), r, ValueExpr::Constant(Constant::Int(int_of(size)), rty)),
                    ),
                ),
                _ => None,
            }
        } else {
            None
        },
        // The distance in bytes, divided by the size of the pointee.
        RsIntrinsic::PtrOffsetFrom { unsigned } => if args.len() >= 2 {
            match (a0, a1, d, pointee_size(cx, spec_operand_ty(body, args[0]))) {
                (Some(l), Some(r), Some(dp), Some(size)) => {
                    let offset = mk_bin(
                        BinOp::Int(IntBinOp::DivExact),
                        mk_bin(BinOp::PtrOffsetFrom { inbounds: false, nonneg: unsigned }, l, r),
                        ValueExpr::Constant(Constant::Int(int_of(size)), Type::Int(isize_ty())),
                    );
                    let offset = if unsigned {
                        mk_un(UnOp::Cast(CastOp::IntToInt(usize_ty())), offset)
                    } else {
                        offset
                    };
                    assign_then(bbs, target, dp, offset)
                },
                _ => None,
            }
        } else {
            None
        },
        RsIntrinsic::Ctpop => if args.len() >= 1 {
            match (a0, d) {
                (Some(v), Some(dp)) => assign_then(bbs, target, dp, mk_un(UnOp::Int(IntUnOp::CountOnes), v)),
                _ => None,
            }
        } else {
            None
        },
        RsIntrinsic::ExactDiv => if args.len() >= 2 {
            match (a0, a1, d) {
                (Some(l), Some(r), Some(dp)) => assign_then(bbs, target, dp, mk_bin(BinOp::Int(IntBinOp::DivExact), l, r)),
                _ => None,
            }
        } else {
            None
        },
        RsIntrinsic::SizeOfVal { ty } => if args.len() >= 1 {
            match (d, a0, spec_ty(tys, ty as int)) {
                (Some(dp), Some(p), Some(t)) => assign_then(bbs, target, dp, mk_un(UnOp::ComputeSize(t), mk_un(UnOp::GetMetadata, p))),
                _ => None,
            }
        } else {
            None
        },
        RsIntrinsic::AlignOfVal { ty } => if args.len() >= 1 {
            match (d, a0, spec_ty(tys, ty as int)) {
                (Some(dp), Some(p), Some(t)) => assign_then(bbs, target, dp, mk_un(UnOp::ComputeAlign(t), mk_un(UnOp::GetMetadata, p))),
                _ => None,
            }
        } else {
            None
        },
        // The hint is the value itself.
        RsIntrinsic::Likely => if args.len() >= 1 {
            match (d, a0) {
                (Some(dp), Some(v)) => assign_then(bbs, target, dp, v),
                _ => None,
            }
        } else {
            None
        },
        RsIntrinsic::ColdPath => match goto_target(bbs, target) {
            Some(t) => Some(plain(t)),
            None => None,
        },
        RsIntrinsic::CatchUnwind => if args.len() >= 3 {
            match (spec_operands(body, cx, args, 0), d, goto_target(bbs, target)) {
                (Some(_), Some(dp), Some(Terminator::Goto(t))) => {
                    let c = spec_catch_unwind(n, m, a0.unwrap(), a1.unwrap(), spec_operand(body, cx, args[2]).unwrap(), dp, t);
                    Some((Seq::empty(), c.0, c.1, c.2))
                },
                _ => None,
            }
        } else {
            None
        },
        RsIntrinsic::Abort => Some(plain(spec_abort())),
        RsIntrinsic::Unsupported => None,
    }
}

// ---------------------------------------------------------------------------
// Calls
// ---------------------------------------------------------------------------

/// The functions that always panic, whose calls become panics: their
/// arguments (a message) cannot be translated.
pub open spec fn is_panic_path(name: Seq<char>) -> bool {
    ||| name == "core::panicking::panic"@
    ||| name == "core::panicking::panic_fmt"@
    ||| name == "core::panicking::panic_nounwind"@
    ||| name == "core::panicking::panic_nounwind_fmt"@
    ||| name == "core::slice::index::slice_start_index_len_fail"@
    ||| name == "core::slice::index::slice_end_index_len_fail"@
    ||| name == "core::slice::index::slice_end_index_overflow_fail"@
    ||| name == "core::slice::index::slice_index_order_fail"@
    ||| name == "core::str::slice_error_fail"@
}

/// The MiniRust intrinsic that a function of the `intrinsics` crate stands for.
pub open spec fn spec_minirust_intrinsic(name: Seq<char>) -> Option<IntrinsicOp> {
    if name == "print"@ {
        Some(IntrinsicOp::PrintStdout)
    } else if name == "eprint"@ {
        Some(IntrinsicOp::PrintStderr)
    } else if name == "exit"@ {
        Some(IntrinsicOp::Exit)
    } else if name == "panic"@ {
        Some(IntrinsicOp::Abort)
    } else if name == "allocate"@ {
        Some(IntrinsicOp::Allocate)
    } else if name == "deallocate"@ {
        Some(IntrinsicOp::Deallocate)
    } else if name == "spawn"@ {
        Some(IntrinsicOp::Spawn)
    } else if name == "join"@ {
        Some(IntrinsicOp::Join)
    } else if name == "create_lock"@ {
        Some(IntrinsicOp::Lock(IntrinsicLockOp::Create))
    } else if name == "acquire"@ {
        Some(IntrinsicOp::Lock(IntrinsicLockOp::Acquire))
    } else if name == "release"@ {
        Some(IntrinsicOp::Lock(IntrinsicLockOp::Release))
    } else if name == "atomic_store"@ {
        Some(IntrinsicOp::AtomicStore)
    } else if name == "atomic_load"@ {
        Some(IntrinsicOp::AtomicLoad)
    } else if name == "compare_exchange"@ {
        Some(IntrinsicOp::AtomicCompareExchange)
    } else if name == "atomic_fetch_add"@ {
        Some(IntrinsicOp::AtomicFetchAndOp(IntBinOp::Add))
    } else if name == "atomic_fetch_sub"@ {
        Some(IntrinsicOp::AtomicFetchAndOp(IntBinOp::Sub))
    } else {
        None
    }
}

/// A call argument: a moved place is passed in place, anything else by value.
pub open spec fn spec_call_arg(body: RsBody, cx: Ctxt, op: RsOperand) -> Option<ArgumentExpr> {
    match op {
        RsOperand::Move(p) => match spec_place(body, cx.tcx.tys@, p) {
            Some(pl) => Some(ArgumentExpr::InPlace(pl)),
            None => None,
        },
        _ => match spec_operand(body, cx, op) {
            Some(v) => Some(ArgumentExpr::ByValue(v)),
            None => None,
        },
    }
}

/// The arguments `i..` of a call.
pub open spec fn spec_call_args(body: RsBody, cx: Ctxt, ops: Seq<RsOperand>, i: int) -> Option<Seq<ArgumentExpr>>
    decreases ops.len() - i,
{
    if i < 0 || i >= ops.len() {
        Some(Seq::empty())
    } else {
        match (spec_call_arg(body, cx, ops[i]), spec_call_args(body, cx, ops, i + 1)) {
            (Some(a), Some(rest)) => Some(seq![a] + rest),
            _ => None,
        }
    }
}

/// The fields of a tuple place, each passed in place.
pub open spec fn tuple_field_args(tuple: PlaceExpr, k: nat) -> Seq<ArgumentExpr> {
    Seq::new(k, |i: int| ArgumentExpr::InPlace(PlaceExpr::Field { root: Box::new(tuple), field: i as u64 }))
}

/// The arguments of a call of an instance; for the "rust-call" ABI the last
/// argument, a tuple place, is passed as its fields.
pub open spec fn spec_instance_args(body: RsBody, cx: Ctxt, ops: Seq<RsOperand>, rust_call: bool) -> Option<Seq<ArgumentExpr>> {
    let tys = cx.tcx.tys@;
    if rust_call && ops.len() > 0 {
        let tp = match ops.last() {
            RsOperand::Move(p) => Some(p),
            RsOperand::Copy(p) => Some(p),
            RsOperand::Constant(_) => None,
        };
        match tp {
            Some(tp) => {
                let tt = spec_place_ty(body, tp);
                let k: int = if 0 <= tt < tys.len() {
                    match tys[tt].kind {
                        RsTyKind::Tuple { fields } => fields@.len() as int,
                        _ => -1,
                    }
                } else {
                    -1
                };
                if tp.local < body.local_tys@.len() && k >= 0 {
                    match spec_call_args(body, cx, ops.drop_last(), 0) {
                        Some(a) => if k == 0 {
                            Some(a)
                        } else {
                            match spec_place(body, tys, tp) {
                                Some(tpe) => Some(a + tuple_field_args(tpe, k as nat)),
                                None => None,
                            }
                        },
                        None => None,
                    }
                } else {
                    None
                }
            },
            None => None,
        }
    } else {
        spec_call_args(body, cx, ops, 0)
    }
}

/// The callee of a call of an instance, with the arguments: a dynamic call
/// looks the method up in the receiver's vtable and passes the thin part of
/// the receiver.
pub open spec fn spec_callee(
    body: RsBody,
    cx: Ctxt,
    ops: Seq<RsOperand>,
    args: Seq<ArgumentExpr>,
    instance: u64,
    virtual_method: Option<u32>,
) -> Option<(ValueExpr, Seq<ArgumentExpr>)> {
    match virtual_method {
        Some(method) => if ops.len() > 0 && args.len() > 0 {
            match spec_operand(body, cx, ops[0]) {
                Some(recv) => Some((
                    mk_un(UnOp::VTableMethodLookup(TraitMethodName(method)), mk_un(UnOp::GetMetadata, recv)),
                    args.update(0, ArgumentExpr::ByValue(mk_un(UnOp::GetThinPointer, recv))),
                )),
                None => None,
            }
        } else {
            None
        },
        None => Some((
            ValueExpr::Constant(Constant::FnPointer(fn_name_of(cx.fn_names@, instance)), Type::Ptr(PtrType::FnPtr)),
            args,
        )),
    }
}

/// What a call becomes (blocks from `n`, locals from `m`).
pub open spec fn spec_call(
    body: RsBody,
    cx: Ctxt,
    bbs: Seq<Option<BbName>>,
    n: int,
    m: int,
    is_cleanup: bool,
    callee: RsCallee,
    args: Seq<RsOperand>,
    dest: RsPlace,
    target: Option<BlockId>,
    unwind: RsUnwindAction,
) -> Option<(Seq<Statement>, Terminator, Seq<BasicBlock>, Seq<Type>)> {
    let tys = cx.tcx.tys@;
    match callee {
        RsCallee::FnPtr { func, conv } => if conv == RsCanonAbi::Other {
            None
        } else {
            match (
                spec_operand(body, cx, func),
                spec_call_args(body, cx, args, 0),
                spec_unwind_action(bbs, n, is_cleanup, unwind),
                spec_place(body, tys, dest),
                next_of(bbs, target),
            ) {
                (Some(f), Some(a), Some((ub, blocks)), Some(ret), Some(next_block)) => Some((
                    Seq::empty(),
                    Terminator::Call {
                        callee: f,
                        calling_convention: spec_calling_convention(conv),
                        arguments: list_from_seq(a),
                        ret,
                        next_block,
                        unwind_block: Some(ub),
                    },
                    blocks,
                    Seq::empty(),
                )),
                _ => None,
            }
        },
        RsCallee::Intrinsic(ri) => spec_rs_intrinsic(body, cx, bbs, n, m, ri, args, dest, target),
        RsCallee::Instance { instance, crate_name, item_name, path, conv, rust_call, virtual_method } =>
            if crate_name@ == "intrinsics"@ {
                match (spec_minirust_intrinsic(item_name@), spec_operands(body, cx, args, 0), spec_place(body, tys, dest), next_of(bbs, target)) {
                    (Some(intrinsic), Some(arguments), Some(ret), Some(next_block)) => Some(plain(
                        Terminator::Intrinsic { intrinsic, arguments, ret, next_block },
                    )),
                    _ => None,
                }
            } else if is_panic_path(path@) {
                match spec_panic(cx, bbs, n, is_cleanup, unwind) {
                    Some((t, blocks)) => Some((Seq::empty(), t, blocks, Seq::empty())),
                    None => None,
                }
            } else if conv == RsCanonAbi::Other {
                None
            } else {
                match (
                    spec_instance_args(body, cx, args, rust_call),
                    spec_unwind_action(bbs, n, is_cleanup, unwind),
                    spec_place(body, tys, dest),
                    next_of(bbs, target),
                ) {
                    (Some(a), Some((ub, blocks)), Some(ret), Some(next_block)) => match spec_callee(body, cx, args, a, instance, virtual_method) {
                        Some((f, a2)) => Some((
                            Seq::empty(),
                            Terminator::Call {
                                callee: f,
                                calling_convention: spec_calling_convention(conv),
                                arguments: list_from_seq(a2),
                                ret,
                                next_block,
                                unwind_block: Some(ub),
                            },
                            blocks,
                            Seq::empty(),
                        )),
                        None => None,
                    },
                    _ => None,
                }
            },
    }
}

/// A call names its callee statically: a call of an instance that is no
/// MiniRust intrinsic, no panic function and no dynamic call.
pub open spec fn callee_is_static(callee: RsCallee) -> bool {
    match callee {
        RsCallee::Instance { crate_name, path, virtual_method, .. } =>
            !(crate_name@ == "intrinsics"@) && !is_panic_path(path@) && virtual_method is None,
        _ => false,
    }
}

// ---------------------------------------------------------------------------
// Terminators
// ---------------------------------------------------------------------------

/// The switch cases `i..` of a `SwitchInt` on values of integer type `it`.
pub open spec fn spec_switch_cases(bbs: Seq<Option<BbName>>, targets: Seq<(u128, BlockId)>, it: IntType, i: int) -> Option<List<(Int, BbName)>>
    decreases targets.len() - i,
{
    if i < 0 || i >= targets.len() {
        Some(List::Nil)
    } else {
        match (bb_of(bbs, targets[i].1), spec_switch_cases(bbs, targets, it, i + 1)) {
            (Some(b), Some(rest)) => Some(cons((int_bits(targets[i].0 as int, it), b), rest)),
            _ => None,
        }
    }
}

/// A `SwitchInt`; a boolean is switched on as a `u8`.
pub open spec fn spec_switch(
    body: RsBody,
    cx: Ctxt,
    bbs: Seq<Option<BbName>>,
    discr: RsOperand,
    targets: Seq<(u128, BlockId)>,
    otherwise: BlockId,
) -> Option<Terminator> {
    match (spec_ty(cx.tcx.tys@, spec_operand_ty(body, discr)), spec_operand(body, cx, discr)) {
        (Some(ty), Some(v)) => {
            let vi = match ty {
                Type::Bool => Some((mk_un(UnOp::Cast(CastOp::Transmute(Type::Int(u8_ty()))), v), u8_ty())),
                Type::Int(it) => Some((v, it)),
                _ => None,
            };
            match vi {
                Some((value, it)) => if 1 <= it.size.bytes <= 16 {
                    match (spec_switch_cases(bbs, targets, it, 0), bb_of(bbs, otherwise)) {
                        (Some(cases), Some(fallback)) => Some(Terminator::Switch { value, cases, fallback }),
                        _ => None,
                    }
                } else {
                    None
                },
                None => None,
            }
        },
        _ => None,
    }
}

/// Whether the place's type is a trait object.
pub open spec fn place_is_dyn(body: RsBody, cx: Ctxt, place: RsPlace) -> bool {
    let ty = spec_place_ty(body, place);
    0 <= ty < cx.tcx.tys@.len() && cx.tcx.tys@[ty].kind is Dynamic
}

/// A call of a drop function on a pointer, returning to `next`.
pub open spec fn drop_call(callee: ValueExpr, ptr: ValueExpr, next: BbName) -> Terminator {
    Terminator::Call {
        callee,
        calling_convention: CallingConvention::Rust,
        arguments: cons(ArgumentExpr::ByValue(ptr), List::Nil),
        ret: spec_unit_place(),
        next_block: Some(next),
        unwind_block: None,
    }
}

/// A `Drop`: a trait object is dropped by the drop function in its vtable,
/// called on the thin part of the pointer; any other place by its
/// `drop_in_place` instance.
pub open spec fn spec_drop(body: RsBody, cx: Ctxt, bbs: Seq<Option<BbName>>, place: RsPlace, target: BlockId, drop_fn: u64) -> Option<Terminator> {
    let tys = cx.tcx.tys@;
    match (spec_place(body, tys, place), bb_of(bbs, target)) {
        (Some(p), Some(next)) => if place_is_dyn(body, cx, place) {
            match spec_ty(tys, spec_place_ty(body, place)) {
                Some(Type::TraitObject(trait_name)) => {
                    let ptr = ValueExpr::AddrOf {
                        target: Box::new(p),
                        ptr_ty: PtrType::Raw { meta_kind: PointerMetaKind::VTablePointer(trait_name) },
                    };
                    Some(drop_call(
                        mk_un(UnOp::VTableMethodLookup(TraitMethodName(DROP_IN_PLACE_ENTRY)), mk_un(UnOp::GetMetadata, ptr)),
                        mk_un(UnOp::GetThinPointer, ptr),
                        next,
                    ))
                },
                _ => None,
            }
        } else {
            Some(drop_call(
                ValueExpr::Constant(Constant::FnPointer(fn_name_of(cx.fn_names@, drop_fn)), Type::Ptr(PtrType::FnPtr)),
                ValueExpr::AddrOf { target: Box::new(p), ptr_ty: PtrType::Raw { meta_kind: PointerMetaKind::Thin } },
                next,
            ))
        },
        _ => None,
    }
}

/// What the terminator of a block becomes: statements for the end of the
/// block, the terminator, new blocks (named from `n` on) and new locals
/// (named from `m` on).
#[verifier::opaque]
pub open spec fn spec_terminator(
    body: RsBody,
    cx: Ctxt,
    bbs: Seq<Option<BbName>>,
    n: int,
    m: int,
    blk: RsBlock,
) -> Option<(Seq<Statement>, Terminator, Seq<BasicBlock>, Seq<Type>)> {
    match blk.terminator {
        RsTerminator::Return => Some(plain(Terminator::Return)),
        RsTerminator::Goto(b) => match bb_of(bbs, b) {
            Some(name) => Some(plain(Terminator::Goto(name))),
            None => None,
        },
        RsTerminator::Call { callee, args, destination, target, unwind } =>
            spec_call(body, cx, bbs, n, m, blk.is_cleanup, callee, args@, destination, target, unwind),
        RsTerminator::SwitchInt { discr, targets, otherwise } => match spec_switch(body, cx, bbs, discr, targets@, otherwise) {
            Some(t) => Some(plain(t)),
            None => None,
        },
        RsTerminator::Unreachable => Some(plain(Terminator::Unreachable)),
        // A switch on the condition, with a block that panics as fallback.
        RsTerminator::Assert { cond, expected, target, unwind } => match (
            spec_operand(body, cx, cond),
            spec_panic(cx, bbs, n, blk.is_cleanup, unwind),
            bb_of(bbs, target),
        ) {
            (Some(c), Some((pt, blocks)), Some(next)) => {
                let c = if expected {
                    c
                } else {
                    mk_un(UnOp::BoolNot, c)
                };
                Some((
                    Seq::empty(),
                    Terminator::Switch {
                        value: mk_un(UnOp::Cast(CastOp::Transmute(Type::Int(u8_ty()))), c),
                        cases: cons((int_of(1), next), List::Nil),
                        fallback: BbName((n + blocks.len()) as u32),
                    },
                    blocks.push(empty_block(pt, block_kind(blk.is_cleanup))),
                    Seq::empty(),
                ))
            },
            _ => None,
        },
        RsTerminator::Drop { place, target, drop_fn } => match spec_drop(body, cx, bbs, place, target, drop_fn) {
            Some(t) => Some(plain(t)),
            None => None,
        },
        RsTerminator::UnwindResume => Some(plain(Terminator::ResumeUnwind)),
        RsTerminator::Unsupported => None,
    }
}

/// Every allocation and function a terminator refers to has a name.
pub open spec fn term_keys_in(body: RsBody, cx: Ctxt, t: RsTerminator) -> bool {
    match t {
        RsTerminator::Call { callee, args, .. } => {
            &&& operands_keys_in(cx, args@)
            &&& (callee matches RsCallee::FnPtr { func, .. } ==> operand_keys_in(cx, func))
            &&& (callee matches RsCallee::Instance { instance, .. } ==> (callee_is_static(callee) ==> cx.fn_names@.contains(instance)))
        },
        RsTerminator::SwitchInt { discr, .. } => operand_keys_in(cx, discr),
        RsTerminator::Assert { cond, .. } => operand_keys_in(cx, cond),
        RsTerminator::Drop { place, drop_fn, .. } => !place_is_dyn(body, cx, place) ==> cx.fn_names@.contains(drop_fn),
        _ => true,
    }
}

// ---------------------------------------------------------------------------
// Blocks
// ---------------------------------------------------------------------------

/// Splits translated statements at the intrinsic calls: the finished blocks,
/// each ending in its intrinsic and continuing in the next fresh name (from
/// `n` on), and the statements of the block still open.
pub open spec fn split_blocks(rs: Seq<StatementResult>, n: int, kind: BbKind) -> (Seq<BasicBlock>, Seq<Statement>)
    decreases rs.len(),
{
    if rs.len() == 0 {
        (Seq::empty(), Seq::empty())
    } else {
        let prev = split_blocks(rs.drop_last(), n, kind);
        match rs.last() {
            StatementResult::Statement(s) => (prev.0, prev.1.push(s)),
            StatementResult::Intrinsic { intrinsic, destination, arguments } => (
                prev.0.push(BasicBlock {
                    statements: list_from_seq(prev.1),
                    terminator: Terminator::Intrinsic {
                        intrinsic,
                        arguments,
                        ret: destination,
                        next_block: Some(BbName((n + prev.0.len()) as u32)),
                    },
                    kind,
                }),
                Seq::empty(),
            ),
        }
    }
}

/// The translated statements of a block, where all are supported.
pub open spec fn stmt_results(body: RsBody, cx: Ctxt, stmts: Seq<RsStatement>) -> Seq<StatementResult> {
    Seq::new(stmts.len(), |i: int| spec_stmt(body, cx, stmts[i]).unwrap())
}

/// What a MIR block becomes: the MiniRust block under the block's own name,
/// the blocks it adds under fresh names from `n` on, and the locals it adds.
pub open spec fn spec_bb(
    body: RsBody,
    cx: Ctxt,
    bbs: Seq<Option<BbName>>,
    n: int,
    m: int,
    blk: RsBlock,
) -> Option<(BasicBlock, Seq<BasicBlock>, Seq<Type>)> {
    if forall|i: int| 0 <= i < blk.statements@.len() ==> (#[trigger] spec_stmt(body, cx, blk.statements@[i])) is Some {
        let kind = block_kind(blk.is_cleanup);
        let split = split_blocks(stmt_results(body, cx, blk.statements@), n, kind);
        match spec_terminator(body, cx, bbs, n + split.0.len(), m, blk) {
            Some((ts, t, tblocks, tlocals)) => {
                let all = split.0.push(BasicBlock { statements: list_from_seq(split.1 + ts), terminator: t, kind });
                Some((all[0], all.drop_first() + tblocks, tlocals))
            },
            None => None,
        }
    } else {
        None
    }
}

/// Every allocation and function a block refers to has a name.
pub open spec fn block_keys_in(body: RsBody, cx: Ctxt, blk: RsBlock) -> bool {
    &&& forall|i: int| 0 <= i < blk.statements@.len() ==> stmt_keys_in(cx, #[trigger] blk.statements@[i])
    &&& term_keys_in(body, cx, blk.terminator)
}

// ---------------------------------------------------------------------------
// The executable translation
// ---------------------------------------------------------------------------

/// Whether two strings consist of the same characters.
pub fn str_eq(a: &str, b: &str) -> (r: bool)
    ensures
        r == (a@ == b@),
{
    let n = a.unicode_len();
    if n != b.unicode_len() {
        return false;
    }
    let mut i: usize = 0;
    while i < n
        invariant
            n == a@.len(),
            n == b@.len(),
            i <= n,
            forall|j: int| 0 <= j < i ==> a@[j] == b@[j],
        decreases n - i,
    {
        if a.get_char(i) != b.get_char(i) {
            return false;
        }
        i = i + 1;
    }
    assert(a@ =~= b@);
    true
}

/// Whether a function (given by its path) always panics; its calls become
/// panics, as their message argument cannot be translated.
pub fn is_panic_fn(name: &str) -> (r: bool)
    ensures
        r == is_panic_path(name@),
{
    str_eq(name, "core::panicking::panic")
        || str_eq(name, "core::panicking::panic_fmt")
        || str_eq(name, "core::panicking::panic_nounwind")
        || str_eq(name, "core::panicking::panic_nounwind_fmt")
        || str_eq(name, "core::slice::index::slice_start_index_len_fail")
        || str_eq(name, "core::slice::index::slice_end_index_len_fail")
        || str_eq(name, "core::slice::index::slice_end_index_overflow_fail")
        || str_eq(name, "core::slice::index::slice_index_order_fail")
        || str_eq(name, "core::str::slice_error_fail")
}

/// The MiniRust intrinsic that a function of the `intrinsics` crate stands for.
pub fn minirust_intrinsic(name: &str) -> (r: Option<IntrinsicOp>)
    ensures
        r == spec_minirust_intrinsic(name@),
{
    if str_eq(name, "print") {
        Some(IntrinsicOp::PrintStdout)
    } else if str_eq(name, "eprint") {
        Some(IntrinsicOp::PrintStderr)
    } else if str_eq(name, "exit") {
        Some(IntrinsicOp::Exit)
    } else if str_eq(name, "panic") {
        Some(IntrinsicOp::Abort)
    } else if str_eq(name, "allocate") {
        Some(IntrinsicOp::Allocate)
    } else if str_eq(name, "deallocate") {
        Some(IntrinsicOp::Deallocate)
    } else if str_eq(name, "spawn") {
        Some(IntrinsicOp::Spawn)
    } else if str_eq(name, "join") {
        Some(IntrinsicOp::Join)
    } else if str_eq(name, "create_lock") {
        Some(IntrinsicOp::Lock(IntrinsicLockOp::Create))
    } else if str_eq(name, "acquire") {
        Some(IntrinsicOp::Lock(IntrinsicLockOp::Acquire))
    } else if str_eq(name, "release") {
        Some(IntrinsicOp::Lock(IntrinsicLockOp::Release))
    } else if str_eq(name, "atomic_store") {
        Some(IntrinsicOp::AtomicStore)
    } else if str_eq(name, "atomic_load") {
        Some(IntrinsicOp::AtomicLoad)
    } else if str_eq(name, "compare_exchange") {
        Some(IntrinsicOp::AtomicCompareExchange)
    } else if str_eq(name, "atomic_fetch_add") {
        Some(IntrinsicOp::AtomicFetchAndOp(IntBinOp::Add))
    } else if str_eq(name, "atomic_fetch_sub") {
        Some(IntrinsicOp::AtomicFetchAndOp(IntBinOp::Sub))
    } else {
        None
    }
}

impl FnCtxt {
    /// What a MIR statement becomes.
    fn translate_stmt(&mut self, s: &RsStatement) -> (r: StatementResult)
        requires
            old(self).wf(),
            spec_stmt(old(self).body, old(self).cx, *s) is Some,
            stmt_keys_in(old(self).cx, *s),
        ensures
            *final(self) == *old(self),
            r == spec_stmt(old(self).body, old(self).cx, *s).unwrap(),
    {
        proof {
            reveal(spec_stmt);
        }
        match s {
            RsStatement::Assign { place, rvalue } => {
                let destination = self.translate_place(place);
                match rvalue {
                    RsRvalue::Cast { kind: RsCastKind::ExposeProvenance, operand, .. } => {
                        let v = self.translate_operand(operand);
                        return StatementResult::Intrinsic {
                            intrinsic: IntrinsicOp::PointerExposeProvenance,
                            destination,
                            arguments: List::Cons(Box::new(v), Box::new(List::Nil)),
                        };
                    },
                    RsRvalue::Cast { kind: RsCastKind::WithExposedProvenance, operand, .. } => {
                        let v = self.translate_operand(operand);
                        return StatementResult::Intrinsic {
                            intrinsic: IntrinsicOp::PointerWithExposedProvenance,
                            destination,
                            arguments: List::Cons(Box::new(v), Box::new(List::Nil)),
                        };
                    },
                    _ => {},
                }
                let source = self.translate_rvalue(rvalue);
                StatementResult::Statement(Statement::Assign { destination, source })
            },
            RsStatement::StorageLive(l) => StatementResult::Statement(Statement::StorageLive(LocalName(*l as u32))),
            RsStatement::StorageDead(l) => StatementResult::Statement(Statement::StorageDead(LocalName(*l as u32))),
            RsStatement::Retag { fn_entry, place } => {
                let place = self.translate_place(place);
                StatementResult::Statement(Statement::Validate { place, fn_entry: *fn_entry })
            },
            RsStatement::Deinit(place) => {
                let place = self.translate_place(place);
                StatementResult::Statement(Statement::Deinit { place })
            },
            RsStatement::SetDiscriminant { place, variant } => {
                proof {
                    lemma_place_local(self.body, self.cx.tcx.tys@, *place);
                }
                let value = self.cx.discriminant_for_variant(self.place_ty(place), *variant);
                let destination = self.translate_place(place);
                StatementResult::Statement(Statement::SetDiscriminant { destination, value })
            },
            RsStatement::Assume(op) => {
                let v = self.translate_operand(op);
                StatementResult::Intrinsic {
                    intrinsic: IntrinsicOp::Assume,
                    destination: unit_place(),
                    arguments: List::Cons(Box::new(v), Box::new(List::Nil)),
                }
            },
            RsStatement::PlaceMention(place) => StatementResult::Statement(Statement::PlaceMention(self.translate_place(place))),
            RsStatement::Unsupported => {
                proof { assert(false); }
                StatementResult::Statement(Statement::StorageLive(LocalName(0)))
            },
        }
    }
}

/// All operands from `i` on translate.
pub proof fn lemma_operands_some(body: RsBody, cx: Ctxt, ops: Seq<RsOperand>, i: int, j: int)
    requires
        0 <= i <= j < ops.len(),
        spec_operands(body, cx, ops, i) is Some,
    ensures
        spec_operand(body, cx, ops[j]) is Some,
    decreases j - i,
{
    if i < j {
        lemma_operands_some(body, cx, ops, i + 1, j);
    }
}

fn make_store_i32(ptr: LocalName, v: Int) -> (r: Statement)
    requires
        v@ == 0 || v@ == 1,
    ensures
        r == store_i32(ptr, v@),
{
    proof {
        lemma_int_of(v);
    }
    Statement::Assign {
        destination: PlaceExpr::Deref {
            operand: Box::new(ValueExpr::Load { source: Box::new(PlaceExpr::Local(ptr)) }),
            ty: Type::Int(make_i32_ty()),
        },
        source: ValueExpr::Constant(Constant::Int(v), Type::Int(make_i32_ty())),
    }
}

fn storage_dead4(a: LocalName, b: LocalName, c: LocalName, d: LocalName) -> (r: List<Statement>)
    ensures
        r == cons(Statement::StorageDead(a), cons(Statement::StorageDead(b), cons(Statement::StorageDead(c), cons(Statement::StorageDead(d), List::Nil)))),
{
    List::Cons(Box::new(Statement::StorageDead(a)), Box::new(List::Cons(Box::new(Statement::StorageDead(b)), Box::new(
        List::Cons(Box::new(Statement::StorageDead(c)), Box::new(List::Cons(Box::new(Statement::StorageDead(d)), Box::new(List::Nil)))),
    ))))
}

fn make_load_local(l: LocalName) -> (r: ValueExpr)
    ensures
        r == load_local(l),
{
    ValueExpr::Load { source: Box::new(PlaceExpr::Local(l)) }
}

impl FnCtxt {
    /// Puts a block under a fresh name.
    fn add_block(&mut self, bb: BasicBlock) -> (r: BbName)
        requires
            old(self).wf(),
            old(self).next_bb < u32::MAX,
        ensures
            final(self).wf(),
            r == BbName(old(self).next_bb),
            grows_by(*old(self), *final(self), seq![bb], Seq::empty()),
    {
        let name = self.fresh_bb_name();
        self.insert_block(name, bb);
        proof {
            assert(self.blocks@ =~= old(self).blocks@ + somes(seq![bb]));
            assert(self.locals@ =~= old(self).locals@ + Seq::<Type>::empty());
        }
        name
    }

    /// The block that unwinding out of a call continues in; a new block
    /// where MIR names none.
    fn translate_unwind_action(&mut self, unwind: RsUnwindAction, blk: &RsBlock) -> (r: BbName)
        requires
            old(self).wf(),
            old(self).next_bb + 1 < u32::MAX,
            spec_unwind_action(old(self).bb_name_map@, old(self).next_bb as int, blk.is_cleanup, unwind) is Some,
        ensures
            final(self).wf(),
            r == spec_unwind_action(old(self).bb_name_map@, old(self).next_bb as int, blk.is_cleanup, unwind).unwrap().0,
            grows_by(
                *old(self),
                *final(self),
                spec_unwind_action(old(self).bb_name_map@, old(self).next_bb as int, blk.is_cleanup, unwind).unwrap().1,
                Seq::empty(),
            ),
    {
        let kind = if blk.is_cleanup { BbKind::Terminate } else { BbKind::Cleanup };
        match unwind {
            RsUnwindAction::Continue => {
                // Only a call in a regular block continues unwinding.
                let bb = BasicBlock { statements: List::Nil, terminator: Terminator::ResumeUnwind, kind: BbKind::Cleanup };
                self.add_block(bb)
            },
            RsUnwindAction::Unreachable => {
                let bb = BasicBlock { statements: List::Nil, terminator: Terminator::Unreachable, kind };
                self.add_block(bb)
            },
            RsUnwindAction::Terminate => {
                let bb = BasicBlock { statements: List::Nil, terminator: abort(), kind };
                self.add_block(bb)
            },
            RsUnwindAction::Cleanup(b) => {
                proof {
                    assert(self.blocks@ =~= self.blocks@ + somes(Seq::empty()));
                    assert(self.locals@ =~= self.locals@ + Seq::<Type>::empty());
                }
                match self.bb_name_map[b] {
                    Some(name) => name,
                    None => {
                        proof { assert(false); }
                        BbName(0)
                    },
                }
            },
        }
    }

    /// A panic: unwinding with a dummy payload, or an abort, following the
    /// session's panic strategy.
    fn translate_panic(&mut self, unwind: RsUnwindAction, blk: &RsBlock) -> (r: Terminator)
        requires
            old(self).wf(),
            old(self).next_bb + 1 < u32::MAX,
            spec_panic(old(self).cx, old(self).bb_name_map@, old(self).next_bb as int, blk.is_cleanup, unwind) is Some,
        ensures
            final(self).wf(),
            r == spec_panic(old(self).cx, old(self).bb_name_map@, old(self).next_bb as int, blk.is_cleanup, unwind).unwrap().0,
            grows_by(
                *old(self),
                *final(self),
                spec_panic(old(self).cx, old(self).bb_name_map@, old(self).next_bb as int, blk.is_cleanup, unwind).unwrap().1,
                Seq::empty(),
            ),
    {
        if self.cx.session.panic_unwind {
            let cleanup_block = self.translate_unwind_action(unwind, blk);
            Terminator::StartUnwind { unwind_payload: unit_ptr(), unwind_block: cleanup_block }
        } else {
            proof {
                assert(self.blocks@ =~= self.blocks@ + somes(Seq::empty()));
                assert(self.locals@ =~= self.locals@ + Seq::<Type>::empty());
            }
            abort()
        }
    }

    /// `destination = catch_unwind(try_fn, data, catch_fn)`, continuing in
    /// `target`: adds the blocks and locals of [`spec_catch_unwind`] and
    /// returns the jump into them.
    fn translate_catch_unwind(
        &mut self,
        try_fn: ValueExpr,
        data: ValueExpr,
        catch_fn: ValueExpr,
        destination: PlaceExpr,
        target: BbName,
    ) -> (r: Terminator)
        requires
            old(self).wf(),
            old(self).next_bb + 5 < u32::MAX,
            old(self).locals@.len() + 5 < u32::MAX - 8,
        ensures
            final(self).wf(),
            r == spec_catch_unwind(
                old(self).next_bb as int,
                old(self).locals@.len() as int,
                try_fn,
                data,
                catch_fn,
                destination,
                target,
            ).0,
            grows_by(
                *old(self),
                *final(self),
                spec_catch_unwind(old(self).next_bb as int, old(self).locals@.len() as int, try_fn, data, catch_fn, destination, target).1,
                spec_catch_unwind(old(self).next_bb as int, old(self).locals@.len() as int, try_fn, data, catch_fn, destination, target).2,
            ),
    {
        let ghost spec = spec_catch_unwind(
            old(self).next_bb as int,
            old(self).locals@.len() as int,
            try_fn,
            data,
            catch_fn,
            destination,
            target,
        );
        // The names of the new blocks.
        let try_bb_name = self.fresh_bb_name();
        let return_bb_name = self.fresh_bb_name();
        let get_payload_bb_name = self.fresh_bb_name();
        let catch_bb_name = self.fresh_bb_name();
        let stop_unwind_bb_name = self.fresh_bb_name();

        // Temporary locals for the arguments, the pointer to `destination` and the payload.
        let ret_tmp = self.fresh_local(Type::Ptr(PtrType::Raw { meta_kind: PointerMetaKind::Thin }));
        let try_fn_tmp = self.fresh_local(Type::Ptr(PtrType::FnPtr));
        let data_tmp = self.fresh_local(Type::Ptr(PtrType::Raw { meta_kind: PointerMetaKind::Thin }));
        let catch_fn_tmp = self.fresh_local(Type::Ptr(PtrType::FnPtr));
        let unwind_payload_tmp = self.fresh_local(Type::Ptr(PtrType::Raw { meta_kind: PointerMetaKind::Thin }));

        let zero = Int::zero();
        let one = Int::one();

        let try_bb = BasicBlock {
            statements: List::Cons(Box::new(Statement::StorageLive(ret_tmp)), Box::new(List::Cons(
                Box::new(Statement::StorageLive(try_fn_tmp)),
                Box::new(List::Cons(Box::new(Statement::StorageLive(data_tmp)), Box::new(List::Cons(
                    Box::new(Statement::StorageLive(catch_fn_tmp)),
                    Box::new(List::Cons(
                        Box::new(Statement::Assign {
                            destination: PlaceExpr::Local(ret_tmp),
                            source: ValueExpr::AddrOf {
                                target: Box::new(destination),
                                ptr_ty: PtrType::Raw { meta_kind: PointerMetaKind::Thin },
                            },
                        }),
                        Box::new(List::Cons(
                            Box::new(Statement::Assign { destination: PlaceExpr::Local(try_fn_tmp), source: try_fn }),
                            Box::new(List::Cons(
                                Box::new(Statement::Assign { destination: PlaceExpr::Local(data_tmp), source: data }),
                                Box::new(List::Cons(
                                    Box::new(Statement::Assign { destination: PlaceExpr::Local(catch_fn_tmp), source: catch_fn }),
                                    Box::new(List::Nil),
                                )),
                            )),
                        )),
                    )),
                )))),
            ))),
            terminator: Terminator::Call {
                callee: make_load_local(try_fn_tmp),
                calling_convention: CallingConvention::Rust,
                arguments: List::Cons(Box::new(ArgumentExpr::ByValue(make_load_local(data_tmp))), Box::new(List::Nil)),
                ret: unit_place(),
                next_block: Some(return_bb_name),
                unwind_block: Some(get_payload_bb_name),
            },
            kind: BbKind::Regular,
        };
        let return_bb = BasicBlock {
            statements: List::Cons(
                Box::new(make_store_i32(ret_tmp, zero)),
                Box::new(storage_dead4(ret_tmp, try_fn_tmp, data_tmp, catch_fn_tmp)),
            ),
            terminator: Terminator::Goto(target),
            kind: BbKind::Regular,
        };
        let get_payload_bb = BasicBlock {
            statements: List::Cons(Box::new(Statement::StorageLive(unwind_payload_tmp)), Box::new(List::Nil)),
            terminator: Terminator::Intrinsic {
                intrinsic: IntrinsicOp::GetUnwindPayload,
                arguments: List::Nil,
                ret: PlaceExpr::Local(unwind_payload_tmp),
                next_block: Some(catch_bb_name),
            },
            kind: BbKind::Catch,
        };
        let catch_bb = BasicBlock {
            statements: List::Cons(Box::new(make_store_i32(ret_tmp, one)), Box::new(List::Nil)),
            terminator: Terminator::Call {
                callee: make_load_local(catch_fn_tmp),
                calling_convention: CallingConvention::Rust,
                arguments: List::Cons(
                    Box::new(ArgumentExpr::ByValue(make_load_local(data_tmp))),
                    Box::new(List::Cons(Box::new(ArgumentExpr::ByValue(make_load_local(unwind_payload_tmp))), Box::new(List::Nil))),
                ),
                ret: unit_place(),
                next_block: Some(stop_unwind_bb_name),
                unwind_block: None,
            },
            kind: BbKind::Catch,
        };
        let stop_unwind_bb = BasicBlock {
            statements: storage_dead4(ret_tmp, try_fn_tmp, data_tmp, catch_fn_tmp),
            terminator: Terminator::StopUnwind(target),
            kind: BbKind::Catch,
        };
        proof {
            assert(try_bb == spec.1[0]);
            assert(return_bb == spec.1[1]);
            assert(get_payload_bb == spec.1[2]);
            assert(catch_bb == spec.1[3]);
            assert(stop_unwind_bb == spec.1[4]);
        }
        self.insert_block(try_bb_name, try_bb);
        self.insert_block(return_bb_name, return_bb);
        self.insert_block(get_payload_bb_name, get_payload_bb);
        self.insert_block(catch_bb_name, catch_bb);
        self.insert_block(stop_unwind_bb_name, stop_unwind_bb);
        proof {
            assert(self.blocks@ =~= old(self).blocks@ + somes(spec.1));
            assert(self.locals@ =~= old(self).locals@ + spec.2);
        }
        Terminator::Goto(try_bb_name)
    }
}

/// Growing by nothing leaves the state as it is.
proof fn lemma_grows_by_nothing(fx: FnCtxt)
    ensures
        grows_by(fx, fx, Seq::empty(), Seq::empty()),
{
    assert(fx.blocks@ =~= fx.blocks@ + somes(Seq::empty()));
    assert(fx.locals@ =~= fx.locals@ + Seq::<Type>::empty());
}

/// Growing twice is growing by both.
proof fn lemma_grows_by_trans(
    a: FnCtxt,
    b: FnCtxt,
    c: FnCtxt,
    x: Seq<BasicBlock>,
    y: Seq<BasicBlock>,
    l1: Seq<Type>,
    l2: Seq<Type>,
)
    requires
        grows_by(a, b, x, l1),
        grows_by(b, c, y, l2),
    ensures
        grows_by(a, c, x + y, l1 + l2),
{
    assert(somes(x + y) =~= somes(x) + somes(y));
    assert(a.blocks@ + somes(x) + somes(y) =~= a.blocks@ + (somes(x) + somes(y)));
    assert(a.locals@ + l1 + l2 =~= a.locals@ + (l1 + l2));
}

impl FnCtxt {
    /// The name of MIR block `b`, which must have one.
    fn bb_name(&self, b: BlockId) -> (r: BbName)
        requires
            bb_of(self.bb_name_map@, b) is Some,
        ensures
            r == bb_of(self.bb_name_map@, b).unwrap(),
    {
        match self.bb_name_map[b] {
            Some(name) => name,
            None => {
                proof { assert(false); }
                BbName(0)
            },
        }
    }

    fn next_of(&self, target: Option<BlockId>) -> (r: Option<BbName>)
        requires
            next_of(self.bb_name_map@, target) is Some,
        ensures
            r == next_of(self.bb_name_map@, target).unwrap(),
    {
        match target {
            Some(t) => Some(self.bb_name(t)),
            None => None,
        }
    }

    fn goto_target(&self, target: Option<BlockId>) -> (r: Terminator)
        requires
            goto_target(self.bb_name_map@, target) is Some,
        ensures
            r == goto_target(self.bb_name_map@, target).unwrap(),
    {
        match target {
            Some(t) => Terminator::Goto(self.bb_name(t)),
            None => {
                proof { assert(false); }
                Terminator::Unreachable
            },
        }
    }

    /// An assignment, then a jump to the call's target.
    fn assign_then(&self, target: Option<BlockId>, destination: PlaceExpr, source: ValueExpr) -> (r: TerminatorResult)
        requires
            assign_then(self.bb_name_map@, target, destination, source) is Some,
        ensures
            r.stmts@ == assign_then(self.bb_name_map@, target, destination, source).unwrap().0,
            r.terminator == assign_then(self.bb_name_map@, target, destination, source).unwrap().1,
    {
        let terminator = self.goto_target(target);
        let stmts = vec![Statement::Assign { destination, source }];
        TerminatorResult { stmts, terminator }
    }

    /// The size of the pointee of a pointer type, which must be sized.
    fn pointee_size(&self, ty: TyId) -> (r: u64)
        requires
            pointee_size(self.cx, ty as int) is Some,
        ensures
            r == pointee_size(self.cx, ty as int).unwrap(),
    {
        let p = match &self.cx.tcx.tys[ty].kind {
            RsTyKind::Ref { pointee, .. } => *pointee,
            RsTyKind::RawPtr { pointee } => *pointee,
            RsTyKind::Box { pointee } => *pointee,
            _ => {
                proof { assert(false); }
                0
            },
        };
        self.cx.tcx.tys[p].layout.size
    }

    /// A call of a Rust intrinsic (see [`spec_rs_intrinsic`]).
    fn translate_rs_intrinsic(
        &mut self,
        ri: &RsIntrinsic,
        args: &Vec<RsOperand>,
        destination: &RsPlace,
        target: Option<BlockId>,
    ) -> (r: TerminatorResult)
        requires
            old(self).wf(),
            old(self).next_bb + 6 < u32::MAX,
            old(self).locals@.len() + 5 < u32::MAX - 8,
            spec_rs_intrinsic(
                old(self).body,
                old(self).cx,
                old(self).bb_name_map@,
                old(self).next_bb as int,
                old(self).locals@.len() as int,
                *ri,
                args@,
                *destination,
                target,
            ) is Some,
            operands_keys_in(old(self).cx, args@),
        ensures
            final(self).wf(),
            ({
                let s = spec_rs_intrinsic(
                    old(self).body,
                    old(self).cx,
                    old(self).bb_name_map@,
                    old(self).next_bb as int,
                    old(self).locals@.len() as int,
                    *ri,
                    args@,
                    *destination,
                    target,
                ).unwrap();
                &&& r.stmts@ == s.0
                &&& r.terminator == s.1
                &&& grows_by(*old(self), *final(self), s.2, s.3)
                &&& s.2.len() <= 5
                &&& s.3.len() <= 5
            }),
    {
        proof {
            lemma_grows_by_nothing(*self);
        }
        match ri {
            RsIntrinsic::AssertValid { should_panic } => {
                let terminator = if *should_panic {
                    abort()
                } else {
                    self.goto_target(target)
                };
                TerminatorResult { stmts: Vec::new(), terminator }
            },
            RsIntrinsic::RawEq => {
                let arguments = self.translate_operands(args, 0);
                let ret = self.translate_place(destination);
                let next_block = self.next_of(target);
                TerminatorResult {
                    stmts: Vec::new(),
                    terminator: Terminator::Intrinsic { intrinsic: IntrinsicOp::RawEq, arguments, ret, next_block },
                }
            },
            RsIntrinsic::ArithOffset => {
                let l = self.translate_operand(&args[0]);
                let r = self.translate_operand(&args[1]);
                let dest = self.translate_place(destination);
                let size = Int::from_u64(self.pointee_size(self.operand_ty(&args[0])));
                proof {
                    lemma_int_of(size);
                }
                let rty = self.cx.translate_ty(self.operand_ty(&args[1]));
                let size = ValueExpr::Constant(Constant::Int(size), rty);
                let offset_bytes = ValueExpr::BinOp {
                    operator: BinOp::Int(IntBinOp::MulUnchecked),
                    left: Box::new(r),
                    right: Box::new(size),
                };
                let val = ValueExpr::BinOp {
                    operator: BinOp::PtrOffset { inbounds: false },
                    left: Box::new(l),
                    right: Box::new(offset_bytes),
                };
                self.assign_then(target, dest, val)
            },
            RsIntrinsic::PtrOffsetFrom { unsigned } => {
                let l = self.translate_operand(&args[0]);
                let r = self.translate_operand(&args[1]);
                let dest = self.translate_place(destination);
                // The distance in bytes ...
                let offset_bytes = ValueExpr::BinOp {
                    operator: BinOp::PtrOffsetFrom { inbounds: false, nonneg: *unsigned },
                    left: Box::new(l),
                    right: Box::new(r),
                };
                // ... divided by the size of the pointee.
                let size = Int::from_u64(self.pointee_size(self.operand_ty(&args[0])));
                proof {
                    lemma_int_of(size);
                }
                let offset = ValueExpr::BinOp {
                    operator: BinOp::Int(IntBinOp::DivExact),
                    left: Box::new(offset_bytes),
                    right: Box::new(ValueExpr::Constant(Constant::Int(size), Type::Int(make_isize_ty()))),
                };
                let offset = if *unsigned {
                    ValueExpr::UnOp { operator: UnOp::Cast(CastOp::IntToInt(make_usize_ty())), operand: Box::new(offset) }
                } else {
                    offset
                };
                self.assign_then(target, dest, offset)
            },
            RsIntrinsic::Ctpop => {
                let v = self.translate_operand(&args[0]);
                let dest = self.translate_place(destination);
                let val = ValueExpr::UnOp { operator: UnOp::Int(IntUnOp::CountOnes), operand: Box::new(v) };
                self.assign_then(target, dest, val)
            },
            RsIntrinsic::ExactDiv => {
                let l = self.translate_operand(&args[0]);
                let r = self.translate_operand(&args[1]);
                let dest = self.translate_place(destination);
                let val = ValueExpr::BinOp { operator: BinOp::Int(IntBinOp::DivExact), left: Box::new(l), right: Box::new(r) };
                self.assign_then(target, dest, val)
            },
            RsIntrinsic::SizeOfVal { ty } => {
                let dest = self.translate_place(destination);
                let ptr = self.translate_operand(&args[0]);
                let t = self.cx.translate_ty(*ty);
                let meta = ValueExpr::UnOp { operator: UnOp::GetMetadata, operand: Box::new(ptr) };
                self.assign_then(target, dest, ValueExpr::UnOp { operator: UnOp::ComputeSize(t), operand: Box::new(meta) })
            },
            RsIntrinsic::AlignOfVal { ty } => {
                let dest = self.translate_place(destination);
                let ptr = self.translate_operand(&args[0]);
                let t = self.cx.translate_ty(*ty);
                let meta = ValueExpr::UnOp { operator: UnOp::GetMetadata, operand: Box::new(ptr) };
                self.assign_then(target, dest, ValueExpr::UnOp { operator: UnOp::ComputeAlign(t), operand: Box::new(meta) })
            },
            RsIntrinsic::Likely => {
                let dest = self.translate_place(destination);
                let v = self.translate_operand(&args[0]);
                self.assign_then(target, dest, v)
            },
            RsIntrinsic::ColdPath => TerminatorResult { stmts: Vec::new(), terminator: self.goto_target(target) },
            RsIntrinsic::CatchUnwind => {
                proof {
                    lemma_operands_some(self.body, self.cx, args@, 0, 0);
                    lemma_operands_some(self.body, self.cx, args@, 0, 1);
                    lemma_operands_some(self.body, self.cx, args@, 0, 2);
                }
                let try_fn = self.translate_operand(&args[0]);
                let data = self.translate_operand(&args[1]);
                let catch_fn = self.translate_operand(&args[2]);
                let ret_place = self.translate_place(destination);
                let t = match target {
                    Some(t) => self.bb_name(t),
                    None => {
                        proof { assert(false); }
                        BbName(0)
                    },
                };
                let terminator = self.translate_catch_unwind(try_fn, data, catch_fn, ret_place, t);
                TerminatorResult { stmts: Vec::new(), terminator }
            },
            RsIntrinsic::Abort => TerminatorResult { stmts: Vec::new(), terminator: abort() },
            RsIntrinsic::Unsupported => {
                proof { assert(false); }
                TerminatorResult { stmts: Vec::new(), terminator: abort() }
            },
        }
    }
}

impl FnCtxt {
    /// A call argument: a moved place is passed in place, anything else by value.
    fn translate_call_arg(&mut self, op: &RsOperand) -> (r: ArgumentExpr)
        requires
            old(self).wf(),
            spec_call_arg(old(self).body, old(self).cx, *op) is Some,
            operand_keys_in(old(self).cx, *op),
        ensures
            *final(self) == *old(self),
            r == spec_call_arg(old(self).body, old(self).cx, *op).unwrap(),
    {
        match op {
            RsOperand::Move(p) => ArgumentExpr::InPlace(self.translate_place(p)),
            _ => ArgumentExpr::ByValue(self.translate_operand(op)),
        }
    }

    /// The arguments `i..end` of a call.
    fn translate_call_args(&mut self, ops: &Vec<RsOperand>, i: usize, end: usize) -> (r: Vec<ArgumentExpr>)
        requires
            old(self).wf(),
            i <= end <= ops@.len(),
            spec_call_args(old(self).body, old(self).cx, ops@.subrange(0, end as int), i as int) is Some,
            operands_keys_in(old(self).cx, ops@),
        ensures
            *final(self) == *old(self),
            r@ == spec_call_args(old(self).body, old(self).cx, ops@.subrange(0, end as int), i as int).unwrap(),
    {
        let ghost o = ops@.subrange(0, end as int);
        let mut r: Vec<ArgumentExpr> = Vec::new();
        let mut j = i;
        while j < end
            invariant
                *self == *old(self),
                self.wf(),
                i <= j <= end <= ops@.len(),
                o == ops@.subrange(0, end as int),
                operands_keys_in(self.cx, ops@),
                spec_call_args(self.body, self.cx, o, j as int) is Some,
                spec_call_args(self.body, self.cx, o, i as int).unwrap()
                    == r@ + spec_call_args(self.body, self.cx, o, j as int).unwrap(),
            decreases end - j,
        {
            let a = self.translate_call_arg(&ops[j]);
            let ghost rest = spec_call_args(self.body, self.cx, o, (j + 1) as int).unwrap();
            proof {
                assert(o[j as int] == ops@[j as int]);
                assert(r@ + (seq![a] + rest) =~= r@.push(a) + rest);
            }
            r.push(a);
            j = j + 1;
        }
        proof {
            assert(r@ + Seq::<ArgumentExpr>::empty() =~= r@);
        }
        r
    }

    /// The arguments of a call of an instance (see [`spec_instance_args`]).
    fn translate_instance_args(&mut self, ops: &Vec<RsOperand>, rust_call: bool) -> (r: Vec<ArgumentExpr>)
        requires
            old(self).wf(),
            spec_instance_args(old(self).body, old(self).cx, ops@, rust_call) is Some,
            operands_keys_in(old(self).cx, ops@),
        ensures
            *final(self) == *old(self),
            r@ == spec_instance_args(old(self).body, old(self).cx, ops@, rust_call).unwrap(),
    {
        let n = ops.len();
        proof {
            assert(ops@.subrange(0, n as int) =~= ops@);
        }
        if !(rust_call && n > 0) {
            return self.translate_call_args(ops, 0, n);
        }
        // Untuple the last argument.
        let tp = match &ops[n - 1] {
            RsOperand::Move(p) => p,
            RsOperand::Copy(p) => p,
            RsOperand::Constant(_) => {
                proof { assert(false); }
                return Vec::new();
            },
        };
        let k = match &self.cx.tcx.tys[self.place_ty(tp)].kind {
            RsTyKind::Tuple { fields } => fields.len(),
            _ => {
                proof { assert(false); }
                0
            },
        };
        proof {
            assert(ops@.drop_last() =~= ops@.subrange(0, n - 1));
        }
        let mut r = self.translate_call_args(ops, 0, n - 1);
        if k == 0 {
            return r;
        }
        let tuple = self.translate_place(tp);
        let ghost a = r@;
        let mut i: usize = 0;
        while i < k
            invariant
                i <= k,
                r@ == a + tuple_field_args(tuple, i as nat),
            decreases k - i,
        {
            let root = copy_place(&tuple);
            r.push(ArgumentExpr::InPlace(PlaceExpr::Field { root: Box::new(root), field: i as u64 }));
            i = i + 1;
            proof {
                assert(a + tuple_field_args(tuple, i as nat) =~= (a + tuple_field_args(tuple, (i - 1) as nat)).push(
                    ArgumentExpr::InPlace(PlaceExpr::Field { root: Box::new(tuple), field: (i - 1) as u64 }),
                ));
            }
        }
        r
    }

    /// A call (see [`spec_call`]).
    fn translate_call(
        &mut self,
        callee: &RsCallee,
        args: &Vec<RsOperand>,
        destination: &RsPlace,
        target: Option<BlockId>,
        unwind: RsUnwindAction,
        blk: &RsBlock,
    ) -> (r: TerminatorResult)
        requires
            old(self).wf(),
            old(self).next_bb + 6 < u32::MAX,
            old(self).locals@.len() + 5 < u32::MAX - 8,
            spec_call(
                old(self).body,
                old(self).cx,
                old(self).bb_name_map@,
                old(self).next_bb as int,
                old(self).locals@.len() as int,
                blk.is_cleanup,
                *callee,
                args@,
                *destination,
                target,
                unwind,
            ) is Some,
            operands_keys_in(old(self).cx, args@),
            *callee matches RsCallee::FnPtr { func, .. } ==> operand_keys_in(old(self).cx, func),
            *callee matches RsCallee::Instance { instance, .. } ==> (callee_is_static(*callee) ==> old(self).cx.fn_names@.contains(instance)),
        ensures
            final(self).wf(),
            ({
                let s = spec_call(
                    old(self).body,
                    old(self).cx,
                    old(self).bb_name_map@,
                    old(self).next_bb as int,
                    old(self).locals@.len() as int,
                    blk.is_cleanup,
                    *callee,
                    args@,
                    *destination,
                    target,
                    unwind,
                ).unwrap();
                &&& r.stmts@ == s.0
                &&& r.terminator == s.1
                &&& grows_by(*old(self), *final(self), s.2, s.3)
                &&& s.2.len() <= 5
                &&& s.3.len() <= 5
            }),
    {
        match callee {
            RsCallee::FnPtr { func, conv } => {
                let func = self.translate_operand(func);
                let conv = translate_calling_convention(*conv);
                let n = args.len();
                proof {
                    assert(args@.subrange(0, n as int) =~= args@);
                }
                let arguments = self.translate_call_args(args, 0, n);
                let unwind_block = Some(self.translate_unwind_action(unwind, blk));
                let ret = self.translate_place(destination);
                let next_block = self.next_of(target);
                TerminatorResult {
                    stmts: Vec::new(),
                    terminator: Terminator::Call {
                        callee: func,
                        calling_convention: conv,
                        arguments: list_from_vec(arguments),
                        ret,
                        next_block,
                        unwind_block,
                    },
                }
            },
            RsCallee::Intrinsic(ri) => self.translate_rs_intrinsic(ri, args, destination, target),
            RsCallee::Instance { instance, crate_name, item_name, path, conv, rust_call, virtual_method } => {
                if str_eq(crate_name.as_str(), "intrinsics") {
                    // A direct call of a MiniRust intrinsic.
                    let intrinsic = match minirust_intrinsic(item_name.as_str()) {
                        Some(i) => i,
                        None => {
                            proof { assert(false); }
                            IntrinsicOp::Abort
                        },
                    };
                    let arguments = self.translate_operands(args, 0);
                    let ret = self.translate_place(destination);
                    let next_block = self.next_of(target);
                    proof {
                        lemma_grows_by_nothing(*self);
                    }
                    return TerminatorResult {
                        stmts: Vec::new(),
                        terminator: Terminator::Intrinsic { intrinsic, arguments, ret, next_block },
                    };
                }
                if is_panic_fn(path.as_str()) {
                    // The message argument cannot be translated; the call just panics.
                    let terminator = self.translate_panic(unwind, blk);
                    return TerminatorResult { stmts: Vec::new(), terminator };
                }
                let conv = translate_calling_convention(*conv);
                let mut arguments = self.translate_instance_args(args, *rust_call);
                let unwind_block = Some(self.translate_unwind_action(unwind, blk));
                let ghost grown = *self;
                let callee = match virtual_method {
                    Some(method) => {
                        // A dynamic call: the method comes from the receiver's
                        // vtable, and the callee gets the receiver's thin part.
                        let receiver = self.translate_operand(&args[0]);
                        let thin = ValueExpr::UnOp { operator: UnOp::GetThinPointer, operand: Box::new(copy_value(&receiver)) };
                        arguments.set(0, ArgumentExpr::ByValue(thin));
                        let meta = ValueExpr::UnOp { operator: UnOp::GetMetadata, operand: Box::new(receiver) };
                        ValueExpr::UnOp { operator: UnOp::VTableMethodLookup(TraitMethodName(*method)), operand: Box::new(meta) }
                    },
                    None => {
                        let name = self.cx.get_fn_name(*instance);
                        ValueExpr::Constant(Constant::FnPointer(name), Type::Ptr(PtrType::FnPtr))
                    },
                };
                assert(*self == grown);
                let ret = self.translate_place(destination);
                let next_block = self.next_of(target);
                TerminatorResult {
                    stmts: Vec::new(),
                    terminator: Terminator::Call {
                        callee,
                        calling_convention: conv,
                        arguments: list_from_vec(arguments),
                        ret,
                        next_block,
                        unwind_block,
                    },
                }
            },
        }
    }
}

impl FnCtxt {
    /// The switch cases `i..` of a `SwitchInt` on values of integer type `it`.
    fn switch_cases(&self, targets: &Vec<(u128, BlockId)>, it: IntType, i: usize) -> (r: List<(Int, BbName)>)
        requires
            1 <= it.size.bytes <= 16,
            spec_switch_cases(self.bb_name_map@, targets@, it, i as int) is Some,
        ensures
            r == spec_switch_cases(self.bb_name_map@, targets@, it, i as int).unwrap(),
        decreases targets@.len() - i,
    {
        if i >= targets.len() {
            return List::Nil;
        }
        let (value, target) = targets[i];
        let v = int_from_bits(value, it);
        let b = self.bb_name(target);
        let rest = self.switch_cases(targets, it, i + 1);
        List::Cons(Box::new((v, b)), Box::new(rest))
    }

    /// What the terminator of a block becomes (see [`spec_terminator`]).
    fn translate_terminator(&mut self, blk: &RsBlock) -> (r: TerminatorResult)
        requires
            old(self).wf(),
            old(self).next_bb + 6 < u32::MAX,
            old(self).locals@.len() + 5 < u32::MAX - 8,
            spec_terminator(
                old(self).body,
                old(self).cx,
                old(self).bb_name_map@,
                old(self).next_bb as int,
                old(self).locals@.len() as int,
                *blk,
            ) is Some,
            term_keys_in(old(self).body, old(self).cx, blk.terminator),
        ensures
            final(self).wf(),
            ({
                let s = spec_terminator(
                    old(self).body,
                    old(self).cx,
                    old(self).bb_name_map@,
                    old(self).next_bb as int,
                    old(self).locals@.len() as int,
                    *blk,
                ).unwrap();
                &&& r.stmts@ == s.0
                &&& r.terminator == s.1
                &&& grows_by(*old(self), *final(self), s.2, s.3)
                &&& s.2.len() <= 5
                &&& s.3.len() <= 5
            }),
    {
        proof {
            reveal(spec_terminator);
            lemma_grows_by_nothing(*self);
        }
        let terminator = match &blk.terminator {
            RsTerminator::Return => Terminator::Return,
            RsTerminator::Goto(b) => Terminator::Goto(self.bb_name(*b)),
            RsTerminator::Call { callee, args, destination, target, unwind } =>
                return self.translate_call(callee, args, destination, *target, *unwind, blk),
            RsTerminator::SwitchInt { discr, targets, otherwise } => {
                let ty = self.cx.translate_ty(self.operand_ty(discr));
                let discr_op = self.translate_operand(discr);
                // MiniRust switches on integers only; a boolean becomes a `u8`.
                let (value, it) = match ty {
                    Type::Bool => (
                        ValueExpr::UnOp {
                            operator: UnOp::Cast(CastOp::Transmute(Type::Int(make_u8_ty()))),
                            operand: Box::new(discr_op),
                        },
                        make_u8_ty(),
                    ),
                    Type::Int(it) => (discr_op, it),
                    _ => {
                        proof { assert(false); }
                        (discr_op, make_u8_ty())
                    },
                };
                let cases = self.switch_cases(targets, it, 0);
                let fallback = self.bb_name(*otherwise);
                Terminator::Switch { value, cases, fallback }
            },
            RsTerminator::Unreachable => Terminator::Unreachable,
            RsTerminator::Assert { cond, expected, target, unwind } => {
                let mut condition = self.translate_operand(cond);
                // `condition == expected` holds iff `condition` (negated if
                // `expected` is false) is true.
                if !*expected {
                    condition = ValueExpr::UnOp { operator: UnOp::BoolNot, operand: Box::new(condition) };
                }
                let ghost before = *self;
                // The block for `expected != condition`.
                let panic_terminator = self.translate_panic(*unwind, blk);
                let ghost mid = *self;
                let kind = if blk.is_cleanup { BbKind::Cleanup } else { BbKind::Regular };
                let panic_block = BasicBlock { statements: List::Nil, terminator: panic_terminator, kind };
                let panic_block_name = self.add_block(panic_block);
                proof {
                    let p = spec_panic(before.cx, before.bb_name_map@, before.next_bb as int, blk.is_cleanup, *unwind).unwrap();
                    lemma_grows_by_trans(before, mid, *self, p.1, seq![panic_block], Seq::empty(), Seq::empty());
                    assert(p.1 + seq![panic_block] =~= p.1.push(panic_block));
                    assert(Seq::<Type>::empty() + Seq::<Type>::empty() =~= Seq::<Type>::empty());
                }
                let next_block = self.bb_name(*target);
                let one = Int::one();
                proof {
                    lemma_int_of(one);
                }
                let value = ValueExpr::UnOp {
                    operator: UnOp::Cast(CastOp::Transmute(Type::Int(make_u8_ty()))),
                    operand: Box::new(condition),
                };
                return TerminatorResult {
                    stmts: Vec::new(),
                    terminator: Terminator::Switch {
                        value,
                        cases: List::Cons(Box::new((one, next_block)), Box::new(List::Nil)),
                        fallback: panic_block_name,
                    },
                };
            },
            RsTerminator::Drop { place, target, drop_fn } => {
                proof {
                    lemma_place_local(self.body, self.cx.tcx.tys@, *place);
                }
                let ty = self.place_ty(place);
                let place = self.translate_place(place);
                let is_dyn = ty < self.cx.tcx.tys.len() && match &self.cx.tcx.tys[ty].kind {
                    RsTyKind::Dynamic { .. } => true,
                    _ => false,
                };
                let (drop_fn, ptr_to_drop) = if is_dyn {
                    // A trait object's drop function comes from its vtable.
                    let trait_name = match self.cx.translate_ty(ty) {
                        Type::TraitObject(t) => t,
                        _ => {
                            proof { assert(false); }
                            return TerminatorResult { stmts: Vec::new(), terminator: Terminator::Unreachable };
                        },
                    };
                    let ptr = ValueExpr::AddrOf {
                        target: Box::new(place),
                        ptr_ty: PtrType::Raw { meta_kind: PointerMetaKind::VTablePointer(trait_name) },
                    };
                    let meta = ValueExpr::UnOp { operator: UnOp::GetMetadata, operand: Box::new(copy_value(&ptr)) };
                    let drop_fn = ValueExpr::UnOp {
                        operator: UnOp::VTableMethodLookup(TraitMethodName(DROP_IN_PLACE_ENTRY)),
                        operand: Box::new(meta),
                    };
                    // Only the thin part of the pointer goes to the drop function.
                    (drop_fn, ValueExpr::UnOp { operator: UnOp::GetThinPointer, operand: Box::new(ptr) })
                } else {
                    let name = self.cx.get_fn_name(*drop_fn);
                    let ptr = ValueExpr::AddrOf {
                        target: Box::new(place),
                        ptr_ty: PtrType::Raw { meta_kind: PointerMetaKind::Thin },
                    };
                    (ValueExpr::Constant(Constant::FnPointer(name), Type::Ptr(PtrType::FnPtr)), ptr)
                };
                Terminator::Call {
                    callee: drop_fn,
                    calling_convention: CallingConvention::Rust,
                    arguments: List::Cons(Box::new(ArgumentExpr::ByValue(ptr_to_drop)), Box::new(List::Nil)),
                    ret: unit_place(),
                    next_block: Some(self.bb_name(*target)),
                    unwind_block: None,
                }
            },
            RsTerminator::UnwindResume => Terminator::ResumeUnwind,
            RsTerminator::Unsupported => {
                proof { assert(false); }
                Terminator::Unreachable
            },
        };
        TerminatorResult { stmts: Vec::new(), terminator }
    }
}

/// `k` empty slots.
pub open spec fn nones(k: nat) -> Seq<Option<BasicBlock>> {
    Seq::new(k, |i: int| None)
}

impl FnCtxt {
    /// Puts the first of `all` under `name` and the others under the names
    /// `n`, `n + 1`, ...; all these slots are empty.
    fn place_blocks(&mut self, name: BbName, n: u32, all: Vec<BasicBlock>)
        requires
            all@.len() >= 1,
            name.0 < n,
            n + all@.len() - 1 <= old(self).blocks@.len(),
            n + all@.len() <= u32::MAX,
            old(self).blocks@[name.0 as int] is None,
            forall|x: int| n <= x < n + all@.len() - 1 ==> old(self).blocks@[x] is None,
        ensures
            final(self).blocks@ == Seq::new(
                old(self).blocks@.len(),
                |x: int| if x == name.0 {
                    Some(all@[0])
                } else if n <= x < n + all@.len() - 1 {
                    Some(all@[x - n + 1])
                } else {
                    old(self).blocks@[x]
                },
            ),
            final(self).body == old(self).body,
            final(self).cx == old(self).cx,
            final(self).bb_name_map == old(self).bb_name_map,
            final(self).next_bb == old(self).next_bb,
            final(self).locals == old(self).locals,
    {
        let ghost orig = all@;
        let ghost len = orig.len() as int;
        let ghost old_blocks = self.blocks@;
        let mut all = all;
        let mut j: usize = 0;
        while all.len() > 0
            invariant
                len == orig.len(),
                0 <= j <= len,
                n + len <= u32::MAX,
                all@ == orig.subrange(j as int, len),
                name.0 < n,
                n + len - 1 <= old_blocks.len(),
                old_blocks[name.0 as int] is None,
                forall|x: int| n <= x < n + len - 1 ==> old_blocks[x] is None,
                self.blocks@ == Seq::new(
                    old_blocks.len(),
                    |x: int| if x == name.0 && j > 0 {
                        Some(orig[0])
                    } else if n <= x < n + j - 1 {
                        Some(orig[x - n + 1])
                    } else {
                        old_blocks[x]
                    },
                ),
                self.body == old(self).body,
                self.cx == old(self).cx,
                self.bb_name_map == old(self).bb_name_map,
                self.next_bb == old(self).next_bb,
                self.locals == old(self).locals,
                old_blocks == old(self).blocks@,
            decreases all@.len(),
        {
            let ghost rem = all@;
            let b = all.remove(0);
            proof {
                assert(rem.len() > 0);
                assert(j < len);
                assert(b == orig[j as int]);
                assert(all@ =~= orig.subrange(j + 1, len));
            }
            let target = if j == 0 {
                name
            } else {
                BbName(n + (j - 1) as u32)
            };
            self.insert_block(target, b);
            j = j + 1;
            proof {
                assert(self.blocks@ =~= Seq::new(
                    old_blocks.len(),
                    |x: int| if x == name.0 && j > 0 {
                        Some(orig[0])
                    } else if n <= x < n + j - 1 {
                        Some(orig[x - n + 1])
                    } else {
                        old_blocks[x]
                    },
                ));
            }
        }
    }

    /// Translates a MIR block and puts it under `name`; intrinsic calls split
    /// it into several blocks, and its terminator may add more. See [`spec_bb`].
    pub fn translate_bb(&mut self, name: BbName, blk: &RsBlock)
        requires
            old(self).wf(),
            name.0 < old(self).blocks@.len(),
            old(self).blocks@[name.0 as int] is None,
            old(self).next_bb + blk.statements@.len() + 7 < u32::MAX,
            old(self).locals@.len() + 5 < u32::MAX - 8,
            spec_bb(
                old(self).body,
                old(self).cx,
                old(self).bb_name_map@,
                old(self).next_bb as int,
                old(self).locals@.len() as int,
                *blk,
            ) is Some,
            block_keys_in(old(self).body, old(self).cx, *blk),
        ensures
            final(self).wf(),
            ({
                let s = spec_bb(
                    old(self).body,
                    old(self).cx,
                    old(self).bb_name_map@,
                    old(self).next_bb as int,
                    old(self).locals@.len() as int,
                    *blk,
                ).unwrap();
                &&& final(self).blocks@ == old(self).blocks@.update(name.0 as int, Some(s.0)) + somes(s.1)
                &&& final(self).next_bb == old(self).next_bb + s.1.len()
                &&& final(self).locals@ == old(self).locals@ + s.2
                &&& s.1.len() <= blk.statements@.len() + 5
                &&& s.2.len() <= 5
            }),
            final(self).body == old(self).body,
            final(self).cx == old(self).cx,
            final(self).bb_name_map == old(self).bb_name_map,
    {
        let ghost body = self.body;
        let ghost cx = self.cx;
        let first_fresh = self.next_bb;
        let ghost n = self.next_bb as int;
        let ghost stmts = blk.statements@;
        let ghost results = stmt_results(body, cx, stmts);
        let kind = if blk.is_cleanup { BbKind::Cleanup } else { BbKind::Regular };
        let mut done: Vec<BasicBlock> = Vec::new();
        let mut open: Vec<Statement> = Vec::new();
        let mut i: usize = 0;
        proof {
            assert(results.take(0) =~= Seq::<StatementResult>::empty());
            assert(self.blocks@ =~= old(self).blocks@ + nones(0));
        }
        while i < blk.statements.len()
            invariant
                self.wf(),
                self.body == body,
                self.cx == cx,
                body == old(self).body,
                cx == old(self).cx,
                self.bb_name_map == old(self).bb_name_map,
                self.locals == old(self).locals,
                stmts == blk.statements@,
                results == stmt_results(body, cx, stmts),
                kind == block_kind(blk.is_cleanup),
                i <= stmts.len(),
                n == old(self).next_bb,
                n + stmts.len() + 7 < u32::MAX,
                forall|j: int| 0 <= j < stmts.len() ==> (#[trigger] spec_stmt(body, cx, stmts[j])) is Some,
                forall|j: int| 0 <= j < stmts.len() ==> stmt_keys_in(cx, #[trigger] stmts[j]),
                done@ == split_blocks(results.take(i as int), n, kind).0,
                open@ == split_blocks(results.take(i as int), n, kind).1,
                done@.len() <= i,
                self.next_bb == n + done@.len(),
                self.blocks@ == old(self).blocks@ + nones(done@.len()),
            decreases stmts.len() - i,
        {
            proof {
                assert(results.take(i + 1).drop_last() =~= results.take(i as int));
                assert(results.take(i + 1).last() == results[i as int]);
            }
            match self.translate_stmt(&blk.statements[i]) {
                StatementResult::Statement(st) => {
                    open.push(st);
                },
                StatementResult::Intrinsic { intrinsic, destination, arguments } => {
                    // The intrinsic ends the block; the next one gets a fresh name.
                    let next_bb = self.fresh_bb_name();
                    let stmts_so_far = open;
                    open = Vec::new();
                    let terminator = Terminator::Intrinsic { intrinsic, arguments, ret: destination, next_block: Some(next_bb) };
                    done.push(BasicBlock { statements: list_from_vec(stmts_so_far), terminator, kind });
                    proof {
                        assert(self.blocks@ =~= old(self).blocks@ + nones(done@.len()));
                    }
                },
            }
            i = i + 1;
        }
        proof {
            assert(results.take(stmts.len() as int) =~= results);
        }
        let ghost k = done@.len();
        let tr = self.translate_terminator(blk);
        let mut tstmts = tr.stmts;
        open.append(&mut tstmts);
        done.push(BasicBlock { statements: list_from_vec(open), terminator: tr.terminator, kind });
        let ghost all = done@;
        let ghost s = spec_bb(old(self).body, old(self).cx, old(self).bb_name_map@, n, old(self).locals@.len() as int, *blk).unwrap();
        let ghost tblocks = spec_terminator(
            body,
            cx,
            old(self).bb_name_map@,
            n + k,
            old(self).locals@.len() as int,
            *blk,
        ).unwrap().2;
        proof {
            assert(all[0] == s.0);
            assert(s.1 =~= all.drop_first() + tblocks);
        }
        self.place_blocks(name, first_fresh, done);
        proof {
            assert(self.blocks@ =~= old(self).blocks@.update(name.0 as int, Some(s.0)) + somes(s.1));
        }
    }
}

/// The boolean that `e` evaluates to when the value `c` evaluates to `b`,
/// where `e` is built from `c` and boolean constants by negation.
pub open spec fn bool_value(e: ValueExpr, c: ValueExpr, b: bool) -> Option<bool>
    decreases e,
{
    if e == c {
        Some(b)
    } else {
        match e {
            ValueExpr::UnOp { operator: UnOp::BoolNot, operand } => match bool_value(*operand, c, b) {
                Some(x) => Some(!x),
                None => None,
            },
            ValueExpr::Constant(Constant::Bool(x), _) => Some(x),
            _ => None,
        }
    }
}

/// An `Assert` becomes a switch on the condition's byte that continues in
/// the assert's target exactly when the condition has the expected value,
/// and otherwise in the last of the blocks it adds, which panics.
pub proof fn law_assert_continues_when_expected(body: RsBody, cx: Ctxt, bbs: Seq<Option<BbName>>, n: int, m: int, blk: RsBlock)
    requires
        blk.terminator is Assert,
        spec_terminator(body, cx, bbs, n, m, blk) is Some,
    ensures
        ({
            let x = spec_terminator(body, cx, bbs, n, m, blk).unwrap();
            let c = spec_operand(body, cx, blk.terminator->Assert_cond).unwrap();
            &&& x.2.len() >= 1
            &&& x.1 matches Terminator::Switch { value: ValueExpr::UnOp { operator: UnOp::Cast(CastOp::Transmute(Type::Int(it))), operand }, cases, fallback } && {
                &&& it == u8_ty()
                &&& forall|b: bool| #[trigger] bool_value(*operand, c, b) == Some(b == blk.terminator->Assert_expected)
                &&& cases == cons((int_of(1), bb_of(bbs, blk.terminator->Assert_target).unwrap()), List::Nil)
                &&& fallback == BbName((n + x.2.len() - 1) as u32)
                &&& x.2.last().terminator == spec_panic(cx, bbs, n, blk.is_cleanup, blk.terminator->Assert_unwind).unwrap().0
            }
        }),
{
    reveal(spec_terminator);
    let c = spec_operand(body, cx, blk.terminator->Assert_cond).unwrap();
    assert(ValueExpr::UnOp { operator: UnOp::BoolNot, operand: Box::new(c) } != c);
    assert forall|b: bool| #[trigger] bool_value(ValueExpr::UnOp { operator: UnOp::BoolNot, operand: Box::new(c) }, c, b) == Some(!b) by {
        assert(bool_value(c, c, b) == Some(b));
    }
}

/// `Return`, `Unreachable` and `UnwindResume` keep their meaning; a `Goto`
/// jumps to the block that the MIR block is named, and fails only where
/// that block has no name.
pub proof fn law_plain_terminators(body: RsBody, cx: Ctxt, bbs: Seq<Option<BbName>>, n: int, m: int, blk: RsBlock)
    ensures
        blk.terminator is Return ==> spec_terminator(body, cx, bbs, n, m, blk) == Some(plain(Terminator::Return)),
        blk.terminator is Unreachable ==> spec_terminator(body, cx, bbs, n, m, blk) == Some(plain(Terminator::Unreachable)),
        blk.terminator is UnwindResume ==> spec_terminator(body, cx, bbs, n, m, blk) == Some(plain(Terminator::ResumeUnwind)),
        blk.terminator is Unsupported ==> spec_terminator(body, cx, bbs, n, m, blk) is None,
        blk.terminator matches RsTerminator::Goto(b) ==> spec_terminator(body, cx, bbs, n, m, blk) == (if b < bbs.len()
            && bbs[b as int] is Some {
            Some(plain(Terminator::Goto(bbs[b as int].unwrap())))
        } else {
            None
        }),
{
    reveal(spec_terminator);
}

/// Where unwinding out of a call or panic goes: to the named cleanup
/// block, or to one new block (named `n`) that resumes unwinding (only from
/// regular code), is unreachable, or aborts.
pub proof fn law_unwind_actions(bbs: Seq<Option<BbName>>, n: int, is_cleanup: bool, unwind: RsUnwindAction)
    requires
        0 <= n < u32::MAX,
    ensures
        unwind matches RsUnwindAction::Cleanup(b) ==> spec_unwind_action(bbs, n, is_cleanup, unwind) == (if b < bbs.len()
            && bbs[b as int] is Some {
            Some((bbs[b as int].unwrap(), Seq::<BasicBlock>::empty()))
        } else {
            None
        }),
        unwind is Continue ==> (is_cleanup <==> spec_unwind_action(bbs, n, is_cleanup, unwind) is None),
        !(unwind is Cleanup) && spec_unwind_action(bbs, n, is_cleanup, unwind) is Some ==> ({
            let (name, blocks) = spec_unwind_action(bbs, n, is_cleanup, unwind).unwrap();
            &&& name == BbName(n as u32)
            &&& blocks.len() == 1
            &&& blocks[0].statements == List::<Statement>::Nil
            &&& unwind is Continue ==> blocks[0].terminator == Terminator::ResumeUnwind
            &&& unwind is Unreachable ==> blocks[0].terminator == Terminator::Unreachable
            &&& unwind is Terminate ==> blocks[0].terminator == spec_abort()
        }),
{
}

/// The case values of a switch, read as integers of type `it`, with the
/// blocks the MIR targets are named.
proof fn lemma_switch_cases_meaning(bbs: Seq<Option<BbName>>, targets: Seq<(u128, BlockId)>, it: IntType, i: int)
    requires
        0 <= i <= targets.len(),
        1 <= it.size.bytes <= 16,
    ensures
        spec_switch_cases(bbs, targets, it, i) matches Some(l) ==> {
            &&& l.to_seq().len() == targets.len() - i
            &&& forall|k: int| 0 <= k < l.to_seq().len() ==> {
                let (v, b) = #[trigger] l.to_seq()[k];
                let bits = (8 * it.size.bytes) as nat;
                &&& Some(b) == bb_of(bbs, targets[i + k].1)
                &&& crate::num::type_min(it.signed, bits) <= v@ < crate::num::type_end(it.signed, bits)
                &&& (v@ - targets[i + k].0) % (pow2(bits) as int) == 0
            }
        },
    decreases targets.len() - i,
{
    if i < targets.len() {
        lemma_switch_cases_meaning(bbs, targets, it, i + 1);
        let bits = (8 * it.size.bytes) as nat;
        let w = wrap_to_bits(targets[i].0 as int, it.signed, bits);
        crate::num::law_wrap_to_bits(targets[i].0 as int, it.signed, bits);
        crate::num::lemma_wrap_bounds(targets[i].0 as int, it.signed, bits);
        crate::num::lemma_int_of_view(w);
        if let Some(l) = spec_switch_cases(bbs, targets, it, i) {
            let rest = spec_switch_cases(bbs, targets, it, i + 1).unwrap();
            assert(l.to_seq() == seq![(int_bits(targets[i].0 as int, it), bb_of(bbs, targets[i].1).unwrap())] + rest.to_seq());
            assert forall|k: int| 0 <= k < l.to_seq().len() implies {
                let (v, b) = #[trigger] l.to_seq()[k];
                &&& Some(b) == bb_of(bbs, targets[i + k].1)
                &&& crate::num::type_min(it.signed, bits) <= v@ < crate::num::type_end(it.signed, bits)
                &&& (v@ - targets[i + k].0) % (pow2(bits) as int) == 0
            } by {
                if k > 0 {
                    assert(l.to_seq()[k] == rest.to_seq()[k - 1]);
                }
            }
        }
    }
}

/// A `SwitchInt` switches on the discriminant's value (a boolean on its
/// byte): each case is the MIR value read in the discriminant's integer
/// type and goes to the block the MIR target is named; the fallback goes to
/// the block the `otherwise` target is named.
pub proof fn law_switch_follows_its_targets(
    body: RsBody,
    cx: Ctxt,
    bbs: Seq<Option<BbName>>,
    discr: RsOperand,
    targets: Seq<(u128, BlockId)>,
    otherwise: BlockId,
)
    requires
        spec_switch(body, cx, bbs, discr, targets, otherwise) is Some,
    ensures
        spec_switch(body, cx, bbs, discr, targets, otherwise).unwrap() matches Terminator::Switch { value, cases, fallback } && {
            let v = spec_operand(body, cx, discr).unwrap();
            let t = spec_ty(cx.tcx.tys@, spec_operand_ty(body, discr)).unwrap();
            let it = if t is Bool { u8_ty() } else { t->Int_0 };
            let bits = (8 * it.size.bytes) as nat;
            &&& Some(fallback) == bb_of(bbs, otherwise)
            &&& t is Int ==> value == v
            &&& t is Bool ==> value == mk_un(UnOp::Cast(CastOp::Transmute(Type::Int(u8_ty()))), v)
            &&& cases.to_seq().len() == targets.len()
            &&& forall|k: int| 0 <= k < cases.to_seq().len() ==> {
                let (c, b) = #[trigger] cases.to_seq()[k];
                &&& Some(b) == bb_of(bbs, targets[k].1)
                &&& crate::num::type_min(it.signed, bits) <= c@ < crate::num::type_end(it.signed, bits)
                &&& (c@ - targets[k].0) % (pow2(bits) as int) == 0
            }
        },
{
    let t = spec_ty(cx.tcx.tys@, spec_operand_ty(body, discr)).unwrap();
    let it = if t is Bool { u8_ty() } else { t->Int_0 };
    lemma_switch_cases_meaning(bbs, targets, it, 0);
}

/// A call continues in the block its MIR target is named (and returns
/// nowhere without one), writes its result to the translated destination,
/// and unwinds where its unwind action says; a static call calls the named
/// function with one argument per MIR argument.
pub proof fn law_calls_continue_at_their_target(
    body: RsBody,
    cx: Ctxt,
    bbs: Seq<Option<BbName>>,
    n: int,
    m: int,
    is_cleanup: bool,
    callee: RsCallee,
    args: Seq<RsOperand>,
    dest: RsPlace,
    target: Option<BlockId>,
    unwind: RsUnwindAction,
)
    requires
        callee is FnPtr || callee_is_static(callee),
        spec_call(body, cx, bbs, n, m, is_cleanup, callee, args, dest, target, unwind) is Some,
    ensures
        ({
            let x = spec_call(body, cx, bbs, n, m, is_cleanup, callee, args, dest, target, unwind).unwrap();
            let (ub, ublocks) = spec_unwind_action(bbs, n, is_cleanup, unwind).unwrap();
            &&& x.1 matches Terminator::Call { callee: f, arguments, ret, next_block, unwind_block, .. } && {
                &&& Some(ret) == spec_place(body, cx.tcx.tys@, dest)
                &&& (target matches Some(t) ==> Some(next_block) == Some(bb_of(bbs, t)))
                &&& (target is None ==> next_block is None)
                &&& unwind_block == Some(ub)
                &&& (callee_is_static(callee) && !(callee->rust_call) ==> {
                    &&& f == ValueExpr::Constant(Constant::FnPointer(fn_name_of(cx.fn_names@, callee->instance)), Type::Ptr(PtrType::FnPtr))
                    &&& arguments.to_seq().len() == args.len()
                })
                &&& (callee matches RsCallee::FnPtr { func, .. } ==> Some(f) == spec_operand(body, cx, func) && arguments.to_seq().len() == args.len())
            }
            &&& x.2 == ublocks
        }),
{
    lemma_call_args_len(body, cx, args, 0);
    if let Some(a) = spec_call_args(body, cx, args, 0) {
        crate::lang::lemma_list_from_seq_to_seq(a);
    }
}

proof fn lemma_call_args_len(body: RsBody, cx: Ctxt, ops: Seq<RsOperand>, i: int)
    requires
        0 <= i <= ops.len(),
    ensures
        spec_call_args(body, cx, ops, i) matches Some(a) ==> a.len() == ops.len() - i,
    decreases ops.len() - i,
{
    if i < ops.len() {
        lemma_call_args_len(body, cx, ops, i + 1);
    }
}

/// A drop of a place that is no trait object calls the drop function on a
/// pointer to the place and continues in the block its target is named.
pub proof fn law_drop_calls_the_drop_function(
    body: RsBody,
    cx: Ctxt,
    bbs: Seq<Option<BbName>>,
    place: RsPlace,
    target: BlockId,
    drop_fn: u64,
)
    requires
        !place_is_dyn(body, cx, place),
        spec_drop(body, cx, bbs, place, target, drop_fn) is Some,
    ensures
        spec_drop(body, cx, bbs, place, target, drop_fn) == Some(drop_call(
            ValueExpr::Constant(Constant::FnPointer(fn_name_of(cx.fn_names@, drop_fn)), Type::Ptr(PtrType::FnPtr)),
            ValueExpr::AddrOf {
                target: Box::new(spec_place(body, cx.tcx.tys@, place).unwrap()),
                ptr_ty: PtrType::Raw { meta_kind: PointerMetaKind::Thin },
            },
            bb_of(bbs, target).unwrap(),
        )),
        spec_drop(body, cx, bbs, place, target, drop_fn).unwrap() matches Terminator::Call { next_block, unwind_block, .. }
            && next_block == Some(bb_of(bbs, target).unwrap()) && unwind_block is None,
{
}

/// Statements keep their meaning: storage markers name the same local, an
/// assignment assigns the rvalue's value to the place, `SetDiscriminant`
/// writes the variant's discriminant, a retag validates the place, and
/// `assume` and exposing casts are the corresponding intrinsics.
pub proof fn law_statements_keep_their_meaning(body: RsBody, cx: Ctxt, s: RsStatement)
    ensures
        s matches RsStatement::StorageLive(l) ==> spec_stmt(body, cx, s) == (if l < body.local_tys@.len() {
            Some(StatementResult::Statement(Statement::StorageLive(LocalName(l as u32))))
        } else {
            None
        }),
        s matches RsStatement::StorageDead(l) ==> spec_stmt(body, cx, s) == (if l < body.local_tys@.len() {
            Some(StatementResult::Statement(Statement::StorageDead(LocalName(l as u32))))
        } else {
            None
        }),
        s matches RsStatement::Assign { place, rvalue } ==> (!(rvalue matches RsRvalue::Cast { kind: RsCastKind::ExposeProvenance, .. })
            && !(rvalue matches RsRvalue::Cast { kind: RsCastKind::WithExposedProvenance, .. }) ==> spec_stmt(body, cx, s) == (
        match (spec_place(body, cx.tcx.tys@, place), spec_rvalue(body, cx, rvalue)) {
            (Some(d), Some(v)) => Some(StatementResult::Statement(Statement::Assign { destination: d, source: v })),
            _ => None,
        })),
        s matches RsStatement::Assign { place, rvalue: RsRvalue::Cast { kind: RsCastKind::ExposeProvenance, operand, .. } } ==> (
        spec_stmt(body, cx, s) matches Some(StatementResult::Intrinsic { intrinsic, destination, arguments })
            ==> intrinsic == IntrinsicOp::PointerExposeProvenance && Some(destination) == spec_place(body, cx.tcx.tys@, place)
            && arguments == cons(spec_operand(body, cx, operand).unwrap(), List::Nil)),
        s matches RsStatement::Assign { place, rvalue: RsRvalue::Cast { kind: RsCastKind::WithExposedProvenance, operand, .. } } ==> (
        spec_stmt(body, cx, s) matches Some(StatementResult::Intrinsic { intrinsic, destination, arguments })
            ==> intrinsic == IntrinsicOp::PointerWithExposedProvenance && Some(destination) == spec_place(body, cx.tcx.tys@, place)
            && arguments == cons(spec_operand(body, cx, operand).unwrap(), List::Nil)),
        s matches RsStatement::SetDiscriminant { place, variant } ==> (spec_stmt(body, cx, s) matches Some(
            StatementResult::Statement(Statement::SetDiscriminant { destination, value }),
        ) ==> Some(destination) == spec_place(body, cx.tcx.tys@, place) && Some(value) == spec_discriminant(
            cx.tcx.tys@,
            spec_place_ty(body, place),
            variant as int,
        )),
        s matches RsStatement::Retag { fn_entry, place } ==> spec_stmt(body, cx, s) == (match spec_place(body, cx.tcx.tys@, place) {
            Some(p) => Some(StatementResult::Statement(Statement::Validate { place: p, fn_entry })),
            None => None,
        }),
        s matches RsStatement::Assume(op) ==> spec_stmt(body, cx, s) == (match spec_operand(body, cx, op) {
            Some(v) => Some(StatementResult::Intrinsic {
                intrinsic: IntrinsicOp::Assume,
                destination: spec_unit_place(),
                arguments: cons(v, List::Nil),
            }),
            None => None,
        }),
{
    reveal(spec_stmt);
}

/// A panic unwinds (with a dummy payload) to where the unwind action says
/// when panics unwind, and aborts when they abort.
pub proof fn law_panics_follow_the_strategy(cx: Ctxt, bbs: Seq<Option<BbName>>, n: int, is_cleanup: bool, unwind: RsUnwindAction)
    ensures
        !cx.session.panic_unwind ==> spec_panic(cx, bbs, n, is_cleanup, unwind) == Some((spec_abort(), Seq::<BasicBlock>::empty())),
        cx.session.panic_unwind ==> (spec_panic(cx, bbs, n, is_cleanup, unwind) is Some <==> spec_unwind_action(
            bbs,
            n,
            is_cleanup,
            unwind,
        ) is Some),
        cx.session.panic_unwind && spec_panic(cx, bbs, n, is_cleanup, unwind) is Some ==> ({
            let (t, blocks) = spec_panic(cx, bbs, n, is_cleanup, unwind).unwrap();
            let (ub, ublocks) = spec_unwind_action(bbs, n, is_cleanup, unwind).unwrap();
            &&& t matches Terminator::StartUnwind { unwind_block, .. } && unwind_block == ub
            &&& blocks == ublocks
        }),
{
}

/// What the Rust intrinsics mean: a failed validity check aborts and a
/// passed one goes on; `abort` aborts; `cold_path` goes on; `ctpop` counts
/// ones; `exact_div` is exact division; `likely` is its argument;
/// `arith_offset` offsets the pointer by the count times the pointee's size.
pub proof fn law_rust_intrinsics_keep_their_meaning(
    body: RsBody,
    cx: Ctxt,
    bbs: Seq<Option<BbName>>,
    n: int,
    m: int,
    ri: RsIntrinsic,
    args: Seq<RsOperand>,
    dest: RsPlace,
    target: Option<BlockId>,
)
    ensures
        ({
            let r = spec_rs_intrinsic(body, cx, bbs, n, m, ri, args, dest, target);
            let a0 = spec_operand(body, cx, args[0]);
            let a1 = spec_operand(body, cx, args[1]);
            let d = spec_place(body, cx.tcx.tys@, dest);
            let go_on = goto_target(bbs, target);
            &&& ri == RsIntrinsic::AssertValid { should_panic: true } ==> r == Some(plain(spec_abort()))
            &&& ri == RsIntrinsic::AssertValid { should_panic: false } ==> r == (match go_on {
                Some(t) => Some(plain(t)),
                None => None,
            })
            &&& ri == RsIntrinsic::Abort ==> r == Some(plain(spec_abort()))
            &&& ri == RsIntrinsic::ColdPath ==> r == (match go_on {
                Some(t) => Some(plain(t)),
                None => None,
            })
            &&& r is Some && (ri == RsIntrinsic::Ctpop || ri == RsIntrinsic::ExactDiv || ri == RsIntrinsic::Likely
                || ri == RsIntrinsic::ArithOffset) ==> {
                let x = r.unwrap();
                &&& x.0.len() == 1
                &&& Some(x.1) == go_on
                &&& x.2.len() == 0
                &&& x.0[0] matches Statement::Assign { destination, source } && Some(destination) == d && {
                    &&& ri == RsIntrinsic::Ctpop ==> source == mk_un(UnOp::Int(IntUnOp::CountOnes), a0.unwrap())
                    &&& ri == RsIntrinsic::ExactDiv ==> source == mk_bin(BinOp::Int(IntBinOp::DivExact), a0.unwrap(), a1.unwrap())
                    &&& ri == RsIntrinsic::Likely ==> Some(source) == a0
                    &&& ri == RsIntrinsic::ArithOffset ==> (source matches ValueExpr::BinOp {
                        operator: BinOp::PtrOffset { inbounds: false },
                        left,
                        right,
                    } && Some(*left) == a0 && (*right matches ValueExpr::BinOp {
                        operator: BinOp::Int(IntBinOp::MulUnchecked),
                        left: count,
                        right: size,
                    } && Some(*count) == a1 && (*size matches ValueExpr::Constant(Constant::Int(sz), _) && Some(sz@) == pointee_size(
                        cx,
                        spec_operand_ty(body, args[0]),
                    ))))
                }
            }
        }),
{
    if let Some(size) = pointee_size(cx, spec_operand_ty(body, args[0])) {
        crate::num::lemma_int_of_view(size);
    }
}

/// A dynamic call looks the method up in the vtable of the receiver and
/// passes the receiver's thin pointer as the first argument.
pub proof fn law_dynamic_calls_look_up_the_method(
    body: RsBody,
    cx: Ctxt,
    ops: Seq<RsOperand>,
    args: Seq<ArgumentExpr>,
    instance: u64,
    method: u32,
)
    requires
        spec_callee(body, cx, ops, args, instance, Some(method)) is Some,
    ensures
        ({
            let (f, a) = spec_callee(body, cx, ops, args, instance, Some(method)).unwrap();
            let recv = spec_operand(body, cx, ops[0]).unwrap();
            &&& f == mk_un(UnOp::VTableMethodLookup(TraitMethodName(method)), mk_un(UnOp::GetMetadata, recv))
            &&& a.len() == args.len()
            &&& a[0] == ArgumentExpr::ByValue(mk_un(UnOp::GetThinPointer, recv))
            &&& forall|j: int| 1 <= j < a.len() ==> #[trigger] a[j] == args[j]
        }),
{
}

/// `catch_unwind(try_fn, data, catch_fn)` jumps to a block that calls the
/// try function on the data; if that returns, 0 is stored as the result and
/// control goes on to the target; if it unwinds, the payload is fetched, 1
/// is stored, the catch function is called on the data and the payload,
/// and unwinding stops at the target.
pub proof fn law_catch_unwind_runs_try_then_catch(
    n: int,
    m: int,
    try_fn: ValueExpr,
    data: ValueExpr,
    catch_fn: ValueExpr,
    destination: PlaceExpr,
    target: BbName,
)
    requires
        0 <= n,
        n + 5 < u32::MAX,
        0 <= m,
        m + 5 < u32::MAX,
    ensures
        ({
            let (t, bs, ls) = spec_catch_unwind(n, m, try_fn, data, catch_fn, destination, target);
            let ret_ptr = LocalName(m as u32);
            let data_local = LocalName((m + 2) as u32);
            let payload = LocalName((m + 4) as u32);
            &&& t == Terminator::Goto(BbName(n as u32))
            &&& bs.len() == 5
            &&& ls.len() == 5
            &&& bs[0].terminator matches Terminator::Call { callee, arguments, next_block, unwind_block, .. } && {
                &&& callee == load_local(LocalName((m + 1) as u32))
                &&& arguments == cons(ArgumentExpr::ByValue(load_local(data_local)), List::Nil)
                &&& next_block == Some(BbName((n + 1) as u32))
                &&& unwind_block == Some(BbName((n + 2) as u32))
            }
            &&& bs[1].statements matches List::Cons(s, _) && *s == store_i32(ret_ptr, 0)
            &&& bs[1].terminator == Terminator::Goto(target)
            &&& bs[2].terminator matches Terminator::Intrinsic { intrinsic: IntrinsicOp::GetUnwindPayload, ret, next_block, .. }
                && ret == PlaceExpr::Local(payload) && next_block == Some(BbName((n + 3) as u32))
            &&& bs[3].statements matches List::Cons(s, _) && *s == store_i32(ret_ptr, 1)
            &&& bs[3].terminator matches Terminator::Call { callee, arguments, next_block, unwind_block, .. } && {
                &&& callee == load_local(LocalName((m + 3) as u32))
                &&& arguments == cons(
                    ArgumentExpr::ByValue(load_local(data_local)),
                    cons(ArgumentExpr::ByValue(load_local(payload)), List::Nil),
                )
                &&& next_block == Some(BbName((n + 4) as u32))
                &&& unwind_block is None
            }
            &&& bs[4].terminator == Terminator::StopUnwind(target)
            &&& bs[0].kind == BbKind::Regular && bs[1].kind == BbKind::Regular
            &&& bs[2].kind == BbKind::Catch && bs[3].kind == BbKind::Catch && bs[4].kind == BbKind::Catch
        }),
{
}

} // verus!
