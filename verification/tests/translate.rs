use minimize::num::{Int, Signedness};
use minimize::lang::{
    List, Type, PtrType, PointerMetaKind, Constant, ValueExpr, PlaceExpr, LocalName, BbName, FnName, GlobalName,
    Statement, Terminator, IntrinsicOp, BbKind, BasicBlock, BinOp, IntBinOp, UnOp, CastOp, ArgumentExpr, Function,
    CallingConvention, TraitName, TraitMethodName, VTableName, Relocation, Size,
};
use minimize::rs::{RsTy, RsTyKind, RsLayout, RsVariants, RsCanonAbi};
use minimize::mir::{
    RsMir, RsBody, RsBlock, RsStatement, RsTerminator, RsPlace, RsOperand, RsConst, RsConstKind, RsRvalue, RsBinOp,
    RsCastKind, RsCallee, RsIntrinsic, RsUnwindAction, RsAllocation,
};
use minimize::program::{Ctxt, Session, TargetLayout, TypingEnv};
use minimize::function::{FnCtxt, has_unsupported};

fn layout(size: u64, align: u64, offsets: Vec<u64>) -> RsLayout {
    RsLayout { size, align, sized: true, uninhabited: false, field_offsets: offsets, variants: RsVariants::Single { index: 0 } }
}

fn ty(kind: RsTyKind, layout: RsLayout) -> RsTy {
    RsTy { kind, layout, freeze: true, unpin: true }
}

const UNIT: usize = 0;
const I32: usize = 1;
const BOOL: usize = 2;
const U8: usize = 3;
const PTR_U8: usize = 4;
const USIZE: usize = 5;
const FN_PTR: usize = 6;

/// 0: (), 1: i32, 2: bool, 3: u8, 4: *const u8, 5: usize, 6: fn()
fn table() -> Vec<RsTy> {
    vec![
        ty(RsTyKind::Tuple { fields: vec![] }, layout(0, 1, vec![])),
        ty(RsTyKind::Int { bytes: 4 }, layout(4, 4, vec![])),
        ty(RsTyKind::Bool, layout(1, 1, vec![])),
        ty(RsTyKind::Uint { bytes: 1 }, layout(1, 1, vec![])),
        ty(RsTyKind::RawPtr { pointee: 3 }, layout(8, 8, vec![])),
        ty(RsTyKind::Uint { bytes: 8 }, layout(8, 8, vec![])),
        ty(RsTyKind::FnPtr, layout(8, 8, vec![])),
    ]
}

fn target() -> TargetLayout {
    TargetLayout { pointer_size: 8, pointer_align: 8, little_endian: true, int_aligns: vec![1, 2, 4, 8, 16] }
}

fn cx_with(panic_unwind: bool, allocs: Vec<RsAllocation>) -> Ctxt {
    let session = Session { panic_unwind, ub_checks: true, ordering_ty: 0 };
    let mut cx = Ctxt::new(table(), allocs, session, &target());
    // The entry function is named first.
    assert_eq!(cx.name_entry(0), FnName(0));
    cx
}

fn cx() -> Ctxt {
    cx_with(true, Vec::new())
}

fn place(local: usize) -> RsPlace {
    RsPlace { local, projection: Vec::new() }
}

fn cint(ty: usize, bits: u128) -> RsOperand {
    RsOperand::Constant(RsConst { ty, kind: RsConstKind::Scalar { bits } })
}

fn cbool(b: bool) -> RsOperand {
    RsOperand::Constant(RsConst { ty: BOOL, kind: RsConstKind::Bool(b) })
}

fn block(statements: Vec<RsStatement>, terminator: RsTerminator) -> RsBlock {
    RsBlock { statements, terminator, is_cleanup: false }
}

fn body(local_tys: Vec<usize>, arg_count: usize) -> RsBody {
    let always_live = (0..local_tys.len()).collect();
    RsBody { local_tys, arg_count, always_live, conv: RsCanonAbi::Rust }
}

fn translate(cx: Ctxt, blocks: Vec<RsBlock>, local_tys: Vec<usize>, arg_count: usize) -> (Function, Ctxt) {
    let mir = RsMir { blocks, body: body(local_tys, arg_count) };
    FnCtxt::new(mir, cx).translate()
}

fn list<T>(l: &List<T>) -> Vec<&T> {
    let mut out = Vec::new();
    let mut cur = l;
    while let List::Cons(x, rest) = cur {
        out.push(&**x);
        cur = rest;
    }
    out
}

fn blk(f: &Function, i: usize) -> &BasicBlock {
    f.blocks[i].as_ref().unwrap()
}

fn is_int_const(v: &ValueExpr, n: i128) -> bool {
    matches!(v, ValueExpr::Constant(Constant::Int(i), Type::Int(_)) if *i == Int::from_i128(n))
}

fn is_local(p: &PlaceExpr, l: u32) -> bool {
    matches!(p, PlaceExpr::Local(LocalName(x)) if *x == l)
}

fn is_load_of(v: &ValueExpr, l: u32) -> bool {
    matches!(v, ValueExpr::Load { source } if is_local(source, l))
}

fn ret() -> RsTerminator {
    RsTerminator::Return
}

fn call_instance(instance: u64, crate_name: &str, item: &str, path: &str) -> RsCallee {
    RsCallee::Instance {
        instance,
        crate_name: crate_name.to_string(),
        item_name: item.to_string(),
        path: path.to_string(),
        conv: RsCanonAbi::Rust,
        rust_call: false,
        virtual_method: None,
    }
}

#[test]
fn a_function_with_an_addition() {
    let stmts = vec![
        RsStatement::StorageLive(1),
        RsStatement::Assign {
            place: place(1),
            rvalue: RsRvalue::BinaryOp { op: RsBinOp::Add, left: cint(I32, 1), right: cint(I32, 2) },
        },
        RsStatement::StorageDead(1),
    ];
    let (f, cx) = translate(cx(), vec![block(stmts, ret())], vec![UNIT, I32], 0);
    // Block 0 is the MIR block, block 1 the entry block.
    assert_eq!(f.start, BbName(1));
    assert_eq!(f.blocks.len(), 2);
    assert_eq!(f.locals.len(), 2);
    assert!(matches!(f.args, List::Nil));
    assert_eq!(f.ret, LocalName(0));
    assert_eq!(f.calling_convention, CallingConvention::Rust);
    let entry = blk(&f, 1);
    let s = list(&entry.statements);
    assert_eq!(s.len(), 1);
    assert!(matches!(s[0], Statement::StorageLive(LocalName(1))));
    assert!(matches!(entry.terminator, Terminator::Goto(BbName(0))));
    let b0 = blk(&f, 0);
    assert_eq!(b0.kind, BbKind::Regular);
    let s = list(&b0.statements);
    assert_eq!(s.len(), 3);
    assert!(matches!(s[0], Statement::StorageLive(LocalName(1))));
    match s[1] {
        Statement::Assign { destination, source: ValueExpr::BinOp { operator: BinOp::Int(IntBinOp::Add), left, right } } => {
            assert!(is_local(destination, 1));
            assert!(is_int_const(left, 1));
            assert!(is_int_const(right, 2));
        },
        _ => panic!(),
    }
    assert!(matches!(s[2], Statement::StorageDead(LocalName(1))));
    assert!(matches!(b0.terminator, Terminator::Return));
    assert_eq!(cx.fn_names, vec![0]);
}

#[test]
fn arguments_are_live_without_storage_statements() {
    let (f, _) = translate(cx(), vec![block(vec![], ret())], vec![UNIT, I32, BOOL, U8], 2);
    let args: Vec<u32> = list(&f.args).iter().map(|l| l.0).collect();
    assert_eq!(args, vec![1, 2]);
    let entry = blk(&f, 1);
    let s = list(&entry.statements);
    assert_eq!(s.len(), 1);
    assert!(matches!(s[0], Statement::StorageLive(LocalName(3))));
}

#[test]
fn an_intrinsic_statement_ends_the_block() {
    let stmts = vec![RsStatement::Assume(cbool(true)), RsStatement::StorageDead(1)];
    let (f, _) = translate(cx(), vec![block(stmts, ret())], vec![UNIT, I32], 0);
    // 0: the MIR block up to the intrinsic, 1: entry, 2: the rest of the MIR block.
    assert_eq!(f.blocks.len(), 3);
    let b0 = blk(&f, 0);
    assert!(matches!(b0.statements, List::Nil));
    match &b0.terminator {
        Terminator::Intrinsic { intrinsic: IntrinsicOp::Assume, arguments, next_block, .. } => {
            assert_eq!(*next_block, Some(BbName(2)));
            let a = list(arguments);
            assert!(matches!(a[0], ValueExpr::Constant(Constant::Bool(true), Type::Bool)));
        },
        _ => panic!(),
    }
    let b2 = blk(&f, 2);
    assert!(matches!(list(&b2.statements)[..], [Statement::StorageDead(LocalName(1))]));
    assert!(matches!(b2.terminator, Terminator::Return));
}

#[test]
fn exposing_a_pointer_is_an_intrinsic() {
    let stmts = vec![RsStatement::Assign {
        place: place(1),
        rvalue: RsRvalue::Cast { kind: RsCastKind::ExposeProvenance, operand: RsOperand::Copy(place(2)), ty: USIZE },
    }];
    let (f, _) = translate(cx(), vec![block(stmts, ret())], vec![UNIT, USIZE, PTR_U8], 0);
    match &blk(&f, 0).terminator {
        Terminator::Intrinsic { intrinsic: IntrinsicOp::PointerExposeProvenance, arguments, ret, next_block } => {
            assert!(is_local(ret, 1));
            assert!(is_load_of(list(arguments)[0], 2));
            assert_eq!(*next_block, Some(BbName(2)));
        },
        _ => panic!(),
    }
}

#[test]
fn a_failed_assert_aborts_without_unwinding() {
    let b0 = block(vec![], RsTerminator::Assert { cond: cbool(true), expected: false, target: 1, unwind: RsUnwindAction::Continue });
    let (f, _) = translate(cx_with(false, Vec::new()), vec![b0, block(vec![], ret())], vec![UNIT], 0);
    // 0, 1: MIR blocks, 2: entry, 3: the panic block.
    assert_eq!(f.blocks.len(), 4);
    match &blk(&f, 0).terminator {
        Terminator::Switch { value, cases, fallback } => {
            assert_eq!(*fallback, BbName(3));
            let c = list(cases);
            assert_eq!(c.len(), 1);
            assert_eq!(c[0].0, Int::one());
            assert_eq!(c[0].1, BbName(1));
            // `expected` is false, so the condition is negated, then read as a `u8`.
            match value {
                ValueExpr::UnOp { operator: UnOp::Cast(CastOp::Transmute(Type::Int(it))), operand } => {
                    assert_eq!(it.size.bytes, 1);
                    assert!(matches!(**operand, ValueExpr::UnOp { operator: UnOp::BoolNot, .. }));
                },
                _ => panic!(),
            }
        },
        _ => panic!(),
    }
    let panic_block = blk(&f, 3);
    assert!(matches!(panic_block.terminator, Terminator::Intrinsic { intrinsic: IntrinsicOp::Abort, next_block: None, .. }));
    assert_eq!(panic_block.kind, BbKind::Regular);
}

#[test]
fn a_panic_function_call_starts_unwinding() {
    let b0 = block(vec![], RsTerminator::Call {
        callee: call_instance(5, "core", "panic", "core::panicking::panic"),
        args: vec![],
        destination: place(0),
        target: None,
        unwind: RsUnwindAction::Continue,
    });
    let (f, cx) = translate(cx(), vec![b0], vec![UNIT], 0);
    // 0: the MIR block, 1: entry, 2: the cleanup block that resumes unwinding.
    assert_eq!(f.blocks.len(), 3);
    assert!(matches!(blk(&f, 0).terminator, Terminator::StartUnwind { unwind_block: BbName(2), .. }));
    let cleanup = blk(&f, 2);
    assert!(matches!(cleanup.terminator, Terminator::ResumeUnwind));
    assert_eq!(cleanup.kind, BbKind::Cleanup);
    // The panic function gets no name.
    assert_eq!(cx.fn_names, vec![0]);
}

#[test]
fn a_static_call_names_its_callee() {
    let b0 = block(vec![], RsTerminator::Call {
        callee: call_instance(77, "mycrate", "f", "mycrate::f"),
        args: vec![RsOperand::Move(place(1)), cint(I32, 3)],
        destination: place(0),
        target: Some(1),
        unwind: RsUnwindAction::Unreachable,
    });
    let (f, cx) = translate(cx(), vec![b0, block(vec![], ret())], vec![UNIT, I32], 0);
    assert_eq!(cx.fn_names, vec![0, 77]);
    match &blk(&f, 0).terminator {
        Terminator::Call { callee, calling_convention, arguments, ret, next_block, unwind_block } => {
            assert!(matches!(callee, ValueExpr::Constant(Constant::FnPointer(FnName(1)), _)));
            assert_eq!(*calling_convention, CallingConvention::Rust);
            let a = list(arguments);
            assert!(matches!(a[0], ArgumentExpr::InPlace(p) if is_local(p, 1)));
            assert!(matches!(a[1], ArgumentExpr::ByValue(v) if is_int_const(v, 3)));
            assert!(is_local(ret, 0));
            assert_eq!(*next_block, Some(BbName(1)));
            assert_eq!(*unwind_block, Some(BbName(3)));
        },
        _ => panic!(),
    }
    let unwind = blk(&f, 3);
    assert!(matches!(unwind.terminator, Terminator::Unreachable));
    assert_eq!(unwind.kind, BbKind::Cleanup);
    assert_eq!(cx.next_untranslated(), Some((FnName(0), 0)));
}

#[test]
fn a_call_into_the_intrinsics_crate_is_an_intrinsic() {
    let b0 = block(vec![], RsTerminator::Call {
        callee: call_instance(9, "intrinsics", "print", "intrinsics::print"),
        args: vec![cint(I32, 5)],
        destination: place(0),
        target: Some(1),
        unwind: RsUnwindAction::Continue,
    });
    let (f, cx) = translate(cx(), vec![b0, block(vec![], ret())], vec![UNIT], 0);
    match &blk(&f, 0).terminator {
        Terminator::Intrinsic { intrinsic: IntrinsicOp::PrintStdout, arguments, next_block, .. } => {
            assert!(is_int_const(list(arguments)[0], 5));
            assert_eq!(*next_block, Some(BbName(1)));
        },
        _ => panic!(),
    }
    assert_eq!(f.blocks.len(), 3);
    assert_eq!(cx.fn_names, vec![0]);
}

#[test]
fn catch_unwind_becomes_five_blocks() {
    let b0 = block(vec![], RsTerminator::Call {
        callee: RsCallee::Intrinsic(RsIntrinsic::CatchUnwind),
        args: vec![RsOperand::Copy(place(1)), RsOperand::Copy(place(2)), RsOperand::Copy(place(3))],
        destination: place(4),
        target: Some(1),
        unwind: RsUnwindAction::Continue,
    });
    let (f, _) = translate(cx(), vec![b0, block(vec![], ret())], vec![UNIT, FN_PTR, PTR_U8, FN_PTR, I32], 0);
    // 0, 1: MIR blocks, 2: entry, 3..8: try, return, get payload, catch, stop unwinding.
    assert_eq!(f.blocks.len(), 8);
    assert_eq!(f.locals.len(), 10);
    assert!(matches!(blk(&f, 0).terminator, Terminator::Goto(BbName(3))));
    match &blk(&f, 3).terminator {
        Terminator::Call { callee, next_block, unwind_block, .. } => {
            assert!(is_load_of(callee, 6));
            assert_eq!(*next_block, Some(BbName(4)));
            assert_eq!(*unwind_block, Some(BbName(5)));
        },
        _ => panic!(),
    }
    assert_eq!(list(&blk(&f, 3).statements).len(), 8);
    assert!(matches!(blk(&f, 4).terminator, Terminator::Goto(BbName(1))));
    assert!(matches!(blk(&f, 5).terminator, Terminator::Intrinsic { intrinsic: IntrinsicOp::GetUnwindPayload, next_block: Some(BbName(6)), .. }));
    assert_eq!(blk(&f, 5).kind, BbKind::Catch);
    assert!(matches!(blk(&f, 6).terminator, Terminator::Call { next_block: Some(BbName(7)), unwind_block: None, .. }));
    assert!(matches!(blk(&f, 7).terminator, Terminator::StopUnwind(BbName(1))));
    // The pointer to the return place, the two functions, the data and the payload.
    assert!(matches!(f.locals[5], Type::Ptr(PtrType::Raw { meta_kind: PointerMetaKind::Thin })));
    assert!(matches!(f.locals[6], Type::Ptr(PtrType::FnPtr)));
}

#[test]
fn a_switch_on_a_boolean_reads_it_as_u8() {
    let b0 = block(vec![], RsTerminator::SwitchInt { discr: RsOperand::Copy(place(1)), targets: vec![(0, 1)], otherwise: 2 });
    let (f, _) = translate(cx(), vec![b0, block(vec![], ret()), block(vec![], ret())], vec![UNIT, BOOL], 0);
    match &blk(&f, 0).terminator {
        Terminator::Switch { value, cases, fallback } => {
            assert!(matches!(value, ValueExpr::UnOp { operator: UnOp::Cast(CastOp::Transmute(Type::Int(_))), .. }));
            let c = list(cases);
            assert_eq!(c.len(), 1);
            assert_eq!(c[0].0, Int::zero());
            assert_eq!(c[0].1, BbName(1));
            assert_eq!(*fallback, BbName(2));
        },
        _ => panic!(),
    }
}

#[test]
fn a_drop_calls_the_drop_function() {
    let b0 = block(vec![], RsTerminator::Drop { place: place(1), target: 1, drop_fn: 99 });
    let (f, cx) = translate(cx(), vec![b0, block(vec![], ret())], vec![UNIT, I32], 0);
    assert_eq!(cx.fn_names, vec![0, 99]);
    match &blk(&f, 0).terminator {
        Terminator::Call { callee, arguments, next_block, unwind_block, .. } => {
            assert!(matches!(callee, ValueExpr::Constant(Constant::FnPointer(FnName(1)), _)));
            let a = list(arguments);
            assert!(matches!(a[0], ArgumentExpr::ByValue(ValueExpr::AddrOf { ptr_ty: PtrType::Raw { meta_kind: PointerMetaKind::Thin }, .. })));
            assert_eq!(*next_block, Some(BbName(1)));
            assert_eq!(*unwind_block, None);
        },
        _ => panic!(),
    }
}

#[test]
fn cleanup_blocks_are_not_translated() {
    let mut cleanup = block(vec![], RsTerminator::UnwindResume);
    cleanup.is_cleanup = true;
    let b0 = block(vec![], RsTerminator::Goto(2));
    let (f, _) = translate(cx(), vec![b0, cleanup, block(vec![], ret())], vec![UNIT], 0);
    // MIR blocks 0 and 2 are named 0 and 1; the entry block is 2.
    assert_eq!(f.blocks.len(), 3);
    assert!(matches!(blk(&f, 0).terminator, Terminator::Goto(BbName(1))));
    assert!(matches!(blk(&f, 1).terminator, Terminator::Return));
    assert_eq!(f.start, BbName(2));
}

#[test]
fn a_pointer_offset_is_scaled_to_bytes() {
    let stmts = vec![RsStatement::Assign {
        place: place(1),
        rvalue: RsRvalue::BinaryOp { op: RsBinOp::Offset, left: RsOperand::Copy(place(2)), right: cint(USIZE, 3) },
    }];
    let (f, _) = translate(cx(), vec![block(stmts, ret())], vec![UNIT, PTR_U8, PTR_U8], 0);
    match list(&blk(&f, 0).statements)[0] {
        Statement::Assign { source: ValueExpr::BinOp { operator: BinOp::PtrOffset { inbounds: true }, left, right }, .. } => {
            assert!(is_load_of(left, 2));
            match &**right {
                ValueExpr::BinOp { operator: BinOp::Int(IntBinOp::MulUnchecked), left, right } => {
                    assert!(is_int_const(left, 3));
                    // The size of a `u8`.
                    assert!(is_int_const(right, 1));
                },
                _ => panic!(),
            }
        },
        _ => panic!(),
    }
}

#[test]
fn reifying_a_function_names_it() {
    let stmts = vec![RsStatement::Assign {
        place: place(1),
        rvalue: RsRvalue::Cast {
            kind: RsCastKind::ReifyFnPointer { instance: 55 },
            operand: RsOperand::Constant(RsConst { ty: UNIT, kind: RsConstKind::Fields(vec![]) }),
            ty: FN_PTR,
        },
    }];
    let (f, cx) = translate(cx(), vec![block(stmts, ret())], vec![UNIT, FN_PTR], 0);
    assert_eq!(cx.fn_names, vec![0, 55]);
    assert!(matches!(
        list(&blk(&f, 0).statements)[0],
        Statement::Assign { source: ValueExpr::Constant(Constant::FnPointer(FnName(1)), Type::Ptr(PtrType::FnPtr)), .. }
    ));
}

#[test]
fn a_pointer_constant_makes_a_global() {
    let alloc = RsAllocation { bytes: vec![7, 8], init: vec![true, false], ptrs: vec![], align: 2 };
    let c = RsOperand::Constant(RsConst { ty: PTR_U8, kind: RsConstKind::Ptr { alloc: Some(0), offset: 1 } });
    let stmts = vec![RsStatement::Assign { place: place(1), rvalue: RsRvalue::Use(c) }];
    let (f, cx) = translate(cx_with(true, vec![alloc]), vec![block(stmts, ret())], vec![UNIT, PTR_U8], 0);
    assert_eq!(cx.alloc_names, vec![0]);
    assert_eq!(cx.globals.len(), 1);
    assert_eq!(cx.globals[0].bytes, vec![Some(7), None]);
    assert_eq!(cx.globals[0].align.bytes, 2);
    match list(&blk(&f, 0).statements)[0] {
        Statement::Assign { source: ValueExpr::Constant(Constant::GlobalPointer(r), _), .. } => {
            assert_eq!(*r, Relocation { name: GlobalName(0), offset: Size { bytes: 1 } });
        },
        _ => panic!(),
    }
}

#[test]
fn the_program_starts_in_a_new_function() {
    let (f, mut cx) = translate(cx(), vec![block(vec![], ret())], vec![UNIT], 0);
    assert_eq!(cx.next_untranslated(), Some((FnName(0), 0)));
    cx.add_function(f);
    assert_eq!(cx.next_untranslated(), None);
    assert_eq!(cx.typing_env(), TypingEnv::FullyMonomorphized);
    let p = cx.translate();
    assert_eq!(p.start, FnName(1));
    assert_eq!(p.functions.len(), 2);
    let start = p.functions[1].as_ref().unwrap();
    assert_eq!(start.calling_convention, CallingConvention::C);
    assert_eq!(start.blocks.len(), 3);
    match &start.blocks[0].as_ref().unwrap().terminator {
        Terminator::Call { callee, next_block, unwind_block, .. } => {
            assert!(matches!(callee, ValueExpr::Constant(Constant::FnPointer(FnName(0)), _)));
            assert_eq!(*next_block, Some(BbName(1)));
            assert_eq!(*unwind_block, Some(BbName(2)));
        },
        _ => panic!(),
    }
    assert!(matches!(start.blocks[1].as_ref().unwrap().terminator, Terminator::Intrinsic { intrinsic: IntrinsicOp::Exit, .. }));
    assert_eq!(start.blocks[2].as_ref().unwrap().kind, BbKind::Catch);
}

#[test]
fn vtables_are_made_once_per_type_and_trait() {
    let mut cx = cx();
    let entries = vec![None, None, None, Some(42)];
    let v = cx.get_vtable(I32, TraitName(3), &entries);
    assert_eq!(v, VTableName(0));
    assert_eq!(cx.fn_names, vec![0, 42]);
    assert_eq!(cx.vtables.len(), 1);
    assert_eq!(cx.vtables[0].size.bytes, 4);
    let methods: Vec<(TraitMethodName, FnName)> = list(&cx.vtables[0].methods).into_iter().copied().collect();
    assert_eq!(methods, vec![(TraitMethodName(3), FnName(1))]);
    assert_eq!(cx.get_vtable(I32, TraitName(3), &entries), VTableName(0));
    assert_eq!(cx.vtables.len(), 1);
    assert_eq!(cx.get_vtable(I32, TraitName(4), &vec![]), VTableName(1));
    assert_eq!(cx.get_fn_name(42), FnName(1));
    assert_eq!(cx.get_fn_name_smir(43), FnName(2));
}

#[test]
fn integer_casts_from_bool_go_through_u8() {
    let stmts = vec![RsStatement::Assign {
        place: place(1),
        rvalue: RsRvalue::Cast { kind: RsCastKind::IntToInt, operand: RsOperand::Copy(place(2)), ty: I32 },
    }];
    let (f, _) = translate(cx(), vec![block(stmts, ret())], vec![UNIT, I32, BOOL], 0);
    match list(&blk(&f, 0).statements)[0] {
        Statement::Assign { source: ValueExpr::UnOp { operator: UnOp::Cast(CastOp::IntToInt(it)), operand }, .. } => {
            assert_eq!((it.signed, it.size.bytes), (Signedness::Signed, 4));
            assert!(matches!(**operand, ValueExpr::UnOp { operator: UnOp::Cast(CastOp::Transmute(Type::Int(_))), .. }));
        },
        _ => panic!(),
    }
}

#[test]
fn a_new_context_names_nothing_and_names_are_given_during_translation() {
    let session = Session { panic_unwind: true, ub_checks: true, ordering_ty: 0 };
    let fresh = Ctxt::new(table(), Vec::new(), session, &target());
    assert!(fresh.fn_names.is_empty());
    assert!(fresh.functions.is_empty());
    assert!(fresh.alloc_names.is_empty());
    let b0 = block(vec![], RsTerminator::Call {
        callee: call_instance(77, "mycrate", "f", "mycrate::f"),
        args: vec![],
        destination: place(0),
        target: Some(1),
        unwind: RsUnwindAction::Unreachable,
    });
    let mir = RsMir { blocks: vec![b0, block(vec![], ret())], body: body(vec![UNIT], 0) };
    let fx = FnCtxt::new(mir, cx());
    // Starting a translation names nothing yet.
    assert_eq!(fx.cx.fn_names, vec![0]);
    let (_, after) = fx.translate();
    // Only the callee is named, after the names there were.
    assert_eq!(after.fn_names, vec![0, 77]);
}

/// The blocks a terminator can continue in.
fn targets(t: &Terminator) -> Vec<u32> {
    match t {
        Terminator::Goto(b) => vec![b.0],
        Terminator::Switch { cases, fallback, .. } => {
            let mut v: Vec<u32> = list(cases).into_iter().map(|c| c.1 .0).collect();
            v.push(fallback.0);
            v
        },
        Terminator::Intrinsic { next_block, .. } => next_block.iter().map(|b| b.0).collect(),
        Terminator::Call { next_block, unwind_block, .. } => next_block.iter().chain(unwind_block.iter()).map(|b| b.0).collect(),
        Terminator::StartUnwind { unwind_block, .. } => vec![unwind_block.0],
        Terminator::StopUnwind(b) => vec![b.0],
        _ => vec![],
    }
}

fn value_fn_refs(v: &ValueExpr, out: &mut Vec<u32>) {
    match v {
        ValueExpr::Constant(Constant::FnPointer(f), _) => out.push(f.0),
        ValueExpr::Constant(..) => {},
        ValueExpr::Tuple(l, _) => list(l).into_iter().for_each(|e| value_fn_refs(e, out)),
        ValueExpr::Union { expr, .. } => value_fn_refs(expr, out),
        ValueExpr::Variant { data, .. } => value_fn_refs(data, out),
        ValueExpr::GetDiscriminant { place } => place_fn_refs(place, out),
        ValueExpr::Load { source } => place_fn_refs(source, out),
        ValueExpr::AddrOf { target, .. } => place_fn_refs(target, out),
        ValueExpr::UnOp { operand, .. } => value_fn_refs(operand, out),
        ValueExpr::BinOp { left, right, .. } => {
            value_fn_refs(left, out);
            value_fn_refs(right, out);
        },
    }
}

fn place_fn_refs(p: &PlaceExpr, out: &mut Vec<u32>) {
    match p {
        PlaceExpr::Local(_) => {},
        PlaceExpr::Deref { operand, .. } => value_fn_refs(operand, out),
        PlaceExpr::Field { root, .. } => place_fn_refs(root, out),
        PlaceExpr::Index { root, index } => {
            place_fn_refs(root, out);
            value_fn_refs(index, out);
        },
        PlaceExpr::Downcast { root, .. } => place_fn_refs(root, out),
    }
}

/// The functions a translated function refers to.
fn fn_refs(f: &Function) -> Vec<u32> {
    let mut out = Vec::new();
    for b in f.blocks.iter().flatten() {
        for s in list(&b.statements) {
            match s {
                Statement::Assign { destination, source } => {
                    place_fn_refs(destination, &mut out);
                    value_fn_refs(source, &mut out);
                },
                _ => {},
            }
        }
        match &b.terminator {
            Terminator::Switch { value, .. } => value_fn_refs(value, &mut out),
            Terminator::Intrinsic { arguments, ret, .. } => {
                list(arguments).into_iter().for_each(|e| value_fn_refs(e, &mut out));
                place_fn_refs(ret, &mut out);
            },
            Terminator::Call { callee, arguments, ret, .. } => {
                value_fn_refs(callee, &mut out);
                for a in list(arguments) {
                    match a {
                        ArgumentExpr::ByValue(v) => value_fn_refs(v, &mut out),
                        ArgumentExpr::InPlace(p) => place_fn_refs(p, &mut out),
                    }
                }
                place_fn_refs(ret, &mut out);
            },
            _ => {},
        }
    }
    out
}

#[test]
fn every_jump_names_a_block() {
    let b0 = block(vec![], RsTerminator::Call {
        callee: RsCallee::Intrinsic(RsIntrinsic::CatchUnwind),
        args: vec![RsOperand::Copy(place(1)), RsOperand::Copy(place(2)), RsOperand::Copy(place(3))],
        destination: place(4),
        target: Some(1),
        unwind: RsUnwindAction::Continue,
    });
    let b1 = block(vec![], RsTerminator::Assert { cond: cbool(true), expected: false, target: 2, unwind: RsUnwindAction::Continue });
    let b2 = block(vec![], RsTerminator::Call {
        callee: call_instance(9, "mycrate", "g", "mycrate::g"),
        args: vec![],
        destination: place(0),
        target: Some(3),
        unwind: RsUnwindAction::Terminate,
    });
    let (f, _) = translate(cx(), vec![b0, b1, b2, block(vec![], ret())], vec![UNIT, FN_PTR, PTR_U8, FN_PTR, I32], 0);
    for b in f.blocks.iter() {
        for t in targets(&b.as_ref().unwrap().terminator) {
            assert!((t as usize) < f.blocks.len());
        }
    }
}

#[test]
fn every_function_the_program_refers_to_is_there() {
    // The entry function calls function 7, which reifies function 8.
    let call = block(vec![], RsTerminator::Call {
        callee: call_instance(7, "mycrate", "f", "mycrate::f"),
        args: vec![],
        destination: place(0),
        target: Some(1),
        unwind: RsUnwindAction::Continue,
    });
    let (f0, mut cx) = translate(cx(), vec![call, block(vec![], ret())], vec![UNIT], 0);
    cx.add_function(f0);
    let (name, key) = cx.next_untranslated().unwrap();
    assert_eq!((name, key), (FnName(1), 7));
    let reify = RsStatement::Assign {
        place: place(1),
        rvalue: RsRvalue::Cast {
            kind: RsCastKind::ReifyFnPointer { instance: 8 },
            operand: RsOperand::Constant(RsConst { ty: UNIT, kind: RsConstKind::Fields(vec![]) }),
            ty: FN_PTR,
        },
    };
    let (f1, next) = translate(cx, vec![block(vec![reify], ret())], vec![UNIT, FN_PTR], 0);
    cx = next;
    cx.add_function(f1);
    assert_eq!(cx.next_untranslated(), Some((FnName(2), 8)));
    let (f2, next) = translate(cx, vec![block(vec![], ret())], vec![UNIT], 0);
    cx = next;
    cx.add_function(f2);
    assert_eq!(cx.next_untranslated(), None);
    let p = cx.translate();
    assert_eq!(p.functions.len(), 4);
    let mut all = Vec::new();
    for f in p.functions.iter() {
        all.extend(fn_refs(f.as_ref().unwrap()));
    }
    all.sort();
    assert_eq!(all, vec![0, 1, 2]);
    for r in all {
        assert!(p.functions[r as usize].is_some());
    }
}

#[test]
fn unsupported_constructs_are_found_in_translated_blocks_only() {
    let ok = vec![block(vec![RsStatement::StorageLive(0)], ret())];
    assert!(!has_unsupported(&ok));
    let bad_stmt = vec![block(vec![RsStatement::Unsupported], ret())];
    assert!(has_unsupported(&bad_stmt));
    let bad_rvalue = vec![block(vec![RsStatement::Assign { place: place(0), rvalue: RsRvalue::Unsupported }], ret())];
    assert!(has_unsupported(&bad_rvalue));
    let bad_term = vec![block(vec![], RsTerminator::Unsupported)];
    assert!(has_unsupported(&bad_term));
    let mut cleanup = block(vec![RsStatement::Unsupported], RsTerminator::Unsupported);
    cleanup.is_cleanup = true;
    assert!(!has_unsupported(&vec![block(vec![], ret()), cleanup]));
}
