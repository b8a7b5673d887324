//! Where control can go: every jump, next or unwind block of a translated
//! function names one of its blocks.
use vstd::prelude::*;
use crate::num::Int;
use crate::lang::{List, BbName, Terminator, BasicBlock};
use crate::mir::{RsBody, RsBlock, RsUnwindAction, RsIntrinsic, RsCallee, RsOperand, RsPlace, RsTerminator, BlockId};
use crate::program::Ctxt;
use crate::bb::{
    StatementResult, bb_of, next_of, goto_target, plain, spec_unwind_action, spec_panic, spec_rs_intrinsic, spec_call,
    spec_switch_cases, spec_switch, spec_drop, spec_terminator, split_blocks, spec_bb,
};

verus! {

/// Every case of a switch continues in a block named below `n`.
pub open spec fn cases_below(cases: List<(Int, BbName)>, n: int) -> bool
    decreases cases,
{
    match cases {
        List::Nil => true,
        List::Cons(c, rest) => c.1.0 < n && cases_below(*rest, n),
    }
}

/// The block, if there is one, is named below `n`.
pub open spec fn opt_below(b: Option<BbName>, n: int) -> bool {
    b matches Some(x) ==> x.0 < n
}

/// Every block the terminator can continue in (by a jump, after a call or
/// an intrinsic, or when unwinding) is named below `n`.
pub open spec fn targets_below(t: Terminator, n: int) -> bool {
    match t {
        Terminator::Goto(b) => b.0 < n,
        Terminator::Switch { cases, fallback, .. } => cases_below(cases, n) && fallback.0 < n,
        Terminator::Intrinsic { next_block, .. } => opt_below(next_block, n),
        Terminator::Call { next_block, unwind_block, .. } => opt_below(next_block, n) && opt_below(unwind_block, n),
        Terminator::StartUnwind { unwind_block, .. } => unwind_block.0 < n,
        Terminator::StopUnwind(b) => b.0 < n,
        _ => true,
    }
}

/// Every block of `bs` continues only in blocks named below `n`.
pub open spec fn blocks_below(bs: Seq<BasicBlock>, n: int) -> bool {
    forall|i: int| 0 <= i < bs.len() ==> targets_below(#[trigger] bs[i].terminator, n)
}

/// Every block that is there continues only in blocks named below `n`.
pub open spec fn fn_blocks_below(bs: Seq<Option<BasicBlock>>, n: int) -> bool {
    forall|i: int| 0 <= i < bs.len() && #[trigger] bs[i] is Some ==> targets_below(bs[i].unwrap().terminator, n)
}

/// Every MIR block that has a name has one below `n`.
pub open spec fn names_below(bbs: Seq<Option<BbName>>, n: int) -> bool {
    forall|b: int| 0 <= b < bbs.len() && #[trigger] bbs[b] is Some ==> bbs[b].unwrap().0 < n
}

proof fn lemma_cases_mono(cases: List<(Int, BbName)>, n: int, n2: int)
    requires
        cases_below(cases, n),
        n <= n2,
    ensures
        cases_below(cases, n2),
    decreases cases,
{
    if let List::Cons(_, rest) = cases {
        lemma_cases_mono(*rest, n, n2);
    }
}

proof fn lemma_targets_mono(t: Terminator, n: int, n2: int)
    requires
        targets_below(t, n),
        n <= n2,
    ensures
        targets_below(t, n2),
{
    if let Terminator::Switch { cases, .. } = t {
        lemma_cases_mono(cases, n, n2);
    }
}

proof fn lemma_bb_of(bbs: Seq<Option<BbName>>, n: int, b: BlockId)
    requires
        names_below(bbs, n),
    ensures
        bb_of(bbs, b) matches Some(x) ==> x.0 < n,
        next_of(bbs, Some(b)) matches Some(x) ==> opt_below(x, n),
{
    if b < bbs.len() {
        assert(bbs[b as int] is Some ==> bbs[b as int].unwrap().0 < n);
    }
}

proof fn lemma_next_of(bbs: Seq<Option<BbName>>, n: int, target: Option<BlockId>)
    requires
        names_below(bbs, n),
    ensures
        next_of(bbs, target) matches Some(x) ==> opt_below(x, n),
        goto_target(bbs, target) matches Some(t) ==> targets_below(t, n),
{
    if let Some(b) = target {
        lemma_bb_of(bbs, n, b);
    }
}

/// Where unwinding continues is named below the new blocks' end, and the
/// new block continues nowhere.
proof fn lemma_unwind_action(bbs: Seq<Option<BbName>>, n: int, is_cleanup: bool, unwind: RsUnwindAction)
    requires
        names_below(bbs, n),
        0 <= n,
    ensures
        spec_unwind_action(bbs, n, is_cleanup, unwind) matches Some((name, blocks)) ==> n + blocks.len() < u32::MAX ==> {
            &&& name.0 < n + blocks.len()
            &&& blocks.len() <= 1
            &&& blocks_below(blocks, 0)
        },
{
    if let RsUnwindAction::Cleanup(b) = unwind {
        lemma_bb_of(bbs, n, b);
    }
}

proof fn lemma_panic(cx: Ctxt, bbs: Seq<Option<BbName>>, n: int, is_cleanup: bool, unwind: RsUnwindAction)
    requires
        names_below(bbs, n),
        0 <= n,
    ensures
        spec_panic(cx, bbs, n, is_cleanup, unwind) matches Some((t, blocks)) ==> n + blocks.len() < u32::MAX ==> {
            &&& targets_below(t, n + blocks.len())
            &&& blocks.len() <= 1
            &&& blocks_below(blocks, 0)
        },
{
    lemma_unwind_action(bbs, n, is_cleanup, unwind);
}

proof fn lemma_blocks_mono(bs: Seq<BasicBlock>, n: int, n2: int)
    requires
        blocks_below(bs, n),
        n <= n2,
    ensures
        blocks_below(bs, n2),
{
    assert forall|i: int| 0 <= i < bs.len() implies targets_below(#[trigger] bs[i].terminator, n2) by {
        lemma_targets_mono(bs[i].terminator, n, n2);
    }
}

/// The result of translating a terminator: its own jumps and those of the
/// blocks it adds (named from `n` on) stay below the end of those blocks.
pub open spec fn result_below(r: Option<(Seq<crate::lang::Statement>, Terminator, Seq<BasicBlock>, Seq<crate::lang::Type>)>, n: int) -> bool {
    r matches Some(x) ==> n + x.2.len() < u32::MAX ==> {
        &&& targets_below(x.1, n + x.2.len())
        &&& blocks_below(x.2, n + x.2.len())
    }
}

proof fn lemma_rs_intrinsic(
    body: RsBody,
    cx: Ctxt,
    bbs: Seq<Option<BbName>>,
    n: int,
    m: int,
    ri: RsIntrinsic,
    args: Seq<RsOperand>,
    dest: RsPlace,
    target: Option<BlockId>,
)
    requires
        names_below(bbs, n),
        0 <= n,
    ensures
        result_below(spec_rs_intrinsic(body, cx, bbs, n, m, ri, args, dest, target), n),
{
    lemma_next_of(bbs, n, target);
    let r = spec_rs_intrinsic(body, cx, bbs, n, m, ri, args, dest, target);
    match ri {
        RsIntrinsic::CatchUnwind => {
            if r is Some && n + r.unwrap().2.len() < u32::MAX {
                let x = r.unwrap();
                assert(x.2.len() == 5);
                assert(blocks_below(x.2, n + 5));
            }
        },
        RsIntrinsic::AssertValid { .. } => {},
        RsIntrinsic::RawEq => {},
        RsIntrinsic::ArithOffset => {},
        RsIntrinsic::PtrOffsetFrom { .. } => {},
        RsIntrinsic::Ctpop => {},
        RsIntrinsic::ExactDiv => {},
        RsIntrinsic::SizeOfVal { .. } => {},
        RsIntrinsic::AlignOfVal { .. } => {},
        RsIntrinsic::Likely => {},
        RsIntrinsic::ColdPath => {},
        RsIntrinsic::Abort => {},
        RsIntrinsic::Unsupported => {},
    }
}

proof fn lemma_switch_cases(bbs: Seq<Option<BbName>>, n: int, targets: Seq<(u128, BlockId)>, it: crate::lang::IntType, i: int)
    requires
        names_below(bbs, n),
    ensures
        spec_switch_cases(bbs, targets, it, i) matches Some(l) ==> cases_below(l, n),
    decreases targets.len() - i,
{
    if 0 <= i < targets.len() {
        lemma_bb_of(bbs, n, targets[i].1);
        lemma_switch_cases(bbs, n, targets, it, i + 1);
    }
}

proof fn lemma_call(
    body: RsBody,
    cx: Ctxt,
    bbs: Seq<Option<BbName>>,
    n: int,
    m: int,
    is_cleanup: bool,
    callee: RsCallee,
    args: Seq<RsOperand>,
    dest: RsPlace,
    target: Option<BlockId>,
    unwind: RsUnwindAction,
)
    requires
        names_below(bbs, n),
        0 <= n,
    ensures
        result_below(spec_call(body, cx, bbs, n, m, is_cleanup, callee, args, dest, target, unwind), n),
{
    lemma_next_of(bbs, n, target);
    lemma_unwind_action(bbs, n, is_cleanup, unwind);
    let r = spec_call(body, cx, bbs, n, m, is_cleanup, callee, args, dest, target, unwind);
    match callee {
        RsCallee::Intrinsic(ri) => {
            lemma_rs_intrinsic(body, cx, bbs, n, m, ri, args, dest, target);
        },
        RsCallee::FnPtr { .. } => {
            if let Some(x) = r {
                lemma_blocks_mono(x.2, 0, n + x.2.len());
            }
        },
        RsCallee::Instance { .. } => {
            lemma_panic(cx, bbs, n, is_cleanup, unwind);
            if let Some(x) = r {
                lemma_blocks_mono(x.2, 0, n + x.2.len());
            }
        },
    }
}

proof fn lemma_assert_terminator(body: RsBody, cx: Ctxt, bbs: Seq<Option<BbName>>, n: int, m: int, blk: RsBlock)
    requires
        names_below(bbs, n),
        0 <= n,
        blk.terminator is Assert,
    ensures
        result_below(spec_terminator(body, cx, bbs, n, m, blk), n),
{
    let r = spec_terminator(body, cx, bbs, n, m, blk);
    if let RsTerminator::Assert { cond, expected, target, unwind } = blk.terminator {
        lemma_panic(cx, bbs, n, blk.is_cleanup, unwind);
        lemma_bb_of(bbs, n, target);
        if r is Some && n + r.unwrap().2.len() < u32::MAX {
            let x = r.unwrap();
            let p = spec_panic(cx, bbs, n, blk.is_cleanup, unwind);
            assert(p is Some && bb_of(bbs, target) is Some && x.2 == p.unwrap().1.push(
                crate::bb::empty_block(p.unwrap().0, crate::bb::block_kind(blk.is_cleanup)),
            ) && x.1 == Terminator::Switch {
                value: x.1->value,
                cases: crate::bb::cons((crate::num::int_of(1), bb_of(bbs, target).unwrap()), List::Nil),
                fallback: BbName((n + p.unwrap().1.len()) as u32),
            }) by {
                reveal(spec_terminator);
            }
            let (pt, blocks) = p.unwrap();
            lemma_targets_mono(pt, n + blocks.len(), n + x.2.len());
            lemma_blocks_mono(blocks, 0, n + x.2.len());
            assert forall|i: int| 0 <= i < x.2.len() implies targets_below(#[trigger] x.2[i].terminator, n + x.2.len()) by {
                if i < blocks.len() {
                    assert(x.2[i] == blocks[i]);
                }
            }
            assert(cases_below(crate::bb::cons((crate::num::int_of(1), bb_of(bbs, target).unwrap()), List::Nil), n + x.2.len())) by {
                reveal_with_fuel(cases_below, 2);
            }
        }
    }
}

/// What a terminator becomes jumps only to blocks named below the end of
/// the blocks it adds.
#[verifier::rlimit(60)]
proof fn lemma_terminator(body: RsBody, cx: Ctxt, bbs: Seq<Option<BbName>>, n: int, m: int, blk: RsBlock)
    requires
        names_below(bbs, n),
        0 <= n,
    ensures
        result_below(spec_terminator(body, cx, bbs, n, m, blk), n),
{
    let r = spec_terminator(body, cx, bbs, n, m, blk);
    match blk.terminator {
        RsTerminator::Goto(b) => {
            lemma_bb_of(bbs, n, b);
            reveal(spec_terminator);
        },
        RsTerminator::Call { callee, args, destination, target, unwind } => {
            assert(r == spec_call(body, cx, bbs, n, m, blk.is_cleanup, callee, args@, destination, target, unwind)) by {
                reveal(spec_terminator);
            }
            lemma_call(body, cx, bbs, n, m, blk.is_cleanup, callee, args@, destination, target, unwind);
        },
        RsTerminator::SwitchInt { discr, targets, otherwise } => {
            let sw = spec_switch(body, cx, bbs, discr, targets@, otherwise);
            assert(r == (match sw {
                Some(t) => Some(plain(t)),
                None => None,
            })) by {
                reveal(spec_terminator);
            }
            lemma_bb_of(bbs, n, otherwise);
            assert forall|it: crate::lang::IntType| #[trigger] spec_switch_cases(bbs, targets@, it, 0) is Some implies cases_below(spec_switch_cases(bbs, targets@, it, 0).unwrap(), n) by {
                lemma_switch_cases(bbs, n, targets@, it, 0);
            }
        },
        RsTerminator::Assert { .. } => {
            lemma_assert_terminator(body, cx, bbs, n, m, blk);
        },
        RsTerminator::Drop { place, target, drop_fn } => {
            lemma_bb_of(bbs, n, target);
            let d = spec_drop(body, cx, bbs, place, target, drop_fn);
            assert(r == (match d {
                Some(t) => Some(plain(t)),
                None => None,
            })) by {
                reveal(spec_terminator);
            }
        },
        _ => {
            reveal(spec_terminator);
        },
    }
}

/// The blocks split off at intrinsic calls each continue in the next one.
proof fn lemma_split_blocks(rs: Seq<StatementResult>, n: int, kind: crate::lang::BbKind)
    requires
        0 <= n,
    ensures
        n + split_blocks(rs, n, kind).0.len() < u32::MAX
            ==> blocks_below(split_blocks(rs, n, kind).0, n + split_blocks(rs, n, kind).0.len()),
    decreases rs.len(),
{
    if rs.len() > 0 {
        let prev = split_blocks(rs.drop_last(), n, kind);
        lemma_split_blocks(rs.drop_last(), n, kind);
        let cur = split_blocks(rs, n, kind);
        if n + cur.0.len() < u32::MAX {
            assert forall|i: int| 0 <= i < cur.0.len() implies targets_below(#[trigger] cur.0[i].terminator, n + cur.0.len()) by {
                if i < prev.0.len() {
                    assert(cur.0[i] == prev.0[i]);
                    lemma_targets_mono(prev.0[i].terminator, n + prev.0.len(), n + cur.0.len());
                }
            }
        }
    }
}

proof fn lemma_names_mono(bbs: Seq<Option<BbName>>, n: int, n2: int)
    requires
        names_below(bbs, n),
        n <= n2,
    ensures
        names_below(bbs, n2),
{
}

/// What a MIR block becomes (its own block and the ones it adds, named
/// from `n` on) jumps only to blocks named below the end of the added ones.
proof fn lemma_bb(body: RsBody, cx: Ctxt, bbs: Seq<Option<BbName>>, n: int, m: int, blk: RsBlock)
    requires
        names_below(bbs, n),
        0 <= n,
    ensures
        spec_bb(body, cx, bbs, n, m, blk) matches Some((first, added, _)) ==> n + added.len() < u32::MAX ==> {
            &&& targets_below(first.terminator, n + added.len())
            &&& blocks_below(added, n + added.len())
        },
{
    let r = spec_bb(body, cx, bbs, n, m, blk);
    if r is Some && n + r.unwrap().1.len() < u32::MAX {
        let (first, added, _) = r.unwrap();
        let kind = crate::bb::block_kind(blk.is_cleanup);
        let split = split_blocks(crate::bb::stmt_results(body, cx, blk.statements@), n, kind);
        let n2 = n + split.0.len();
        let (ts, t, tblocks, tlocals) = spec_terminator(body, cx, bbs, n2, m, blk).unwrap();
        let all = split.0.push(BasicBlock { statements: crate::lang::list_from_seq(split.1 + ts), terminator: t, kind });
        assert(first == all[0] && added == all.drop_first() + tblocks);
        let end = n + added.len();
        assert(end == n2 + tblocks.len());
        lemma_split_blocks(crate::bb::stmt_results(body, cx, blk.statements@), n, kind);
        lemma_blocks_mono(split.0, n2, end);
        lemma_names_mono(bbs, n, n2);
        lemma_terminator(body, cx, bbs, n2, m, blk);
        assert forall|i: int| 0 <= i < all.len() implies targets_below(#[trigger] all[i].terminator, end) by {
            if i < split.0.len() {
                assert(all[i] == split.0[i]);
            }
        }
        assert forall|i: int| 0 <= i < added.len() implies targets_below(#[trigger] added[i].terminator, end) by {
            if i < all.len() - 1 {
                assert(added[i] == all[i + 1]);
            } else {
                assert(added[i] == tblocks[i - (all.len() - 1)]);
            }
        }
    }
}

/// Translating blocks `..i` in order, from blocks `bs0` whose jumps stay
/// below their count and at least as many blocks as there are translated
/// MIR blocks, gives blocks whose jumps stay below their count.
proof fn lemma_blocks_from(
    body: RsBody,
    cx: Ctxt,
    blocks: Seq<RsBlock>,
    i: int,
    bs0: Seq<Option<BasicBlock>>,
    ls0: Seq<crate::lang::Type>,
)
    requires
        0 <= i <= blocks.len(),
        fn_blocks_below(bs0, bs0.len() as int),
        crate::function::count_regular(blocks, blocks.len() as int) <= bs0.len(),
    ensures
        crate::function::spec_blocks_from(body, cx, blocks, i, bs0, ls0) matches Some((bs, _)) ==> {
            &&& bs.len() >= bs0.len()
            &&& (bs.len() < u32::MAX ==> fn_blocks_below(bs, bs.len() as int))
        },
    decreases i,
{
    if i > 0 {
        lemma_blocks_from(body, cx, blocks, i - 1, bs0, ls0);
        let prev = crate::function::spec_blocks_from(body, cx, blocks, i - 1, bs0, ls0);
        let cur = crate::function::spec_blocks_from(body, cx, blocks, i, bs0, ls0);
        if cur is Some && !blocks[i - 1].is_cleanup {
            let (bs, ls) = prev.unwrap();
            let k = crate::function::count_regular(blocks, blocks.len() as int);
            let names = crate::function::spec_bb_names(blocks);
            let (first, added, _) = spec_bb(body, cx, names, bs.len() as int, ls.len() as int, blocks[i - 1]).unwrap();
            let c = crate::function::count_regular(blocks, i - 1);
            crate::function::lemma_count_regular_mono(blocks, i - 1, blocks.len() as int);
            crate::function::lemma_count_regular_mono(blocks, 0, i - 1);
            assert(0 <= c < k <= bs0.len() <= bs.len());
            let new_bs = cur.unwrap().0;
            let upd = bs.update(c, Some(first));
            assert(new_bs == upd + crate::bb::somes(added));
            if new_bs.len() < u32::MAX {
                assert(names_below(names, k)) by {
                    assert forall|b: int| 0 <= b < names.len() && #[trigger] names[b] is Some implies names[b].unwrap().0 < k by {
                        crate::function::lemma_count_regular_mono(blocks, b, blocks.len() as int);
                        crate::function::lemma_count_regular_mono(blocks, 0, b);
                    }
                }
                lemma_names_mono(names, k, bs.len() as int);
                lemma_bb(body, cx, names, bs.len() as int, ls.len() as int, blocks[i - 1]);
                let end = new_bs.len() as int;
                assert forall|x: int| 0 <= x < new_bs.len() && #[trigger] new_bs[x] is Some implies targets_below(
                    new_bs[x].unwrap().terminator,
                    end,
                ) by {
                    if x < bs.len() {
                        assert(new_bs[x] == upd[x]);
                        if x != c {
                            assert(upd[x] == bs[x]);
                            lemma_targets_mono(bs[x].unwrap().terminator, bs.len() as int, end);
                        }
                    } else {
                        assert(new_bs[x] == crate::bb::somes(added)[x - bs.len()]);
                    }
                }
            }
        }
    }
}

/// Every jump, next block or unwind block of a translated function names
/// one of its blocks.
pub proof fn law_jump_targets_exist(body: RsBody, cx: Ctxt, blocks: Seq<RsBlock>)
    requires
        crate::function::spec_fn_blocks(body, cx, blocks) is Some,
        crate::function::spec_fn_blocks(body, cx, blocks).unwrap().0.len() < u32::MAX,
    ensures
        fn_blocks_below(
            crate::function::spec_fn_blocks(body, cx, blocks).unwrap().0,
            crate::function::spec_fn_blocks(body, cx, blocks).unwrap().0.len() as int,
        ),
{
    let len = blocks.len() as int;
    let k = crate::function::count_regular(blocks, len);
    let bs0 = crate::bb::nones(k as nat).push(Some(crate::function::spec_init_block(body)));
    crate::function::lemma_count_regular_mono(blocks, 0, len);
    assert(fn_blocks_below(bs0, bs0.len() as int)) by {
        assert forall|x: int| 0 <= x < bs0.len() && #[trigger] bs0[x] is Some implies targets_below(bs0[x].unwrap().terminator, bs0.len() as int) by {
            if x < k {
                assert(bs0[x] is None);
            }
        }
    }
    lemma_blocks_from(body, cx, blocks, len, bs0, crate::function::spec_locals(cx, body));
}

} // verus!
