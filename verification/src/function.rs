//! The translation of one function body.
use vstd::prelude::*;
use crate::lang::{
    Type, BasicBlock, BbName, LocalName, Function, List, list_from_seq, list_from_vec, Statement, Terminator, BbKind,
};
use crate::mir::{RsBody, RsBlock, RsMir, AllocKey, RsStatement, RsRvalue, RsTerminator, RsCallee, RsIntrinsic};
use crate::constant::grown;
use crate::rs::RsCanonAbi;
use crate::program::Ctxt;
use crate::ty::{tys_wf, spec_ty, spec_calling_convention, translate_calling_convention};
use crate::bb::{spec_bb, somes, nones, spec_stmt, spec_terminator};
use crate::jumps::{fn_blocks_below, law_jump_targets_exist};
use crate::fnrefs::{fn_blocks_refs, law_fn_refs_named, lemma_refs_closed_grows};
use crate::intern::{interned, body_keys_in, body_fn_key, body_alloc_key, stmt_count, lemma_stmt_count_mono, lemma_block_keys_stay};

verus! {

/// The number of blocks among `..i` that are translated (not cleanup blocks).
pub open spec fn count_regular(blocks: Seq<RsBlock>, i: int) -> int
    decreases i,
{
    if i <= 0 {
        0
    } else {
        count_regular(blocks, i - 1) + if blocks[i - 1].is_cleanup {
            0int
        } else {
            1int
        }
    }
}

/// The names of the MIR blocks: the blocks that are translated are
/// numbered in order; cleanup blocks get no name.
pub open spec fn spec_bb_names(blocks: Seq<RsBlock>) -> Seq<Option<BbName>> {
    Seq::new(
        blocks.len(),
        |b: int| if blocks[b].is_cleanup {
            None
        } else {
            Some(BbName(count_regular(blocks, b) as u32))
        },
    )
}

/// The statements of the entry block: `StorageLive` for the locals among
/// `always_live[..i]` that are not implicitly live (the return place and
/// the arguments are).
pub open spec fn spec_init_stmts(body: RsBody, i: int) -> Seq<Statement>
    decreases i,
{
    if i <= 0 {
        Seq::empty()
    } else {
        let l = body.always_live@[i - 1];
        spec_init_stmts(body, i - 1) + if l >= body.arg_count + 1 {
            seq![Statement::StorageLive(LocalName(l as u32))]
        } else {
            Seq::empty()
        }
    }
}

/// The MiniRust types of the locals.
pub open spec fn spec_locals(cx: Ctxt, body: RsBody) -> Seq<Type> {
    Seq::new(body.local_tys@.len(), |i: int| spec_ty(cx.tcx.tys@, body.local_tys@[i] as int).unwrap())
}

/// The blocks and locals after translating blocks `..i` in order, starting
/// from blocks `bs0` and locals `ls0`; `None` where a block fails.
pub open spec fn spec_blocks_from(
    body: RsBody,
    cx: Ctxt,
    blocks: Seq<RsBlock>,
    i: int,
    bs0: Seq<Option<BasicBlock>>,
    ls0: Seq<Type>,
) -> Option<(Seq<Option<BasicBlock>>, Seq<Type>)>
    decreases i,
{
    if i <= 0 {
        Some((bs0, ls0))
    } else {
        match spec_blocks_from(body, cx, blocks, i - 1, bs0, ls0) {
            None => None,
            Some((bs, ls)) => if blocks[i - 1].is_cleanup {
                Some((bs, ls))
            } else {
                match spec_bb(body, cx, spec_bb_names(blocks), bs.len() as int, ls.len() as int, blocks[i - 1]) {
                    Some((first, added, new_locals)) => Some((
                        bs.update(count_regular(blocks, i - 1), Some(first)) + somes(added),
                        ls + new_locals,
                    )),
                    None => None,
                }
            },
        }
    }
}

/// The entry block: it makes the always-live locals live and jumps to the
/// first MIR block.
pub open spec fn spec_init_block(body: RsBody) -> BasicBlock {
    BasicBlock {
        statements: list_from_seq(spec_init_stmts(body, body.always_live@.len() as int)),
        terminator: Terminator::Goto(BbName(0)),
        kind: BbKind::Regular,
    }
}

/// The blocks and locals of a translated function. Block names
/// `0..k` are the translated MIR blocks, `k` is the entry block, and the
/// blocks made along the way follow.
pub open spec fn spec_fn_blocks(body: RsBody, cx: Ctxt, blocks: Seq<RsBlock>) -> Option<(Seq<Option<BasicBlock>>, Seq<Type>)> {
    let k = count_regular(blocks, blocks.len() as int);
    spec_blocks_from(body, cx, blocks, blocks.len() as int, nones(k as nat).push(Some(spec_init_block(body))), spec_locals(cx, body))
}

/// The argument locals: `1..=arg_count` (local 0 is the return place).
pub open spec fn spec_args(n: nat) -> List<LocalName> {
    list_from_seq(Seq::new(n, |i: int| LocalName((i + 1) as u32)))
}

/// What translating a whole body needs: an entry block that is
/// translated, supported local types, always-live locals that exist, a
/// supported calling convention, and names within `u32`.
pub open spec fn translatable(body: RsBody, cx: Ctxt, blocks: Seq<RsBlock>) -> bool {
    &&& blocks.len() > 0
    &&& !blocks[0].is_cleanup
    &&& forall|i: int| 0 <= i < body.local_tys@.len() ==> (#[trigger] spec_ty(cx.tcx.tys@, body.local_tys@[i] as int)) is Some
    &&& forall|i: int| 0 <= i < body.always_live@.len() ==> #[trigger] body.always_live@[i] < body.local_tys@.len()
    &&& body.conv != RsCanonAbi::Other
    &&& body.arg_count < u32::MAX
    &&& stmt_count(blocks, blocks.len() as int) + 7 * blocks.len() + 8 < u32::MAX
    &&& body.local_tys@.len() + 5 * blocks.len() + 16 < u32::MAX
    &&& spec_fn_blocks(body, cx, blocks) is Some
}

/// The body translates whatever names are given to the functions and
/// allocations it refers to.
pub open spec fn translatable_once_named(body: RsBody, cx: Ctxt, blocks: Seq<RsBlock>) -> bool {
    forall|cx2: Ctxt| interned(cx, cx2) && cx2.wf() && body_keys_in(body, cx2, blocks) ==> #[trigger] translatable(body, cx2, blocks)
}

pub proof fn lemma_count_regular_mono(blocks: Seq<RsBlock>, i: int, j: int)
    requires
        0 <= i <= j <= blocks.len(),
    ensures
        count_regular(blocks, i) <= count_regular(blocks, j),
        count_regular(blocks, j) - count_regular(blocks, i) <= j - i,
        i < j && !blocks[i].is_cleanup ==> count_regular(blocks, i) < count_regular(blocks, j),
    decreases j - i,
{
    if i < j {
        lemma_count_regular_mono(blocks, i, j - 1);
        if i == j - 1 {
        }
    }
}

/// The statement is one that has no MiniRust form.
pub open spec fn stmt_unsupported(s: RsStatement) -> bool {
    ||| s is Unsupported
    ||| (s matches RsStatement::Assign { rvalue, .. } && rvalue is Unsupported)
}

/// The terminator is one that has no MiniRust form.
pub open spec fn term_unsupported(t: RsTerminator) -> bool {
    ||| t is Unsupported
    ||| (t matches RsTerminator::Call { callee: RsCallee::Intrinsic(RsIntrinsic::Unsupported), .. })
}

/// The block is translated (no cleanup block) and has a statement or
/// terminator with no MiniRust form.
pub open spec fn block_unsupported(b: RsBlock) -> bool {
    &&& !b.is_cleanup
    &&& (exists|i: int| 0 <= i < b.statements@.len() && stmt_unsupported(#[trigger] b.statements@[i])) || term_unsupported(
        b.terminator,
    )
}

/// Whether one of the blocks that are translated has a statement or
/// terminator with no MiniRust form.
pub fn has_unsupported(blocks: &Vec<RsBlock>) -> (r: bool)
    ensures
        r == exists|b: int| 0 <= b < blocks@.len() && block_unsupported(#[trigger] blocks@[b]),
{
    let mut b: usize = 0;
    while b < blocks.len()
        invariant
            b <= blocks@.len(),
            forall|x: int| 0 <= x < b ==> !block_unsupported(#[trigger] blocks@[x]),
        decreases blocks.len() - b,
    {
        let blk = &blocks[b];
        if !blk.is_cleanup {
            let mut i: usize = 0;
            while i < blk.statements.len()
                invariant
                    b < blocks@.len(),
                    *blk == blocks@[b as int],
                    !blk.is_cleanup,
                    i <= blk.statements@.len(),
                    forall|j: int| 0 <= j < i ==> !stmt_unsupported(#[trigger] blk.statements@[j]),
                decreases blk.statements.len() - i,
            {
                let bad = match &blk.statements[i] {
                    RsStatement::Unsupported => true,
                    RsStatement::Assign { rvalue: RsRvalue::Unsupported, .. } => true,
                    _ => false,
                };
                if bad {
                    assert(block_unsupported(blocks@[b as int]));
                    return true;
                }
                i = i + 1;
            }
            let bad = match &blk.terminator {
                RsTerminator::Unsupported => true,
                RsTerminator::Call { callee: RsCallee::Intrinsic(RsIntrinsic::Unsupported), .. } => true,
                _ => false,
            };
            if bad {
                assert(block_unsupported(blocks@[b as int]));
                return true;
            }
        }
        b = b + 1;
    }
    false
}

/// A block with a construct that has no MiniRust form does not translate,
/// wherever its blocks and locals are numbered from.
proof fn lemma_unsupported_bb(body: RsBody, cx: Ctxt, bbs: Seq<Option<BbName>>, n: int, m: int, blk: RsBlock)
    requires
        block_unsupported(blk),
    ensures
        spec_bb(body, cx, bbs, n, m, blk) is None,
{
    if exists|i: int| 0 <= i < blk.statements@.len() && stmt_unsupported(#[trigger] blk.statements@[i]) {
        let i = choose|i: int| 0 <= i < blk.statements@.len() && stmt_unsupported(#[trigger] blk.statements@[i]);
        assert(spec_stmt(body, cx, blk.statements@[i]) is None) by {
            reveal(spec_stmt);
        }
    } else {
        let kind = crate::bb::block_kind(blk.is_cleanup);
        let split = crate::bb::split_blocks(crate::bb::stmt_results(body, cx, blk.statements@), n, kind);
        assert(spec_terminator(body, cx, bbs, n + split.0.len(), m, blk) is None) by {
            reveal(spec_terminator);
        }
    }
}

proof fn lemma_unsupported_blocks_from(
    body: RsBody,
    cx: Ctxt,
    blocks: Seq<RsBlock>,
    i: int,
    b: int,
    bs0: Seq<Option<BasicBlock>>,
    ls0: Seq<Type>,
)
    requires
        0 <= b < i <= blocks.len(),
        block_unsupported(blocks[b]),
    ensures
        spec_blocks_from(body, cx, blocks, i, bs0, ls0) is None,
    decreases i,
{
    if b < i - 1 {
        lemma_unsupported_blocks_from(body, cx, blocks, i - 1, b, bs0, ls0);
    } else if let Some((bs, ls)) = spec_blocks_from(body, cx, blocks, i - 1, bs0, ls0) {
        lemma_unsupported_bb(body, cx, spec_bb_names(blocks), bs.len() as int, ls.len() as int, blocks[b]);
    }
}

/// A body with a statement or terminator that has no MiniRust form (in a
/// block that is translated) does not translate, whatever the names.
pub proof fn law_unsupported_body_does_not_translate(body: RsBody, cx: Ctxt, blocks: Seq<RsBlock>)
    requires
        exists|b: int| 0 <= b < blocks.len() && block_unsupported(#[trigger] blocks[b]),
    ensures
        !translatable(body, cx, blocks),
{
    let b = choose|b: int| 0 <= b < blocks.len() && block_unsupported(#[trigger] blocks[b]);
    let k = count_regular(blocks, blocks.len() as int);
    lemma_unsupported_blocks_from(
        body,
        cx,
        blocks,
        blocks.len() as int,
        b,
        nones(k as nat).push(Some(spec_init_block(body))),
        spec_locals(cx, body),
    );
}

proof fn lemma_blocks_from_prefix(
    body: RsBody,
    cx: Ctxt,
    blocks: Seq<RsBlock>,
    i: int,
    j: int,
    bs0: Seq<Option<BasicBlock>>,
    ls0: Seq<Type>,
)
    requires
        0 <= j <= i,
        spec_blocks_from(body, cx, blocks, i, bs0, ls0) is Some,
    ensures
        spec_blocks_from(body, cx, blocks, j, bs0, ls0) is Some,
    decreases i - j,
{
    if j < i {
        lemma_blocks_from_prefix(body, cx, blocks, i - 1, j, bs0, ls0);
    }
}

/// The entry block makes live, in order, exactly the always-live locals
/// that MiniRust does not make live itself (those after the return place
/// and the arguments), and then jumps to the block that MIR's first block
/// is named.
pub proof fn law_entry_block_starts_the_body(body: RsBody, blocks: Seq<RsBlock>)
    requires
        blocks.len() > 0,
        !blocks[0].is_cleanup,
    ensures
        spec_init_block(body).terminator == Terminator::Goto(spec_bb_names(blocks)[0].unwrap()),
        spec_init_block(body).statements == list_from_seq(spec_init_stmts(body, body.always_live@.len() as int)),
        forall|j: int| 0 <= j < spec_init_stmts(body, body.always_live@.len() as int).len() ==> exists|i: int|
            0 <= i < body.always_live@.len() && body.always_live@[i] > body.arg_count && #[trigger] spec_init_stmts(
                body,
                body.always_live@.len() as int,
            )[j] == Statement::StorageLive(LocalName(body.always_live@[i] as u32)),
        forall|i: int| 0 <= i < body.always_live@.len() && #[trigger] body.always_live@[i] > body.arg_count ==> spec_init_stmts(
            body,
            body.always_live@.len() as int,
        ).contains(Statement::StorageLive(LocalName(body.always_live@[i] as u32))),
{
    lemma_init_stmts_live(body, body.always_live@.len() as int);
}

proof fn lemma_init_stmts_live(body: RsBody, n: int)
    requires
        0 <= n <= body.always_live@.len(),
    ensures
        forall|j: int| 0 <= j < spec_init_stmts(body, n).len() ==> exists|i: int|
            0 <= i < n && body.always_live@[i] > body.arg_count && #[trigger] spec_init_stmts(body, n)[j] == Statement::StorageLive(
                LocalName(body.always_live@[i] as u32),
            ),
        forall|i: int| 0 <= i < n && #[trigger] body.always_live@[i] > body.arg_count ==> spec_init_stmts(body, n).contains(
            Statement::StorageLive(LocalName(body.always_live@[i] as u32)),
        ),
    decreases n,
{
    if n > 0 {
        lemma_init_stmts_live(body, n - 1);
        let prev = spec_init_stmts(body, n - 1);
        let cur = spec_init_stmts(body, n);
        let l = body.always_live@[n - 1];
        assert forall|j: int| 0 <= j < cur.len() implies exists|i: int|
            0 <= i < n && body.always_live@[i] > body.arg_count && #[trigger] cur[j] == Statement::StorageLive(
                LocalName(body.always_live@[i] as u32),
            ) by {
            if j < prev.len() {
                assert(cur[j] == prev[j]);
                let i = choose|i: int|
                    0 <= i < n - 1 && body.always_live@[i] > body.arg_count && #[trigger] prev[j] == Statement::StorageLive(
                        LocalName(body.always_live@[i] as u32),
                    );
                assert(0 <= i < n);
            } else {
                assert(cur[j] == Statement::StorageLive(LocalName(l as u32)));
            }
        }
        assert forall|i: int| 0 <= i < n && #[trigger] body.always_live@[i] > body.arg_count implies cur.contains(
            Statement::StorageLive(LocalName(body.always_live@[i] as u32)),
        ) by {
            if i < n - 1 {
                let j = choose|j: int| 0 <= j < prev.len() && prev[j] == Statement::StorageLive(LocalName(body.always_live@[i] as u32));
                assert(cur[j] == prev[j]);
            } else {
                assert(cur[prev.len() as int] == Statement::StorageLive(LocalName(l as u32)));
            }
        }
    }
}

/// The state of translating one function body.
pub struct FnCtxt {
    /// What the body being translated declares, with its generics instantiated.
    pub body: RsBody,
    /// The blocks of the body, until their translation starts.
    pub mir_blocks: Vec<RsBlock>,
    /// The state of the whole program's translation.
    pub cx: Ctxt,
    /// The name of each MIR block; cleanup blocks get none, as unwinding
    /// into them is not translated.
    pub bb_name_map: Vec<Option<BbName>>,
    /// The next free number for a block name.
    pub next_bb: u32,
    /// The types of the locals, by name.
    pub locals: Vec<Type>,
    /// The blocks, by name; `None` for a name whose block is not built yet.
    pub blocks: Vec<Option<BasicBlock>>,
}

impl FnCtxt {
    /// The invariant of a function translation in progress.
    pub open spec fn wf(&self) -> bool {
        &&& self.blocks@.len() == self.next_bb
        &&& forall|i: int| 0 <= i < self.bb_name_map@.len() && #[trigger] self.bb_name_map@[i] is Some
            ==> self.bb_name_map@[i].unwrap().0 < self.next_bb
        &&& tys_wf(self.cx.tcx.tys@)
        &&& self.cx.names_wf()
        &&& self.cx.allocs_named_wf()
        &&& self.cx.globals_done_except(Set::empty())
        &&& self.body.local_tys@.len() < u32::MAX
        &&& self.locals@.len() < u32::MAX - 8
    }

    /// A fresh name for a new basic block.
    pub fn fresh_bb_name(&mut self) -> (r: BbName)
        requires
            old(self).wf(),
            old(self).next_bb < u32::MAX,
        ensures
            final(self).wf(),
            r == BbName(old(self).next_bb),
            final(self).next_bb == old(self).next_bb + 1,
            final(self).blocks@ == old(self).blocks@.push(None),
            final(self).body == old(self).body,
            final(self).cx == old(self).cx,
            final(self).bb_name_map == old(self).bb_name_map,
            final(self).locals == old(self).locals,
    {
        let name = self.next_bb;
        self.next_bb = name + 1;
        self.blocks.push(None);
        BbName(name)
    }

    /// A fresh name for a new local of type `ty`.
    pub fn fresh_local(&mut self, ty: Type) -> (r: LocalName)
        requires
            old(self).locals@.len() < u32::MAX - 8,
        ensures
            r == LocalName(old(self).locals@.len() as u32),
            final(self).locals@ == old(self).locals@.push(ty),
            final(self).body == old(self).body,
            final(self).cx == old(self).cx,
            final(self).bb_name_map == old(self).bb_name_map,
            final(self).next_bb == old(self).next_bb,
            final(self).blocks == old(self).blocks,
    {
        let name = LocalName(self.locals.len() as u32);
        self.locals.push(ty);
        name
    }

    /// Stores a block under a name that has none yet.
    pub fn insert_block(&mut self, name: BbName, bb: BasicBlock)
        requires
            name.0 < old(self).blocks@.len(),
            old(self).blocks@[name.0 as int] is None,
        ensures
            final(self).blocks@ == old(self).blocks@.update(name.0 as int, Some(bb)),
            final(self).body == old(self).body,
            final(self).cx == old(self).cx,
            final(self).bb_name_map == old(self).bb_name_map,
            final(self).next_bb == old(self).next_bb,
            final(self).locals == old(self).locals,
    {
        self.blocks.set(name.0 as usize, Some(bb));
    }
}

/// The slots of blocks that are not translated yet are the only empty ones.
pub open spec fn only_pending_empty(blocks: Seq<RsBlock>, i: int, bs: Seq<Option<BasicBlock>>) -> bool {
    forall|x: int| 0 <= x < bs.len() && #[trigger] bs[x] is None ==> exists|b: int|
        i <= b < blocks.len() && !blocks[b].is_cleanup && #[trigger] count_regular(blocks, b) == x
}

proof fn lemma_blocks_from_present(
    body: RsBody,
    cx: Ctxt,
    blocks: Seq<RsBlock>,
    i: int,
    bs0: Seq<Option<BasicBlock>>,
    ls0: Seq<Type>,
)
    requires
        0 <= i <= blocks.len(),
        only_pending_empty(blocks, 0, bs0),
        count_regular(blocks, blocks.len() as int) <= bs0.len(),
        spec_blocks_from(body, cx, blocks, i, bs0, ls0) is Some,
    ensures
        only_pending_empty(blocks, i, spec_blocks_from(body, cx, blocks, i, bs0, ls0).unwrap().0),
        spec_blocks_from(body, cx, blocks, i, bs0, ls0).unwrap().0.len() >= bs0.len(),
    decreases i,
{
    if i > 0 {
        lemma_blocks_from_prefix(body, cx, blocks, i, i - 1, bs0, ls0);
        lemma_blocks_from_present(body, cx, blocks, i - 1, bs0, ls0);
        let bs = spec_blocks_from(body, cx, blocks, i - 1, bs0, ls0).unwrap().0;
        let nbs = spec_blocks_from(body, cx, blocks, i, bs0, ls0).unwrap().0;
        if !blocks[i - 1].is_cleanup {
            lemma_count_regular_mono(blocks, i - 1, blocks.len() as int);
            lemma_count_regular_mono(blocks, 0, i - 1);
            let ls = spec_blocks_from(body, cx, blocks, i - 1, bs0, ls0).unwrap().1;
            let r = spec_bb(body, cx, spec_bb_names(blocks), bs.len() as int, ls.len() as int, blocks[i - 1]).unwrap();
            assert(nbs == bs.update(count_regular(blocks, i - 1), Some(r.0)) + somes(r.1));
            assert(nbs.len() == bs.len() + r.1.len());
        } else {
            assert(nbs == bs);
        }
        assert(nbs.len() >= bs.len());
        assert forall|x: int| 0 <= x < nbs.len() && #[trigger] nbs[x] is None implies exists|b: int|
            i <= b < blocks.len() && !blocks[b].is_cleanup && #[trigger] count_regular(blocks, b) == x by {
            if blocks[i - 1].is_cleanup {
                let b = choose|b: int| i - 1 <= b < blocks.len() && !blocks[b].is_cleanup && #[trigger] count_regular(blocks, b) == x;
                assert(b != i - 1);
            } else {
                let name = count_regular(blocks, i - 1);
                lemma_count_regular_mono(blocks, i - 1, blocks.len() as int);
                lemma_count_regular_mono(blocks, 0, i - 1);
                assert(x < bs.len());
                assert(x != name);
                assert(bs[x] is None);
                let b = choose|b: int| i - 1 <= b < blocks.len() && !blocks[b].is_cleanup && #[trigger] count_regular(blocks, b) == x;
                assert(b != i - 1);
            }
        }
    }
}

/// Every block of a translated function is there: each name the
/// translation hands out, for a MIR block, for the entry block or for a
/// block made along the way, gets its block.
pub proof fn law_all_blocks_present(body: RsBody, cx: Ctxt, blocks: Seq<RsBlock>)
    requires
        spec_fn_blocks(body, cx, blocks) is Some,
    ensures
        forall|x: int| 0 <= x < spec_fn_blocks(body, cx, blocks).unwrap().0.len()
            ==> (#[trigger] spec_fn_blocks(body, cx, blocks).unwrap().0[x]) is Some,
{
    let len = blocks.len() as int;
    let k = count_regular(blocks, len);
    let bs0 = nones(k as nat).push(Some(spec_init_block(body)));
    lemma_count_regular_mono(blocks, 0, len);
    assert forall|x: int| 0 <= x < bs0.len() && #[trigger] bs0[x] is None implies exists|b: int|
        0 <= b < blocks.len() && !blocks[b].is_cleanup && #[trigger] count_regular(blocks, b) == x by {
        lemma_regular_name_taken(blocks, x);
    }
    lemma_blocks_from_present(body, cx, blocks, len, bs0, spec_locals(cx, body));
}

/// Every number below the count of translated blocks names one of them.
proof fn lemma_regular_name_taken(blocks: Seq<RsBlock>, x: int)
    requires
        0 <= x < count_regular(blocks, blocks.len() as int),
    ensures
        exists|b: int| 0 <= b < blocks.len() && !blocks[b].is_cleanup && #[trigger] count_regular(blocks, b) == x,
{
    lemma_regular_name_taken_upto(blocks, x, blocks.len() as int);
}

proof fn lemma_regular_name_taken_upto(blocks: Seq<RsBlock>, x: int, i: int)
    requires
        0 <= i <= blocks.len(),
        0 <= x < count_regular(blocks, i),
    ensures
        exists|b: int| 0 <= b < i && !blocks[b].is_cleanup && #[trigger] count_regular(blocks, b) == x,
    decreases i,
{
    if i > 0 {
        if x < count_regular(blocks, i - 1) {
            lemma_regular_name_taken_upto(blocks, x, i - 1);
        } else {
            assert(!blocks[i - 1].is_cleanup && count_regular(blocks, i - 1) == x);
        }
    }
}

impl FnCtxt {
    /// Starts the translation of a body; the program context is handed on
    /// as it is.
    pub fn new(mir: RsMir, cx: Ctxt) -> (r: FnCtxt)
        requires
            cx.wf(),
            mir.body.local_tys@.len() < u32::MAX,
        ensures
            r.wf(),
            r.body == mir.body,
            r.mir_blocks == mir.blocks,
            r.cx == cx,
            r.bb_name_map@.len() == 0,
            r.next_bb == 0,
            r.locals@.len() == 0,
            r.blocks@.len() == 0,
    {
        let RsMir { blocks, body } = mir;
        FnCtxt {
            body,
            mir_blocks: blocks,
            cx,
            bb_name_map: Vec::new(),
            next_bb: 0,
            locals: Vec::new(),
            blocks: Vec::new(),
        }
    }

    /// Translates the body. First every function and allocation that its
    /// blocks refer to is named (the functions it calls are added to the
    /// program's names here, to be translated in turn); then its blocks are
    /// named, the types of its locals translated, the entry block added, and
    /// every block that is no cleanup block translated, in order. Returns the
    /// function and the program context.
    pub fn translate(self) -> (r: (Function, Ctxt))
        requires
            self.wf(),
            self.bb_name_map@.len() == 0,
            self.next_bb == 0,
            self.locals@.len() == 0,
            self.blocks@.len() == 0,
            self.cx.fn_names@.len() + stmt_count(self.mir_blocks@, self.mir_blocks@.len() as int) + self.mir_blocks@.len() + 1
                < u32::MAX,
            translatable_once_named(self.body, self.cx, self.mir_blocks@),
            self.cx.refs_closed(),
        ensures
            interned(self.cx, r.1),
            r.1.wf(),
            r.1.refs_closed(),
            fn_blocks_refs(r.0.blocks@, r.1.fn_names@.len() as int),
            body_keys_in(self.body, r.1, self.mir_blocks@),
            forall|i: int|
                self.cx.fn_names@.len() <= i < r.1.fn_names@.len() ==> body_fn_key(self.mir_blocks@, #[trigger] r.1.fn_names@[i]),
            grown(
                r.1.allocs@,
                r.1.alloc_names@,
                self.cx.alloc_names@.len() as int,
                Set::new(|k: AllocKey| body_alloc_key(self.mir_blocks@, k)),
            ),
            ({
                let s = spec_fn_blocks(self.body, r.1, self.mir_blocks@).unwrap();
                &&& r.0.blocks@ == s.0
                &&& r.0.locals@ == s.1
            }),
            r.0.args == spec_args(self.body.arg_count as nat),
            r.0.ret == LocalName(0),
            r.0.start == BbName(count_regular(self.mir_blocks@, self.mir_blocks@.len() as int) as u32),
            r.0.calling_convention == spec_calling_convention(self.body.conv),
            fn_blocks_below(r.0.blocks@, r.0.blocks@.len() as int),
    {
        let ghost old_cx = self.cx;
        let mut fx = self;
        fx.cx.intern_body(&fx.body, &fx.mir_blocks);
        proof {
            assert(translatable(fx.body, fx.cx, fx.mir_blocks@));
        }
        let ghost (body, blocks) = (fx.body, fx.mir_blocks@);
        let r = fx.translate_named();
        proof {
            law_jump_targets_exist(body, r.1, blocks);
            law_fn_refs_named(body, r.1, blocks);
            lemma_refs_closed_grows(old_cx, r.1);
        }
        r
    }

    /// Translates a body whose names are all given: names its blocks,
    /// translates the types of its locals, adds the entry block, and
    /// translates every block that is no cleanup block, in order.
    fn translate_named(self) -> (r: (Function, Ctxt))
        requires
            self.wf(),
            self.bb_name_map@.len() == 0,
            self.next_bb == 0,
            self.locals@.len() == 0,
            self.blocks@.len() == 0,
            body_keys_in(self.body, self.cx, self.mir_blocks@),
            translatable(self.body, self.cx, self.mir_blocks@),
        ensures
            r.1 == self.cx,
            ({
                let s = spec_fn_blocks(self.body, self.cx, self.mir_blocks@).unwrap();
                &&& r.0.blocks@ == s.0
                &&& r.0.locals@ == s.1
            }),
            r.0.args == spec_args(self.body.arg_count as nat),
            r.0.ret == LocalName(0),
            r.0.start == BbName(count_regular(self.mir_blocks@, self.mir_blocks@.len() as int) as u32),
            r.0.calling_convention == spec_calling_convention(self.body.conv),
            r.0.blocks@.len() < u32::MAX,
    {
        let mut fx = self;
        let mut mir_blocks: Vec<RsBlock> = Vec::new();
        std::mem::swap(&mut mir_blocks, &mut fx.mir_blocks);
        let ghost blocks = mir_blocks@;
        let ghost len = blocks.len() as int;
        let ghost bbs = spec_bb_names(blocks);
        let ghost body = fx.body;
        let ghost cx = fx.cx;
        let ghost k = count_regular(blocks, len);
        proof {
            lemma_count_regular_mono(blocks, 0, len);
            lemma_stmt_count_mono(blocks, 0, len);
        }

        // Name the blocks; cleanup blocks are not translated and get none.
        let mut b: usize = 0;
        while b < mir_blocks.len()
            invariant
                fx.wf(),
                fx.body == body,
                fx.cx == cx,
                fx.locals@.len() == 0,
                mir_blocks@ == blocks,
                len == blocks.len(),
                bbs == spec_bb_names(blocks),
                b <= len,
                len + 8 < u32::MAX,
                fx.bb_name_map@ == bbs.subrange(0, b as int),
                fx.next_bb == count_regular(blocks, b as int),
                fx.blocks@ == nones(count_regular(blocks, b as int) as nat),
            decreases len - b,
        {
            proof {
                lemma_count_regular_mono(blocks, 0, b as int);
                lemma_count_regular_mono(blocks, b as int, b + 1);
            }
            if mir_blocks[b].is_cleanup {
                fx.bb_name_map.push(None);
            } else {
                let name = fx.fresh_bb_name();
                fx.bb_name_map.push(Some(name));
            }
            b = b + 1;
            proof {
                assert(fx.bb_name_map@ =~= bbs.subrange(0, b as int));
                assert(fx.blocks@ =~= nones(count_regular(blocks, b as int) as nat));
            }
        }
        proof {
            assert(bbs.subrange(0, len) =~= bbs);
        }

        // The types of the locals; local `i` is named `LocalName(i)`.
        let mut i: usize = 0;
        while i < fx.body.local_tys.len()
            invariant
                fx.wf(),
                fx.body == body,
                fx.cx == cx,
                fx.bb_name_map@ == bbs,
                fx.next_bb == k,
                fx.blocks@ == nones(k as nat),
                translatable(body, cx, blocks),
                i <= body.local_tys@.len(),
                fx.locals@ == spec_locals(cx, body).subrange(0, i as int),
            decreases body.local_tys@.len() - i,
        {
            let ty = fx.cx.translate_ty(fx.body.local_tys[i]);
            let _ = fx.fresh_local(ty);
            i = i + 1;
            proof {
                assert(fx.locals@ =~= spec_locals(cx, body).subrange(0, i as int));
            }
        }
        proof {
            assert(spec_locals(cx, body).subrange(0, body.local_tys@.len() as int) =~= spec_locals(cx, body));
        }

        // The entry block makes the always-live locals live, but for the
        // return place and the arguments, which MiniRust makes live itself.
        let init_bb = fx.fresh_bb_name();
        let mut init_stmts: Vec<Statement> = Vec::new();
        let mut j: usize = 0;
        while j < fx.body.always_live.len()
            invariant
                fx.body == body,
                translatable(body, cx, blocks),
                j <= body.always_live@.len(),
                init_stmts@ == spec_init_stmts(body, j as int),
            decreases body.always_live@.len() - j,
        {
            let l = fx.body.always_live[j];
            if l >= fx.body.arg_count + 1 {
                init_stmts.push(Statement::StorageLive(LocalName(l as u32)));
            }
            j = j + 1;
            proof {
                assert(init_stmts@ =~= spec_init_stmts(body, j as int));
            }
        }
        let start = match fx.bb_name_map[0] {
            Some(name) => name,
            None => {
                proof { assert(false); }
                BbName(0)
            },
        };
        let init_blk = BasicBlock { statements: list_from_vec(init_stmts), terminator: Terminator::Goto(start), kind: BbKind::Regular };
        fx.insert_block(init_bb, init_blk);
        let ghost bs0 = nones(k as nat).push(Some(spec_init_block(body)));
        let ghost ls0 = spec_locals(cx, body);
        proof {
            assert(fx.blocks@ =~= bs0);
            assert forall|x: int| 0 <= x < len && !blocks[x].is_cleanup implies fx.blocks@[count_regular(blocks, x)] is None by {
                lemma_count_regular_mono(blocks, x, len);
                lemma_count_regular_mono(blocks, 0, x);
            }
        }

        // Translate the blocks, in order.
        let mut b: usize = 0;
        while b < mir_blocks.len()
            invariant
                fx.wf(),
                fx.body == body,
                fx.cx == cx,
                fx.bb_name_map@ == bbs,
                mir_blocks@ == blocks,
                len == blocks.len(),
                bbs == spec_bb_names(blocks),
                k == count_regular(blocks, len),
                k <= len,
                b <= len,
                body_keys_in(body, cx, blocks),
                translatable(body, cx, blocks),
                bs0 == nones(k as nat).push(Some(spec_init_block(body))),
                ls0 == spec_locals(cx, body),
                spec_blocks_from(body, cx, blocks, b as int, bs0, ls0) == Some((fx.blocks@, fx.locals@)),
                k < fx.blocks@.len(),
                forall|x: int| b <= x < len && !blocks[x].is_cleanup ==> fx.blocks@[count_regular(blocks, x)] is None,
                fx.next_bb <= k + 1 + stmt_count(blocks, b as int) + 5 * b,
                fx.locals@.len() <= body.local_tys@.len() + 5 * b,
                stmt_count(blocks, len) + 7 * len + 8 < u32::MAX,
                body.local_tys@.len() + 5 * len + 16 < u32::MAX,
            decreases len - b,
        {
            proof {
                lemma_stmt_count_mono(blocks, b + 1, len);
                lemma_blocks_from_prefix(body, cx, blocks, len, b + 1, bs0, ls0);
                lemma_count_regular_mono(blocks, b as int, len);
                lemma_count_regular_mono(blocks, 0, b as int);
            }
            let ghost before = fx.blocks@;
            if !mir_blocks[b].is_cleanup {
                let name = match fx.bb_name_map[b] {
                    Some(name) => name,
                    None => {
                        proof { assert(false); }
                        BbName(0)
                    },
                };
                fx.translate_bb(name, &mir_blocks[b]);
                proof {
                    assert forall|x: int| b + 1 <= x < len && !blocks[x].is_cleanup implies fx.blocks@[count_regular(blocks, x)] is None by {
                        lemma_count_regular_mono(blocks, b as int, x);
                        lemma_count_regular_mono(blocks, x, len);
                    }
                }
            }
            b = b + 1;
        }

        // Local 0 is the return place, locals `1..=arg_count` are the arguments.
        let mut args: Vec<LocalName> = Vec::new();
        let mut i: usize = 0;
        while i < fx.body.arg_count
            invariant
                fx.body == body,
                translatable(body, cx, blocks),
                i <= body.arg_count,
                args@ == Seq::new(i as nat, |j: int| LocalName((j + 1) as u32)),
            decreases body.arg_count - i,
        {
            args.push(LocalName((i + 1) as u32));
            i = i + 1;
            proof {
                assert(args@ =~= Seq::new(i as nat, |j: int| LocalName((j + 1) as u32)));
            }
        }
        let calling_convention = translate_calling_convention(fx.body.conv);
        let FnCtxt { locals, blocks: fn_blocks, cx: fn_cx, .. } = fx;
        let f = Function {
            locals,
            args: list_from_vec(args),
            ret: LocalName(0),
            blocks: fn_blocks,
            start: init_bb,
            calling_convention,
        };
        (f, fn_cx)
    }
}

} // verus!
