//! Dead-code elimination: one pass over a function's blocks, and the passes
//! repeated until nothing more can be removed.

use crate::blocks::{Block, BlockView};
use crate::ir::{Instruction, InstructionView};
use crate::names::NameSet;
use crate::subseq::{
    is_subsequence, keep_where, lemma_keep_where_agree, lemma_keep_where_filter,
    lemma_keep_where_is_subsequence, lemma_keep_where_len, lemma_keep_where_origin,
    lemma_subsequence_trans,
};
use crate::uses::{find_used, used_vars};
use vstd::prelude::*;

verus! {

/// Whether `instr` defines a variable that nothing in `used` reads.
pub open spec fn is_unused_def(instr: InstructionView, used: Set<Seq<char>>) -> bool {
    instr.dest() matches Some(dest) && !used.contains(dest)
}

/// `instrs` without the definitions of variables that are not in `used`.
pub open spec fn drop_unused(instrs: Seq<InstructionView>, used: Set<Seq<char>>) -> Seq<
    InstructionView,
> {
    keep_where(instrs, |i: int| !is_unused_def(instrs[i], used))
}

/// Whether `name` is defined again at or after position `from` before any
/// instruction from `from` on reads it.
pub open spec fn overwritten_unread(
    instrs: Seq<InstructionView>,
    from: int,
    name: Seq<char>,
) -> bool {
    exists|j: int|
        from <= j < instrs.len() && (#[trigger] instrs[j]).dest() == Some(name) && forall|k: int|
            from <= k <= j ==> !(#[trigger] instrs[k]).reads(name)
}

/// Whether the instruction at position `i` is a dead store: it defines a
/// variable that a later instruction of the same block defines again, with
/// no read of the variable after `i` up to and including that later
/// instruction.
pub open spec fn is_dead_store(instrs: Seq<InstructionView>, i: int) -> bool {
    instrs[i].dest() matches Some(dest) && overwritten_unread(instrs, i + 1, dest)
}

/// `instrs` without its dead stores.
pub open spec fn drop_dead_stores(instrs: Seq<InstructionView>) -> Seq<InstructionView> {
    keep_where(instrs, |i: int| !is_dead_store(instrs, i))
}

/// One pass over one block: first the definitions of variables outside
/// `used` go, then the dead stores among what is left.
pub open spec fn block_after_pass(block: BlockView, used: Set<Seq<char>>) -> BlockView {
    BlockView { label: block.label, instrs: drop_dead_stores(drop_unused(block.instrs, used)) }
}

/// Every block of `blocks` after one pass with the use set `used`.
pub open spec fn blocks_pruned(blocks: Seq<BlockView>, used: Set<Seq<char>>) -> Seq<BlockView> {
    blocks.map_values(|block: BlockView| block_after_pass(block, used))
}

/// One pass over a function's blocks, with the use set taken over all of
/// them before anything is removed.
pub open spec fn blocks_after_pass(blocks: Seq<BlockView>) -> Seq<BlockView> {
    blocks_pruned(blocks, used_vars(blocks))
}

/// The number of instructions in `blocks`.
pub open spec fn instr_count(blocks: Seq<BlockView>) -> nat
    decreases blocks.len(),
{
    if blocks.len() == 0 {
        0
    } else {
        instr_count(blocks.drop_last()) + blocks.last().instrs.len()
    }
}

/// Keeps the instructions whose flag in `keep` is set.
fn sweep(instrs: Vec<Instruction>, keep: &Vec<bool>) -> (kept: Vec<Instruction>)
    requires
        keep.len() == instrs.len(),
    ensures
        kept.deep_view() == keep_where(instrs.deep_view(), |i: int| keep@[i]),
{
    let ghost all = instrs.deep_view();
    let ghost flags = |i: int| keep@[i];
    let mut kept: Vec<Instruction> = Vec::new();
    let mut i: usize = 0;
    assert(kept.deep_view() =~= keep_where(all.take(0), flags));
    for instr in it: instrs
        invariant
            i == it.index(),
            it.seq().len() == all.len(),
            keep.len() == all.len(),
            flags == |i: int| keep@[i],
            forall|k: int| 0 <= k < all.len() ==> (#[trigger] it.seq()[k])@ == all[k],
            kept.deep_view() == keep_where(all.take(it.index()), flags),
    {
        let ghost so_far = kept.deep_view();
        proof {
            assert(all.take(i + 1).drop_last() =~= all.take(i as int));
        }
        if keep[i] {
            kept.push(instr);
            assert(kept.deep_view() =~= so_far.push(all[i as int]));
        }
        i += 1;
    }
    assert(all.take(all.len() as int) =~= all);
    kept
}

/// For each instruction, whether it stays when the definitions of unused
/// variables go.
fn mark_used(instrs: &Vec<Instruction>, used: &NameSet) -> (keep: Vec<bool>)
    ensures
        keep.len() == instrs.len(),
        forall|i: int|
            0 <= i < instrs.len() ==> keep[i] == !is_unused_def(
                #[trigger] instrs.deep_view()[i],
                used@,
            ),
{
    let mut keep: Vec<bool> = Vec::new();
    let mut i: usize = 0;
    while i < instrs.len()
        invariant
            i <= instrs.len(),
            keep.len() == i,
            forall|k: int|
                0 <= k < i ==> keep[k] == !is_unused_def(#[trigger] instrs.deep_view()[k], used@),
        decreases instrs.len() - i,
    {
        let live = match &instrs[i] {
            Instruction::Constant { dest, .. } => used.contains(dest),
            Instruction::Value { dest, .. } => used.contains(dest),
            Instruction::Effect { .. } => true,
        };
        assert(instrs.deep_view()[i as int] == instrs[i as int]@);
        keep.push(live);
        i += 1;
    }
    keep
}

/// The names that are defined again at or after position `from` before
/// they are read.
pub open spec fn shadowed_from(instrs: Seq<InstructionView>, from: int) -> Set<Seq<char>> {
    Set::new(|name: Seq<char>| overwritten_unread(instrs, from, name))
}

proof fn lemma_overwritten_step(instrs: Seq<InstructionView>, i: int, name: Seq<char>)
    requires
        0 <= i < instrs.len(),
    ensures
        overwritten_unread(instrs, i, name) == (!instrs[i].reads(name) && (instrs[i].dest() == Some(
            name,
        ) || overwritten_unread(instrs, i + 1, name))),
{
    if overwritten_unread(instrs, i, name) {
        let j = choose|j: int|
            i <= j < instrs.len() && (#[trigger] instrs[j]).dest() == Some(name) && forall|k: int|
                i <= k <= j ==> !(#[trigger] instrs[k]).reads(name);
        assert(!instrs[i].reads(name));
        if j > i {
            assert(instrs[j].dest() == Some(name));
            assert(overwritten_unread(instrs, i + 1, name));
        }
    }
    if !instrs[i].reads(name) && instrs[i].dest() == Some(name) {
        assert(forall|k: int| i <= k <= i ==> !(#[trigger] instrs[k]).reads(name));
        assert(overwritten_unread(instrs, i, name));
    }
    if !instrs[i].reads(name) && overwritten_unread(instrs, i + 1, name) {
        let j = choose|j: int|
            i + 1 <= j < instrs.len() && (#[trigger] instrs[j]).dest() == Some(name) && forall|
                k: int,
            |
                i + 1 <= k <= j ==> !(#[trigger] instrs[k]).reads(name);
        assert(instrs[j].dest() == Some(name));
        assert(forall|k: int| i <= k <= j ==> !(#[trigger] instrs[k]).reads(name));
        assert(overwritten_unread(instrs, i, name));
    }
}

proof fn lemma_shadowed_step(instrs: Seq<InstructionView>, i: int)
    requires
        0 <= i < instrs.len(),
    ensures
        shadowed_from(instrs, i) == (match instrs[i].dest() {
            Some(dest) => shadowed_from(instrs, i + 1).insert(dest),
            None => shadowed_from(instrs, i + 1),
        }).difference(instrs[i].args().to_set()),
{
    let rhs = (match instrs[i].dest() {
        Some(dest) => shadowed_from(instrs, i + 1).insert(dest),
        None => shadowed_from(instrs, i + 1),
    }).difference(instrs[i].args().to_set());
    assert forall|name: Seq<char>| shadowed_from(instrs, i).contains(name) == rhs.contains(
        name,
    ) by {
        lemma_overwritten_step(instrs, i, name);
    }
    assert(shadowed_from(instrs, i) =~= rhs);
}

/// For each instruction, whether it stays when the dead stores go.
fn mark_stores(instrs: &Vec<Instruction>) -> (keep: Vec<bool>)
    ensures
        keep.len() == instrs.len(),
        forall|i: int| 0 <= i < instrs.len() ==> keep[i] == !is_dead_store(instrs.deep_view(), i),
{
    let ghost all = instrs.deep_view();
    let n: usize = instrs.len();
    let mut keep: Vec<bool> = Vec::new();
    while keep.len() < n
        invariant
            keep.len() <= n,
        decreases n - keep.len(),
    {
        keep.push(true);
    }
    let mut shadowed = NameSet::new();
    let mut i: usize = n;
    assert(shadowed@ =~= shadowed_from(all, n as int));
    while i > 0
        invariant
            i <= n,
            n == instrs.len(),
            keep.len() == n,
            all == instrs.deep_view(),
            shadowed@ == shadowed_from(all, i as int),
            forall|k: int| i <= k < n ==> keep[k] == !is_dead_store(all, k),
        decreases i,
    {
        i -= 1;
        proof {
            lemma_shadowed_step(all, i as int);
            assert(all[i as int] == instrs[i as int]@);
        }
        match &instrs[i] {
            Instruction::Constant { dest, .. } => {
                let dead = shadowed.contains(dest);
                keep.set(i, !dead);
                shadowed.insert(dest.clone());
                assert(shadowed@ =~= shadowed_from(all, i as int));
            },
            Instruction::Value { dest, args, .. } => {
                let dead = shadowed.contains(dest);
                keep.set(i, !dead);
                shadowed.insert(dest.clone());
                shadowed.remove_all(args);
            },
            Instruction::Effect { args, .. } => {
                keep.set(i, true);
                shadowed.remove_all(args);
            },
        }
    }
    keep
}

/// One pass over one block.
fn prune_block(block: Block, used: &NameSet) -> (pruned: Block)
    ensures
        pruned@ == block_after_pass(block@, used@),
        pruned@.instrs.len() <= block@.instrs.len(),
{
    let Block { label, instrs } = block;
    let ghost all = instrs.deep_view();
    let keep = mark_used(&instrs, used);
    let instrs = sweep(instrs, &keep);
    let ghost live = instrs.deep_view();
    proof {
        lemma_keep_where_agree(all, |i: int| keep@[i], |i: int| !is_unused_def(all[i], used@));
        lemma_keep_where_len(all, |i: int| !is_unused_def(all[i], used@));
    }
    let keep = mark_stores(&instrs);
    let instrs = sweep(instrs, &keep);
    proof {
        lemma_keep_where_agree(live, |i: int| keep@[i], |i: int| !is_dead_store(live, i));
        lemma_keep_where_len(live, |i: int| !is_dead_store(live, i));
    }
    Block { label, instrs }
}

/// The effect instructions of `instrs`, in order.
pub open spec fn effects_of(instrs: Seq<InstructionView>) -> Seq<InstructionView> {
    instrs.filter(|instr: InstructionView| instr is Effect)
}

/// A pass never removes an effect instruction: the effect instructions of
/// a block are the same before and after, one for one and in the same
/// order, and so is the block's label. What the pass keeps it keeps in
/// order, so a block cannot grow.
pub proof fn pass_keeps_effects(block: BlockView, used: Set<Seq<char>>)
    ensures
        effects_of(block_after_pass(block, used).instrs) == effects_of(block.instrs),
        block_after_pass(block, used).label == block.label,
        block_after_pass(block, used).instrs.len() <= block.instrs.len(),
{
    let pred = |instr: InstructionView| instr is Effect;
    let live = drop_unused(block.instrs, used);
    lemma_keep_where_filter(block.instrs, |i: int| !is_unused_def(block.instrs[i], used), pred);
    lemma_keep_where_filter(live, |i: int| !is_dead_store(live, i), pred);
    lemma_keep_where_len(block.instrs, |i: int| !is_unused_def(block.instrs[i], used));
    lemma_keep_where_len(live, |i: int| !is_dead_store(live, i));
}

/// A pass only removes: what it leaves of a block is what it found, with
/// some instructions taken out and the others in their order.
pub proof fn pass_only_removes(block: BlockView, used: Set<Seq<char>>)
    ensures
        is_subsequence(block_after_pass(block, used).instrs, block.instrs),
{
    let live = drop_unused(block.instrs, used);
    lemma_keep_where_is_subsequence(block.instrs, |i: int| !is_unused_def(block.instrs[i], used));
    lemma_keep_where_is_subsequence(live, |i: int| !is_dead_store(live, i));
    lemma_subsequence_trans(block_after_pass(block, used).instrs, live, block.instrs);
}

/// A pass keeps a block well formed: where a terminator came last and
/// alone before the pass, it does so after it.
pub proof fn pass_keeps_well_formed(block: BlockView, used: Set<Seq<char>>)
    requires
        block.well_formed(),
    ensures
        block_after_pass(block, used).well_formed(),
{
    let live = drop_unused(block.instrs, used);
    let keep_used = |i: int| !is_unused_def(block.instrs[i], used);
    let keep_stores = |i: int| !is_dead_store(live, i);
    let out = block_after_pass(block, used).instrs;
    assert forall|i: int| 0 <= i < out.len() - 1 implies !(#[trigger] out[i]).is_terminator() by {
        let mid = lemma_keep_where_origin(live, keep_stores, i);
        let origin = lemma_keep_where_origin(block.instrs, keep_used, mid);
        assert(!block.instrs[origin].is_terminator());
    }
}

proof fn lemma_block_pass_len(block: BlockView, used: Set<Seq<char>>)
    ensures
        block_after_pass(block, used).instrs.len() <= block.instrs.len(),
        block_after_pass(block, used).instrs.len() == block.instrs.len() ==> block_after_pass(
            block,
            used,
        ) == block,
{
    let live = drop_unused(block.instrs, used);
    lemma_keep_where_len(block.instrs, |i: int| !is_unused_def(block.instrs[i], used));
    lemma_keep_where_len(live, |i: int| !is_dead_store(live, i));
}

proof fn lemma_pruned_count(blocks: Seq<BlockView>, used: Set<Seq<char>>)
    ensures
        instr_count(blocks_pruned(blocks, used)) <= instr_count(blocks),
        instr_count(blocks_pruned(blocks, used)) == instr_count(blocks) ==> blocks_pruned(
            blocks,
            used,
        ) == blocks,
    decreases blocks.len(),
{
    let pruned = blocks_pruned(blocks, used);
    if blocks.len() > 0 {
        lemma_pruned_count(blocks.drop_last(), used);
        lemma_block_pass_len(blocks.last(), used);
        assert(pruned.drop_last() =~= blocks_pruned(blocks.drop_last(), used));
        assert(pruned.last() == block_after_pass(blocks.last(), used));
        if instr_count(pruned) == instr_count(blocks) {
            assert(pruned =~= pruned.drop_last().push(pruned.last()));
            assert(blocks =~= blocks.drop_last().push(blocks.last()));
        }
    } else {
        assert(pruned =~= blocks);
    }
}

/// Each pass either removes nothing, and then leaves every block as it
/// was, or leaves strictly fewer instructions than it found.
pub proof fn pass_removes_or_halts(blocks: Seq<BlockView>)
    ensures
        instr_count(blocks_after_pass(blocks)) <= instr_count(blocks),
        instr_count(blocks_after_pass(blocks)) == instr_count(blocks) ==> blocks_after_pass(blocks)
            == blocks,
{
    lemma_pruned_count(blocks, used_vars(blocks));
}

proof fn lemma_instr_count_prefix(blocks: Seq<BlockView>, b: int)
    requires
        0 <= b <= blocks.len(),
    ensures
        instr_count(blocks.take(b)) <= instr_count(blocks),
        b < blocks.len() ==> instr_count(blocks.take(b + 1)) == instr_count(blocks.take(b))
            + blocks[b].instrs.len(),
    decreases blocks.len() - b,
{
    if b < blocks.len() {
        assert(blocks.take(b + 1).drop_last() =~= blocks.take(b));
        lemma_instr_count_prefix(blocks, b + 1);
    } else {
        assert(blocks.take(b) =~= blocks);
    }
}

/// One pass of dead-code elimination over the blocks of a function.
///
/// The use set is taken over all the blocks as they come in. In each block
/// the definitions of variables outside that set go first, then the dead
/// stores among what is left. Returns the blocks and the number of
/// instructions removed; zero means that nothing changed.
pub fn local_dce(blocks: Vec<Block>) -> (result: (Vec<Block>, usize))
    requires
        instr_count(blocks.deep_view()) <= usize::MAX,
    ensures
        result.0.deep_view() == blocks_after_pass(blocks.deep_view()),
        result.1 == instr_count(blocks.deep_view()) - instr_count(result.0.deep_view()),
        result.1 == 0 ==> result.0.deep_view() == blocks.deep_view(),
        result.0.len() == blocks.len(),
        forall|b: int|
            0 <= b < blocks.len() ==> {
                let before = #[trigger] blocks.deep_view()[b];
                let after = result.0.deep_view()[b];
                &&& after.label == before.label
                &&& effects_of(after.instrs) == effects_of(before.instrs)
                &&& before.well_formed() ==> after.well_formed()
            },
{
    let ghost all = blocks.deep_view();
    let ghost in_use = used_vars(all);
    let used = find_used(&blocks);
    let mut pruned: Vec<Block> = Vec::new();
    let mut removed: usize = 0;
    proof {
        assert(all.take(0) =~= Seq::empty());
        assert(pruned.deep_view() =~= blocks_pruned(all.take(0), in_use));
    }
    for block in it: blocks
        invariant
            it.seq().len() == all.len(),
            forall|b: int| 0 <= b < all.len() ==> (#[trigger] it.seq()[b])@ == all[b],
            used@ == in_use,
            instr_count(all) <= usize::MAX,
            pruned.deep_view() == blocks_pruned(all.take(it.index()), in_use),
            removed == instr_count(all.take(it.index())) - instr_count(pruned.deep_view()),
    {
        let ghost b = it.index();
        let ghost so_far = pruned.deep_view();
        let before: usize = block.instrs.len();
        let after_pass = prune_block(block, &used);
        let after: usize = after_pass.instrs.len();
        proof {
            lemma_instr_count_prefix(all, b);
            lemma_instr_count_prefix(all, b + 1);
            lemma_pruned_count(all.take(b), in_use);
            assert(all.take(b + 1).drop_last() =~= all.take(b));
            assert(blocks_pruned(all.take(b + 1), in_use) =~= so_far.push(after_pass@));
            assert(so_far.push(after_pass@).drop_last() =~= so_far);
        }
        removed = removed + (before - after);
        pruned.push(after_pass);
        proof {
            assert(pruned.deep_view() =~= so_far.push(after_pass@));
        }
    }
    proof {
        assert(all.take(all.len() as int) =~= all);
        pass_removes_or_halts(all);
        assert forall|b: int| 0 <= b < all.len() implies {
            let before = #[trigger] all[b];
            let after = pruned.deep_view()[b];
            &&& after.label == before.label
            &&& effects_of(after.instrs) == effects_of(before.instrs)
            &&& before.well_formed() ==> after.well_formed()
        } by {
            pass_keeps_effects(all[b], in_use);
            if all[b].well_formed() {
                pass_keeps_well_formed(all[b], in_use);
            }
        }
    }
    (pruned, removed)
}

} // verus!
