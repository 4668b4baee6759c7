//! Dead-code elimination on whole functions and programs: a single pass on
//! a function's body, and passes repeated until one removes nothing.

use crate::blocks::{
    flatten, flatten_blocks, into_blocks, partition, partition_is_lossless, BlockView,
};
use crate::dce::{
    block_after_pass, blocks_after_pass, blocks_pruned, effects_of, instr_count, local_dce,
    pass_keeps_effects, pass_only_removes, pass_removes_or_halts,
};
use crate::subseq::{
    is_subsequence, lemma_subsequence_concat, lemma_subsequence_map, lemma_subsequence_refl,
    lemma_subsequence_trans,
};
use crate::ir::{Code, CodeView, Function, InstructionView, Program};
use crate::uses::used_vars;
use vstd::prelude::*;

verus! {

/// A function body after one pass: its blocks are formed, the pass runs over
/// them, and the blocks that come out are put back together.
pub open spec fn code_after_pass(code: Seq<CodeView>) -> Seq<CodeView> {
    flatten(blocks_after_pass(partition(code)))
}

/// A function body after as many passes as it takes for one to remove
/// nothing.
pub open spec fn code_at_fixpoint(code: Seq<CodeView>) -> Seq<CodeView>
    decreases code.len(),
{
    let next = code_after_pass(code);
    if next.len() < code.len() {
        code_at_fixpoint(next)
    } else {
        code
    }
}

proof fn lemma_flatten_len(blocks: Seq<BlockView>, used: Set<Seq<char>>)
    ensures
        instr_count(blocks) <= flatten(blocks).len(),
        flatten(blocks_pruned(blocks, used)).len() - instr_count(blocks_pruned(blocks, used))
            == flatten(blocks).len() - instr_count(blocks),
    decreases blocks.len(),
{
    let pruned = blocks_pruned(blocks, used);
    if blocks.len() > 0 {
        lemma_flatten_len(blocks.drop_last(), used);
        assert(pruned.drop_last() =~= blocks_pruned(blocks.drop_last(), used));
    }
}

/// A pass on a body removes as many code items as it removes instructions
/// from the body's blocks, and a body has room for its blocks' instructions.
proof fn lemma_pass_len(code: Seq<CodeView>)
    ensures
        instr_count(partition(code)) <= code.len(),
        code.len() - code_after_pass(code).len() == instr_count(partition(code)) - instr_count(
            blocks_after_pass(partition(code)),
        ),
{
    partition_is_lossless(code);
    lemma_flatten_len(partition(code), used_vars(partition(code)));
}

/// A pass on a function body either removes nothing, and then leaves the
/// body as it was, or leaves a strictly shorter body.
pub proof fn code_pass_removes_or_halts(code: Seq<CodeView>)
    ensures
        code_after_pass(code).len() <= code.len(),
        code_after_pass(code).len() == code.len() ==> code_after_pass(code) == code,
{
    lemma_pass_len(code);
    pass_removes_or_halts(partition(code));
    partition_is_lossless(code);
}

/// A body at its fixed point stays there: one more pass removes nothing,
/// and running the passes to the fixed point again changes nothing.
pub proof fn fixpoint_is_idempotent(code: Seq<CodeView>)
    ensures
        code_after_pass(code_at_fixpoint(code)) == code_at_fixpoint(code),
        code_at_fixpoint(code_at_fixpoint(code)) == code_at_fixpoint(code),
        code_at_fixpoint(code).len() <= code.len(),
    decreases code.len(),
{
    let next = code_after_pass(code);
    code_pass_removes_or_halts(code);
    if next.len() < code.len() {
        fixpoint_is_idempotent(next);
    }
}

/// Whether a pass must leave `item` in place: a label or an effect
/// instruction.
pub open spec fn is_fixed_item(item: CodeView) -> bool {
    match item {
        CodeView::Label { .. } => true,
        CodeView::Instruction(instr) => instr is Effect,
    }
}

/// The labels and effect instructions of a body, in order.
pub open spec fn skeleton(code: Seq<CodeView>) -> Seq<CodeView> {
    code.filter(|item: CodeView| is_fixed_item(item))
}

proof fn lemma_body_skeleton(instrs: Seq<InstructionView>)
    ensures
        skeleton(instrs.map_values(|instr: InstructionView| CodeView::Instruction(instr)))
            == effects_of(instrs).map_values(|instr: InstructionView| CodeView::Instruction(instr)),
    decreases instrs.len(),
{
    reveal(Seq::filter);
    let wrap = |instr: InstructionView| CodeView::Instruction(instr);
    if instrs.len() > 0 {
        lemma_body_skeleton(instrs.drop_last());
        assert(instrs.map_values(wrap).drop_last() =~= instrs.drop_last().map_values(wrap));
        assert(skeleton(instrs.map_values(wrap)) =~= effects_of(instrs).map_values(wrap));
    } else {
        assert(skeleton(instrs.map_values(wrap)) =~= effects_of(instrs).map_values(wrap));
    }
}

proof fn lemma_block_skeleton(block: BlockView, used: Set<Seq<char>>)
    ensures
        skeleton(block_after_pass(block, used).code()) == skeleton(block.code()),
{
    let after = block_after_pass(block, used);
    let wrap = |instr: InstructionView| CodeView::Instruction(instr);
    let pred = |item: CodeView| is_fixed_item(item);
    pass_keeps_effects(block, used);
    lemma_body_skeleton(block.instrs);
    lemma_body_skeleton(after.instrs);
    match block.label {
        Some(label) => {
            let head = seq![CodeView::Label { label }];
            Seq::filter_distributes_over_add(head, block.instrs.map_values(wrap), pred);
            Seq::filter_distributes_over_add(head, after.instrs.map_values(wrap), pred);
        },
        None => {},
    }
}

proof fn lemma_flatten_skeleton(blocks: Seq<BlockView>, used: Set<Seq<char>>)
    ensures
        skeleton(flatten(blocks_pruned(blocks, used))) == skeleton(flatten(blocks)),
    decreases blocks.len(),
{
    let pruned = blocks_pruned(blocks, used);
    let pred = |item: CodeView| is_fixed_item(item);
    if blocks.len() > 0 {
        lemma_flatten_skeleton(blocks.drop_last(), used);
        lemma_block_skeleton(blocks.last(), used);
        assert(pruned.drop_last() =~= blocks_pruned(blocks.drop_last(), used));
        Seq::filter_distributes_over_add(flatten(blocks.drop_last()), blocks.last().code(), pred);
        Seq::filter_distributes_over_add(flatten(pruned.drop_last()), pruned.last().code(), pred);
    }
}

/// A pass never removes a label or an effect instruction: those of the
/// body are the same before and after, one for one and in the same order.
pub proof fn code_pass_keeps_effects(code: Seq<CodeView>)
    ensures
        skeleton(code_after_pass(code)) == skeleton(code),
{
    partition_is_lossless(code);
    lemma_flatten_skeleton(partition(code), used_vars(partition(code)));
}

/// Passes run to the fixed point never remove a label or an effect
/// instruction.
pub proof fn fixpoint_keeps_effects(code: Seq<CodeView>)
    ensures
        skeleton(code_at_fixpoint(code)) == skeleton(code),
    decreases code.len(),
{
    let next = code_after_pass(code);
    code_pass_keeps_effects(code);
    if next.len() < code.len() {
        fixpoint_keeps_effects(next);
    }
}

proof fn lemma_flatten_subsequence(blocks: Seq<BlockView>, used: Set<Seq<char>>)
    ensures
        is_subsequence(flatten(blocks_pruned(blocks, used)), flatten(blocks)),
    decreases blocks.len(),
{
    let pruned = blocks_pruned(blocks, used);
    if blocks.len() > 0 {
        let before = blocks.last();
        let after = block_after_pass(before, used);
        let wrap = |instr: InstructionView| CodeView::Instruction(instr);
        lemma_flatten_subsequence(blocks.drop_last(), used);
        assert(pruned.drop_last() =~= blocks_pruned(blocks.drop_last(), used));
        pass_only_removes(before, used);
        lemma_subsequence_map(after.instrs, before.instrs, wrap);
        match before.label {
            Some(label) => {
                let head = seq![CodeView::Label { label }];
                lemma_subsequence_refl(head);
                lemma_subsequence_concat(
                    head,
                    head,
                    after.instrs.map_values(wrap),
                    before.instrs.map_values(wrap),
                );
            },
            None => {},
        }
        lemma_subsequence_concat(
            flatten(pruned.drop_last()),
            flatten(blocks.drop_last()),
            after.code(),
            before.code(),
        );
    }
}

/// A pass only removes: the body it leaves is the body it found, with some
/// instructions taken out and everything else in its order.
pub proof fn code_pass_only_removes(code: Seq<CodeView>)
    ensures
        is_subsequence(code_after_pass(code), code),
{
    partition_is_lossless(code);
    lemma_flatten_subsequence(partition(code), used_vars(partition(code)));
}

/// Passes run to the fixed point only remove.
pub proof fn fixpoint_only_removes(code: Seq<CodeView>)
    ensures
        is_subsequence(code_at_fixpoint(code), code),
    decreases code.len(),
{
    let next = code_after_pass(code);
    if next.len() < code.len() {
        fixpoint_only_removes(next);
        code_pass_only_removes(code);
        lemma_subsequence_trans(code_at_fixpoint(code), next, code);
    } else {
        lemma_subsequence_refl(code);
    }
}

/// Runs one pass of dead-code elimination on the body of `func`, and
/// returns the number of instructions it removed. Zero means that the body
/// is as it was.
pub fn trivial_dce(func: &mut Function) -> (removed: usize)
    ensures
        final(func).code() == code_after_pass(old(func).code()),
        final(func).name == old(func).name,
        final(func).args == old(func).args,
        final(func).return_type == old(func).return_type,
        removed == old(func).code().len() - final(func).code().len(),
        removed == 0 ==> final(func).code() == old(func).code(),
        skeleton(final(func).code()) == skeleton(old(func).code()),
        is_subsequence(final(func).code(), old(func).code()),
{
    let ghost code = func.code();
    proof {
        lemma_pass_len(code);
        code_pass_removes_or_halts(code);
        code_pass_keeps_effects(code);
        code_pass_only_removes(code);
        assert(code.len() == func.instrs.len());
    }
    let mut body: Vec<Code> = Vec::new();
    core::mem::swap(&mut func.instrs, &mut body);
    let (pruned, removed) = local_dce(into_blocks(body));
    func.instrs = flatten_blocks(pruned);
    removed
}

/// Runs passes of dead-code elimination on the body of `func` until one
/// removes nothing, and returns the number of instructions removed in all.
pub fn dce_function(func: &mut Function) -> (removed: usize)
    ensures
        final(func).code() == code_at_fixpoint(old(func).code()),
        final(func).name == old(func).name,
        final(func).args == old(func).args,
        final(func).return_type == old(func).return_type,
        removed == old(func).code().len() - final(func).code().len(),
        skeleton(final(func).code()) == skeleton(old(func).code()),
        is_subsequence(final(func).code(), old(func).code()),
        code_after_pass(final(func).code()) == final(func).code(),
{
    proof {
        fixpoint_keeps_effects(func.code());
        fixpoint_only_removes(func.code());
        fixpoint_is_idempotent(func.code());
    }
    let mut total: usize = 0;
    assert(func.code().len() == func.instrs.len());
    loop
        invariant
            old(func).code().len() <= usize::MAX,
            code_at_fixpoint(func.code()) == code_at_fixpoint(old(func).code()),
            func.name == old(func).name,
            func.args == old(func).args,
            func.return_type == old(func).return_type,
            func.code().len() <= old(func).code().len(),
            total == old(func).code().len() - func.code().len(),
        ensures
            func.code() == code_at_fixpoint(old(func).code()),
            func.name == old(func).name,
            func.args == old(func).args,
            func.return_type == old(func).return_type,
            total == old(func).code().len() - func.code().len(),
        decreases func.code().len(),
    {
        let ghost before = func.code();
        proof {
            code_pass_removes_or_halts(before);
        }
        let removed: usize = trivial_dce(func);
        if removed == 0 {
            break;
        }
        total = total + removed;
    }
    total
}

/// Runs dead-code elimination to its fixed point on every function of
/// `program`, each on its own.
pub fn global_dce(program: &mut Program)
    ensures
        final(program).functions.len() == old(program).functions.len(),
        forall|f: int|
            0 <= f < old(program).functions.len() ==> {
                let before = #[trigger] old(program).functions[f];
                let after = final(program).functions[f];
                &&& after.code() == code_at_fixpoint(before.code())
                &&& after.name == before.name
                &&& after.args == before.args
                &&& after.return_type == before.return_type
            },
{
    let mut f: usize = 0;
    while f < program.functions.len()
        invariant
            f <= program.functions.len(),
            program.functions.len() == old(program).functions.len(),
            forall|k: int|
                0 <= k < f ==> {
                    let before = #[trigger] old(program).functions[k];
                    let after = program.functions[k];
                    &&& after.code() == code_at_fixpoint(before.code())
                    &&& after.name == before.name
                    &&& after.args == before.args
                    &&& after.return_type == before.return_type
                },
            forall|k: int|
                f <= k < program.functions.len() ==> program.functions[k]
                    == #[trigger] old(program).functions[k],
        decreases program.functions.len() - f,
    {
        dce_function(&mut program.functions[f]);
        f += 1;
    }
}

} // verus!
