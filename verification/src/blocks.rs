//! Basic blocks: partitioning a function body, and putting it back together.

use crate::ir::{Code, CodeView, EffectOps, Function, Instruction, InstructionView};
use vstd::prelude::*;

verus! {

/// A basic block: an optional leading label and a run of instructions.
#[derive(Debug, PartialEq, Eq)]
pub struct Block {
    pub label: Option<String>,
    pub instrs: Vec<Instruction>,
}

/// The model of a [`Block`].
#[verifier::ext_equal]
pub struct BlockView {
    pub label: Option<Seq<char>>,
    pub instrs: Seq<InstructionView>,
}

impl BlockView {
    /// The block without a label and without instructions.
    pub open spec fn empty() -> BlockView {
        BlockView { label: None, instrs: Seq::empty() }
    }

    /// Whether the block holds neither a label nor an instruction.
    pub open spec fn is_empty(self) -> bool {
        self.label is None && self.instrs.len() == 0
    }

    /// A terminator, where the block has one, is its last instruction, and
    /// so its only one.
    pub open spec fn well_formed(self) -> bool {
        forall|i: int|
            0 <= i < self.instrs.len() - 1 ==> !(#[trigger] self.instrs[i]).is_terminator()
    }

    /// The code items the block stands for: its label, where it has one,
    /// then its instructions.
    pub open spec fn code(self) -> Seq<CodeView> {
        let body = self.instrs.map_values(|instr: InstructionView| CodeView::Instruction(instr));
        match self.label {
            Some(label) => seq![CodeView::Label { label }] + body,
            None => body,
        }
    }
}

impl View for Block {
    type V = BlockView;

    open spec fn view(&self) -> BlockView {
        BlockView { label: self.label.deep_view(), instrs: self.instrs.deep_view() }
    }
}

impl DeepView for Block {
    type V = BlockView;

    open spec fn deep_view(&self) -> BlockView {
        self.view()
    }
}

impl Clone for Block {
    fn clone(&self) -> (copy: Self)
        ensures
            copy@ == self@,
    {
        let copy = Block { label: self.label.clone(), instrs: self.instrs.clone() };
        assert(copy@.instrs =~= self@.instrs);
        assert(copy@.label == self@.label);
        copy
    }
}

impl Default for Block {
    fn default() -> (block: Self)
        ensures
            block@ == BlockView::empty(),
    {
        let block = Block { label: None, instrs: Vec::new() };
        assert(block@.instrs =~= Seq::empty());
        block
    }
}

/// The state of a left-to-right scan over a function body: the blocks that
/// are closed, and the block that is still growing.
pub struct Scan {
    pub done: Seq<BlockView>,
    pub current: BlockView,
}

/// The scan state after one more code item.
///
/// A label closes the growing block, even an empty one, and opens a block
/// that carries the label. An instruction joins the growing block; a
/// terminator then closes it and opens an empty, unlabeled one.
pub open spec fn scan_step(state: Scan, item: CodeView) -> Scan {
    match item {
        CodeView::Label { label } => Scan {
            done: state.done.push(state.current),
            current: BlockView { label: Some(label), instrs: Seq::empty() },
        },
        CodeView::Instruction(instr) => {
            let grown = BlockView {
                label: state.current.label,
                instrs: state.current.instrs.push(instr),
            };
            if instr.is_terminator() {
                Scan { done: state.done.push(grown), current: BlockView::empty() }
            } else {
                Scan { done: state.done, current: grown }
            }
        },
    }
}

/// The scan state after all of `code`, as a fold of [`scan_step`] from the
/// empty state.
pub open spec fn scan(code: Seq<CodeView>) -> Scan
    decreases code.len(),
{
    if code.len() == 0 {
        Scan { done: Seq::empty(), current: BlockView::empty() }
    } else {
        scan_step(scan(code.drop_last()), code.last())
    }
}

/// The basic blocks of `code`: the blocks the scan closed, followed by the
/// block that was still growing at the end unless that block is empty.
pub open spec fn partition(code: Seq<CodeView>) -> Seq<BlockView> {
    let state = scan(code);
    if state.current.is_empty() {
        state.done
    } else {
        state.done.push(state.current)
    }
}

/// The code a sequence of blocks stands for: the code of each block, in
/// order.
pub open spec fn flatten(blocks: Seq<BlockView>) -> Seq<CodeView>
    decreases blocks.len(),
{
    if blocks.len() == 0 {
        Seq::empty()
    } else {
        flatten(blocks.drop_last()) + blocks.last().code()
    }
}

proof fn lemma_scan_invariant(code: Seq<CodeView>)
    ensures
        forall|b: int|
            0 <= b < scan(code).done.len() ==> (#[trigger] scan(code).done[b]).well_formed(),
        forall|i: int|
            0 <= i < scan(code).current.instrs.len() ==> !(#[trigger] scan(
                code,
            ).current.instrs[i]).is_terminator(),
        flatten(scan(code).done) + scan(code).current.code() == code,
    decreases code.len(),
{
    if code.len() == 0 {
        assert(flatten(scan(code).done) + scan(code).current.code() =~= code);
    } else {
        let before = scan(code.drop_last());
        let after = scan(code);
        lemma_scan_invariant(code.drop_last());
        assert(code =~= code.drop_last().push(code.last()));
        match code.last() {
            CodeView::Label { label } => {
                assert(after.done.drop_last() =~= before.done);
                assert(flatten(after.done) + after.current.code() =~= code);
            },
            CodeView::Instruction(instr) => {
                let grown = BlockView {
                    label: before.current.label,
                    instrs: before.current.instrs.push(instr),
                };
                assert(grown.code() =~= before.current.code().push(code.last()));
                if instr.is_terminator() {
                    assert(after.done.drop_last() =~= before.done);
                    assert(grown.well_formed());
                    assert(flatten(after.done) + after.current.code() =~= code);
                } else {
                    assert(flatten(after.done) + after.current.code() =~= code);
                }
            },
        }
    }
}

/// In every block of a partition a terminator, if there is one, comes last
/// and is the only one.
pub proof fn partition_blocks_are_well_formed(code: Seq<CodeView>)
    ensures
        forall|b: int|
            0 <= b < partition(code).len() ==> (#[trigger] partition(code)[b]).well_formed(),
{
    lemma_scan_invariant(code);
}

/// A partition loses nothing: the code of its blocks, labels put back in
/// front of the blocks that carry them, is the code it was made from.
pub proof fn partition_is_lossless(code: Seq<CodeView>)
    ensures
        flatten(partition(code)) == code,
{
    lemma_scan_invariant(code);
    let state = scan(code);
    if state.current.is_empty() {
        assert(state.current.code() =~= Seq::empty());
        assert(flatten(state.done) + state.current.code() =~= flatten(state.done));
    } else {
        assert(state.done.push(state.current).drop_last() =~= state.done);
    }
}

/// Whether `instr` ends a basic block: a jump, a branch or a return.
pub fn is_terminator(instr: &Instruction) -> (b: bool)
    ensures
        b == instr@.is_terminator(),
{
    match instr {
        Instruction::Effect { op, .. } => match op {
            EffectOps::Jump | EffectOps::Branch | EffectOps::Return => true,
            _ => false,
        },
        _ => false,
    }
}

/// Partitions `code` into basic blocks, in the order of the code.
pub(crate) fn into_blocks(code: Vec<Code>) -> (blocks: Vec<Block>)
    ensures
        blocks.deep_view() == partition(code.deep_view()),
{
    let ghost all = code.deep_view();
    let mut blocks: Vec<Block> = Vec::new();
    let mut label: Option<String> = None;
    let mut instrs: Vec<Instruction> = Vec::new();
    proof {
        assert(all.take(0) =~= Seq::empty());
        assert(blocks.deep_view() =~= Seq::empty());
        assert(instrs.deep_view() =~= Seq::empty());
    }
    for item in it: code
        invariant
            it.seq().len() == all.len(),
            forall|i: int| 0 <= i < all.len() ==> (#[trigger] it.seq()[i])@ == all[i],
            scan(all.take(it.index())) == (Scan {
                done: blocks.deep_view(),
                current: BlockView { label: label.deep_view(), instrs: instrs.deep_view() },
            }),
    {
        let ghost i = it.index();
        let ghost before = scan(all.take(i));
        let ghost done = blocks.deep_view();
        let ghost grown = instrs.deep_view();
        proof {
            assert(all.take(i + 1).drop_last() =~= all.take(i));
            assert(all.take(i + 1).last() == item@);
        }
        match item {
            Code::Label { label: name } => {
                blocks.push(Block { label, instrs });
                label = Some(name);
                instrs = Vec::new();
                proof {
                    assert(blocks.deep_view() =~= done.push(before.current));
                    assert(instrs.deep_view() =~= Seq::empty());
                }
            },
            Code::Instruction(instr) => {
                let ends_block = is_terminator(&instr);
                let ghost added = instr@;
                instrs.push(instr);
                proof {
                    assert(instrs.deep_view() =~= grown.push(added));
                }
                if ends_block {
                    let ghost closed = BlockView {
                        label: label.deep_view(),
                        instrs: instrs.deep_view(),
                    };
                    blocks.push(Block { label, instrs });
                    label = None;
                    instrs = Vec::new();
                    proof {
                        assert(blocks.deep_view() =~= done.push(closed));
                        assert(instrs.deep_view() =~= Seq::empty());
                    }
                }
            },
        }
    }
    proof {
        assert(all.take(all.len() as int) =~= all);
    }
    if label.is_some() || instrs.len() > 0 {
        let ghost done = blocks.deep_view();
        let ghost last = BlockView { label: label.deep_view(), instrs: instrs.deep_view() };
        blocks.push(Block { label, instrs });
        proof {
            assert(blocks.deep_view() =~= done.push(last));
        }
    }
    blocks
}

/// Partitions the body of `func` into basic blocks, in the order of the
/// body.
///
/// A label closes the block before it and opens a block of its own; a jump,
/// a branch or a return closes the block it stands in. A body that begins
/// with a label therefore yields an empty, unlabeled first block, and so
/// does a label that follows a terminator. What is left open at the end of
/// the body is a block too, unless it holds neither a label nor an
/// instruction. Nothing is checked and nothing is dropped: the blocks put
/// back together are the body.
pub fn form_blocks(func: &Function) -> (blocks: Vec<Block>)
    ensures
        blocks.deep_view() == partition(func.code()),
        forall|b: int|
            0 <= b < blocks.len() ==> (#[trigger] blocks.deep_view()[b]).well_formed(),
        flatten(blocks.deep_view()) == func.code(),
{
    let code = func.instrs.clone();
    proof {
        assert(code.deep_view() =~= func.instrs.deep_view());
        partition_blocks_are_well_formed(func.code());
        partition_is_lossless(func.code());
    }
    into_blocks(code)
}

/// Puts a sequence of blocks back together as one body: each block's label,
/// where it has one, then its instructions.
pub fn flatten_blocks(blocks: Vec<Block>) -> (code: Vec<Code>)
    ensures
        code.deep_view() == flatten(blocks.deep_view()),
{
    let ghost all = blocks.deep_view();
    let mut code: Vec<Code> = Vec::new();
    assert(code.deep_view() =~= flatten(all.take(0)));
    for block in it: blocks
        invariant
            it.seq().len() == all.len(),
            forall|b: int| 0 <= b < all.len() ==> (#[trigger] it.seq()[b])@ == all[b],
            code.deep_view() == flatten(all.take(it.index())),
    {
        let ghost b = it.index();
        let ghost so_far = code.deep_view();
        let Block { label, instrs } = block;
        if let Some(name) = label {
            code.push(Code::Label { label: name });
        }
        let ghost with_label = code.deep_view();
        let ghost body = all[b].instrs;
        proof {
            assert(body.take(0) =~= Seq::empty());
            assert(code.deep_view() =~= with_label + body.take(0).map_values(
                |instr: InstructionView| CodeView::Instruction(instr),
            ));
        }
        for instr in inner: instrs
            invariant
                inner.seq().len() == body.len(),
                forall|i: int| 0 <= i < body.len() ==> (#[trigger] inner.seq()[i])@ == body[i],
                code.deep_view() == with_label + body.take(inner.index()).map_values(
                    |instr: InstructionView| CodeView::Instruction(instr),
                ),
        {
            let ghost i = inner.index();
            let ghost so_far = code.deep_view();
            code.push(Code::Instruction(instr));
            proof {
                assert(body.take(i + 1) =~= body.take(i).push(body[i]));
                assert(code.deep_view() =~= so_far.push(CodeView::Instruction(body[i])));
                assert(code.deep_view() =~= with_label + body.take(i + 1).map_values(
                    |instr: InstructionView| CodeView::Instruction(instr),
                ));
            }
        }
        proof {
            assert(body.take(body.len() as int) =~= body);
        }
        proof {
            assert(all.take(b + 1).drop_last() =~= all.take(b));
            assert(code.deep_view() =~= so_far + all[b].code());
        }
    }
    proof {
        assert(all.take(all.len() as int) =~= all);
    }
    code
}

} // verus!
