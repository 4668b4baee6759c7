//! The variables a piece of code reads.

use crate::blocks::{Block, BlockView};
use crate::ir::{clone_names, Instruction, InstructionView};
use crate::names::NameSet;
use vstd::prelude::*;

verus! {

/// The names that some instruction of `instrs` reads.
pub open spec fn reads_of(instrs: Seq<InstructionView>) -> Set<Seq<char>> {
    Set::new(
        |name: Seq<char>|
            exists|i: int| 0 <= i < instrs.len() && (#[trigger] instrs[i]).reads(name),
    )
}

/// The names that some instruction of some block reads: an argument of a
/// value or an effect instruction, anywhere in `blocks`.
pub open spec fn used_vars(blocks: Seq<BlockView>) -> Set<Seq<char>> {
    Set::new(
        |name: Seq<char>|
            exists|b: int|
                0 <= b < blocks.len() && reads_of((#[trigger] blocks[b]).instrs).contains(name),
    )
}

proof fn lemma_names_step(names: Seq<Seq<char>>, a: int)
    requires
        0 <= a < names.len(),
    ensures
        names.take(a + 1).to_set() == names.take(a).to_set().insert(names[a]),
{
    let shorter = names.take(a);
    let longer = names.take(a + 1);
    assert forall|n: Seq<char>| longer.contains(n) <==> (shorter.contains(n) || n == names[a]) by {
        if longer.contains(n) {
            let k = choose|k: int| 0 <= k < longer.len() && longer[k] == n;
            if k < a {
                assert(shorter[k] == n);
            }
        }
        if shorter.contains(n) {
            let k = choose|k: int| 0 <= k < shorter.len() && shorter[k] == n;
            assert(longer[k] == n);
        }
        if n == names[a] {
            assert(longer[a] == n);
        }
    }
    assert(longer.to_set() =~= shorter.to_set().insert(names[a]));
}

proof fn lemma_reads_step(instrs: Seq<InstructionView>, i: int)
    requires
        0 <= i < instrs.len(),
    ensures
        reads_of(instrs.take(i + 1)) == reads_of(instrs.take(i)).union(instrs[i].args().to_set()),
{
    let shorter = instrs.take(i);
    let longer = instrs.take(i + 1);
    assert forall|n: Seq<char>|
        reads_of(longer).contains(n) <==> (reads_of(shorter).contains(n) || instrs[i].reads(
            n,
        )) by {
        if reads_of(longer).contains(n) {
            let k = choose|k: int| 0 <= k < longer.len() && (#[trigger] longer[k]).reads(n);
            if k < i {
                assert(shorter[k].reads(n));
            }
        }
        if reads_of(shorter).contains(n) {
            let k = choose|k: int| 0 <= k < shorter.len() && (#[trigger] shorter[k]).reads(n);
            assert(longer[k].reads(n));
        }
        if instrs[i].reads(n) {
            assert(longer[i].reads(n));
        }
    }
    assert(reads_of(longer) =~= reads_of(shorter).union(instrs[i].args().to_set()));
}

proof fn lemma_used_vars_step(blocks: Seq<BlockView>, b: int)
    requires
        0 <= b < blocks.len(),
    ensures
        used_vars(blocks.take(b + 1)) == used_vars(blocks.take(b)).union(
            reads_of(blocks[b].instrs),
        ),
{
    let shorter = blocks.take(b);
    let longer = blocks.take(b + 1);
    assert forall|n: Seq<char>|
        used_vars(longer).contains(n) <==> (used_vars(shorter).contains(n) || reads_of(
            blocks[b].instrs,
        ).contains(n)) by {
        if used_vars(longer).contains(n) {
            let k = choose|k: int|
                0 <= k < longer.len() && reads_of((#[trigger] longer[k]).instrs).contains(n);
            if k < b {
                assert(reads_of(shorter[k].instrs).contains(n));
            }
        }
        if used_vars(shorter).contains(n) {
            let k = choose|k: int|
                0 <= k < shorter.len() && reads_of((#[trigger] shorter[k]).instrs).contains(n);
            assert(reads_of(longer[k].instrs).contains(n));
        }
        if reads_of(blocks[b].instrs).contains(n) {
            assert(reads_of(longer[b].instrs).contains(n));
        }
    }
    assert(used_vars(longer) =~= used_vars(shorter).union(reads_of(blocks[b].instrs)));
}

/// The names `instr` reads, in order. A constant reads none.
pub fn get_args(instr: &Instruction) -> (args: Vec<String>)
    ensures
        args.deep_view() == instr@.args(),
{
    match instr {
        Instruction::Value { args, .. } => clone_names(args),
        Instruction::Effect { args, .. } => clone_names(args),
        _ => {
            let args: Vec<String> = Vec::new();
            assert(args.deep_view() =~= Seq::empty());
            args
        },
    }
}

/// The set of names read anywhere in `blocks`.
pub fn find_used(blocks: &Vec<Block>) -> (used: NameSet)
    ensures
        used@ == used_vars(blocks.deep_view()),
{
    let ghost all = blocks.deep_view();
    let mut used = NameSet::new();
    let mut b: usize = 0;
    assert(used@ =~= used_vars(all.take(0)));
    while b < blocks.len()
        invariant
            b <= blocks.len(),
            all == blocks.deep_view(),
            used@ == used_vars(all.take(b as int)),
        decreases blocks.len() - b,
    {
        let block = &blocks[b];
        let ghost body = all[b as int].instrs;
        let ghost before_block = used@;
        let mut i: usize = 0;
        assert(used@ =~= before_block.union(reads_of(body.take(0))));
        while i < block.instrs.len()
            invariant
                i <= block.instrs.len(),
                body == block.instrs.deep_view(),
                used@ == before_block.union(reads_of(body.take(i as int))),
            decreases block.instrs.len() - i,
        {
            let args = get_args(&block.instrs[i]);
            let ghost names = args.deep_view();
            let ghost before_instr = used@;
            assert(used@ =~= before_instr.union(names.take(0).to_set()));
            for name in it: args
                invariant
                    it.seq().len() == names.len(),
                    forall|a: int| 0 <= a < names.len() ==> (#[trigger] it.seq()[a])@ == names[a],
                    used@ == before_instr.union(names.take(it.index()).to_set()),
            {
                proof {
                    lemma_names_step(names, it.index());
                }
                used.insert(name);
                assert(used@ =~= before_instr.union(names.take(it.index() + 1).to_set()));
            }
            proof {
                assert(names.take(names.len() as int) =~= names);
                lemma_reads_step(body, i as int);
                assert(used@ =~= before_block.union(reads_of(body.take(i + 1))));
            }
            i += 1;
        }
        proof {
            assert(body.take(body.len() as int) =~= body);
            lemma_used_vars_step(all, b as int);
        }
        b += 1;
    }
    assert(all.take(all.len() as int) =~= all);
    used
}

} // verus!
