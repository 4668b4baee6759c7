//! Basic-block construction and dead-code elimination for a small
//! three-address intermediate representation.
//!
//! The crate partitions a function's flat instruction stream into basic
//! blocks, collects the variables that are read anywhere in a function,
//! removes definitions that are provably never observed, and renders single
//! instructions as text. Every function carries a contract over the
//! mathematical model of its data, and Verus proves each of them.

pub mod blocks;
pub mod dce;
pub mod fixpoint;
pub mod ir;
pub mod names;
pub mod render;
pub mod subseq;
pub mod uses;

pub use blocks::{flatten_blocks, form_blocks, is_terminator, Block, BlockView};
pub use dce::local_dce;
pub use fixpoint::{dce_function, global_dce, trivial_dce};
pub use ir::{
    Argument, Code, CodeView, EffectOps, Function, Instruction, InstructionView, Literal, Program,
    Type, ValueOps,
};
pub use names::NameSet;
pub use render::{
    format_args, format_funcs, format_labels, format_rhs, instr_to_txt, int_to_string,
};
pub use uses::{find_used, get_args};
