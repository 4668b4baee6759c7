//! The intermediate representation and its mathematical model.
//!
//! Executable values hold `String`s and `Vec`s; contracts speak about their
//! views, in which a name is a `Seq<char>` and a list is a `Seq`.

use vstd::prelude::*;

verus! {

/// The type a variable is declared with.
#[derive(Clone, Copy, Debug, PartialEq, Eq, Hash, Structural)]
pub enum Type {
    Int,
    Bool,
}

/// A literal value, as it appears in a constant instruction.
#[derive(Clone, Copy, Debug, PartialEq, Eq, Hash, Structural)]
pub enum Literal {
    Int(i64),
    Bool(bool),
}

/// Operators that produce a value.
#[derive(Clone, Copy, Debug, PartialEq, Eq, Hash, Structural)]
pub enum ValueOps {
    Add,
    Sub,
    Mul,
    Div,
    Eq,
    Lt,
    Gt,
    Le,
    Ge,
    Not,
    And,
    Or,
    Call,
    Id,
}

/// Operators that act without producing a value.
#[derive(Clone, Copy, Debug, PartialEq, Eq, Hash, Structural)]
pub enum EffectOps {
    Jump,
    Branch,
    Call,
    Return,
    Print,
    Nop,
}

impl EffectOps {
    /// A terminator transfers control: a jump, a branch or a return.
    pub open spec fn is_terminator(self) -> bool {
        self is Jump || self is Branch || self is Return
    }
}

/// One instruction.
#[allow(inconsistent_fields)]
#[derive(Debug, PartialEq, Eq)]
pub enum Instruction {
    /// Binds `dest` to a literal.
    Constant { dest: String, const_type: Type, value: Literal },
    /// Binds `dest` to the result of a pure operation.
    Value {
        dest: String,
        op_type: Type,
        op: ValueOps,
        args: Vec<String>,
        funcs: Vec<String>,
        labels: Vec<String>,
    },
    /// Acts on its arguments and binds nothing.
    Effect { op: EffectOps, args: Vec<String>, funcs: Vec<String>, labels: Vec<String> },
}

/// The model of an [`Instruction`].
#[allow(inconsistent_fields)]
#[verifier::ext_equal]
pub enum InstructionView {
    Constant { dest: Seq<char>, const_type: Type, value: Literal },
    Value {
        dest: Seq<char>,
        op_type: Type,
        op: ValueOps,
        args: Seq<Seq<char>>,
        funcs: Seq<Seq<char>>,
        labels: Seq<Seq<char>>,
    },
    Effect { op: EffectOps, args: Seq<Seq<char>>, funcs: Seq<Seq<char>>, labels: Seq<Seq<char>> },
}

impl InstructionView {
    /// The variable the instruction defines, if it defines one.
    pub open spec fn dest(self) -> Option<Seq<char>> {
        match self {
            InstructionView::Constant { dest, .. } => Some(dest),
            InstructionView::Value { dest, .. } => Some(dest),
            InstructionView::Effect { .. } => None,
        }
    }

    /// The variables the instruction reads, in order.
    pub open spec fn args(self) -> Seq<Seq<char>> {
        match self {
            InstructionView::Constant { .. } => Seq::empty(),
            InstructionView::Value { args, .. } => args,
            InstructionView::Effect { args, .. } => args,
        }
    }

    /// Whether the instruction reads the variable `name`.
    pub open spec fn reads(self, name: Seq<char>) -> bool {
        self.args().contains(name)
    }

    /// Whether the instruction ends a basic block.
    pub open spec fn is_terminator(self) -> bool {
        self matches InstructionView::Effect { op, .. } && op.is_terminator()
    }
}

impl View for Instruction {
    type V = InstructionView;

    open spec fn view(&self) -> InstructionView {
        match *self {
            Instruction::Constant { dest, const_type, value } => InstructionView::Constant {
                dest: dest@,
                const_type,
                value,
            },
            Instruction::Value { dest, op_type, op, args, funcs, labels } => {
                InstructionView::Value {
                    dest: dest@,
                    op_type,
                    op,
                    args: args.deep_view(),
                    funcs: funcs.deep_view(),
                    labels: labels.deep_view(),
                }
            },
            Instruction::Effect { op, args, funcs, labels } => InstructionView::Effect {
                op,
                args: args.deep_view(),
                funcs: funcs.deep_view(),
                labels: labels.deep_view(),
            },
        }
    }
}

impl DeepView for Instruction {
    type V = InstructionView;

    open spec fn deep_view(&self) -> InstructionView {
        self.view()
    }
}

/// Copies a list of names.
pub(crate) fn clone_names(names: &Vec<String>) -> (copy: Vec<String>)
    ensures
        copy@ == names@,
        copy.deep_view() == names.deep_view(),
{
    let copy = names.clone();
    assert(copy@ =~= names@);
    assert(copy.deep_view() =~= names.deep_view());
    copy
}

impl Clone for Instruction {
    fn clone(&self) -> (copy: Self)
        ensures
            copy@ == self@,
    {
        match self {
            Instruction::Constant { dest, const_type, value } => Instruction::Constant {
                dest: dest.clone(),
                const_type: *const_type,
                value: *value,
            },
            Instruction::Value { dest, op_type, op, args, funcs, labels } => Instruction::Value {
                dest: dest.clone(),
                op_type: *op_type,
                op: *op,
                args: clone_names(args),
                funcs: clone_names(funcs),
                labels: clone_names(labels),
            },
            Instruction::Effect { op, args, funcs, labels } => Instruction::Effect {
                op: *op,
                args: clone_names(args),
                funcs: clone_names(funcs),
                labels: clone_names(labels),
            },
        }
    }
}

/// One item of a function's body: a label or an instruction.
#[derive(Debug, PartialEq, Eq)]
pub enum Code {
    Label { label: String },
    Instruction(Instruction),
}

/// The model of a [`Code`] item.
#[verifier::ext_equal]
pub enum CodeView {
    Label { label: Seq<char> },
    Instruction(InstructionView),
}

impl View for Code {
    type V = CodeView;

    open spec fn view(&self) -> CodeView {
        match *self {
            Code::Label { label } => CodeView::Label { label: label@ },
            Code::Instruction(instr) => CodeView::Instruction(instr@),
        }
    }
}

impl DeepView for Code {
    type V = CodeView;

    open spec fn deep_view(&self) -> CodeView {
        self.view()
    }
}

impl Clone for Code {
    fn clone(&self) -> (copy: Self)
        ensures
            copy@ == self@,
    {
        match self {
            Code::Label { label } => Code::Label { label: label.clone() },
            Code::Instruction(instr) => Code::Instruction(instr.clone()),
        }
    }
}

/// A declared parameter of a function.
#[derive(Clone, Debug, PartialEq, Eq)]
pub struct Argument {
    pub name: String,
    pub arg_type: Type,
}

/// A function: a name, its parameters, its return type and its body.
#[derive(Clone, Debug, PartialEq, Eq)]
pub struct Function {
    pub name: String,
    pub args: Vec<Argument>,
    pub return_type: Option<Type>,
    pub instrs: Vec<Code>,
}

impl Function {
    /// The model of the function's body.
    pub open spec fn code(&self) -> Seq<CodeView> {
        self.instrs.deep_view()
    }
}

/// A program: its functions, in order.
#[derive(Clone, Debug, PartialEq, Eq)]
pub struct Program {
    pub functions: Vec<Function>,
}

} // verus!
