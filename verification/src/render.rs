//! The canonical one-line text of an instruction.
//!
//! A constant reads `<dest>: <type> = const <value>`. A value instruction
//! reads `<dest>: <type> = <op>` followed by ` @<func>` for each function
//! it names, ` <arg>` for each argument and ` .<label>` for each label, in
//! that order. An effect instruction reads the same without the
//! `<dest>: <type> =` in front.

use crate::ir::{EffectOps, Instruction, InstructionView, Literal, Type, ValueOps};
use vstd::prelude::*;

verus! {

/// The decimal digit for `d`.
pub open spec fn digit_char(d: int) -> char {
    if d == 0 {
        '0'
    } else if d == 1 {
        '1'
    } else if d == 2 {
        '2'
    } else if d == 3 {
        '3'
    } else if d == 4 {
        '4'
    } else if d == 5 {
        '5'
    } else if d == 6 {
        '6'
    } else if d == 7 {
        '7'
    } else if d == 8 {
        '8'
    } else {
        '9'
    }
}

/// The decimal digits of `n`, most significant first, without leading
/// zeros.
pub open spec fn decimal(n: nat) -> Seq<char>
    decreases n,
{
    if n < 10 {
        seq![digit_char(n as int)]
    } else {
        decimal(n / 10).push(digit_char((n % 10) as int))
    }
}

/// The decimal text of an integer: a minus sign for a negative one, then
/// the digits of its magnitude.
pub open spec fn int_text(i: int) -> Seq<char> {
    if i < 0 {
        seq!['-'] + decimal((-i) as nat)
    } else {
        decimal(i as nat)
    }
}

impl Type {
    /// The text of a type.
    pub open spec fn text(self) -> Seq<char> {
        match self {
            Type::Int => "int"@,
            Type::Bool => "bool"@,
        }
    }

    /// The text of the type.
    pub fn to_string(&self) -> (text: String)
        ensures
            text@ == self.text(),
    {
        match self {
            Type::Int => "int".to_owned(),
            Type::Bool => "bool".to_owned(),
        }
    }
}

impl Literal {
    /// The text of a literal: decimal for an integer, `true` or `false` for
    /// a boolean.
    pub open spec fn text(self) -> Seq<char> {
        match self {
            Literal::Int(i) => int_text(i as int),
            Literal::Bool(b) => if b {
                "true"@
            } else {
                "false"@
            },
        }
    }

    /// The text of the literal.
    pub fn to_string(&self) -> (text: String)
        ensures
            text@ == self.text(),
    {
        match self {
            Literal::Int(i) => int_to_string(*i),
            Literal::Bool(b) => if *b {
                "true".to_owned()
            } else {
                "false".to_owned()
            },
        }
    }
}

impl ValueOps {
    /// The name of a value operator.
    pub open spec fn text(self) -> Seq<char> {
        match self {
            ValueOps::Add => "add"@,
            ValueOps::Sub => "sub"@,
            ValueOps::Mul => "mul"@,
            ValueOps::Div => "div"@,
            ValueOps::Eq => "eq"@,
            ValueOps::Lt => "lt"@,
            ValueOps::Gt => "gt"@,
            ValueOps::Le => "le"@,
            ValueOps::Ge => "ge"@,
            ValueOps::Not => "not"@,
            ValueOps::And => "and"@,
            ValueOps::Or => "or"@,
            ValueOps::Call => "call"@,
            ValueOps::Id => "id"@,
        }
    }

    /// The name of the operator.
    pub fn to_string(&self) -> (text: String)
        ensures
            text@ == self.text(),
    {
        match self {
            ValueOps::Add => "add".to_owned(),
            ValueOps::Sub => "sub".to_owned(),
            ValueOps::Mul => "mul".to_owned(),
            ValueOps::Div => "div".to_owned(),
            ValueOps::Eq => "eq".to_owned(),
            ValueOps::Lt => "lt".to_owned(),
            ValueOps::Gt => "gt".to_owned(),
            ValueOps::Le => "le".to_owned(),
            ValueOps::Ge => "ge".to_owned(),
            ValueOps::Not => "not".to_owned(),
            ValueOps::And => "and".to_owned(),
            ValueOps::Or => "or".to_owned(),
            ValueOps::Call => "call".to_owned(),
            ValueOps::Id => "id".to_owned(),
        }
    }
}

impl EffectOps {
    /// The name of an effect operator.
    pub open spec fn text(self) -> Seq<char> {
        match self {
            EffectOps::Jump => "jmp"@,
            EffectOps::Branch => "br"@,
            EffectOps::Call => "call"@,
            EffectOps::Return => "ret"@,
            EffectOps::Print => "print"@,
            EffectOps::Nop => "nop"@,
        }
    }

    /// The name of the operator.
    pub fn to_string(&self) -> (text: String)
        ensures
            text@ == self.text(),
    {
        match self {
            EffectOps::Jump => "jmp".to_owned(),
            EffectOps::Branch => "br".to_owned(),
            EffectOps::Call => "call".to_owned(),
            EffectOps::Return => "ret".to_owned(),
            EffectOps::Print => "print".to_owned(),
            EffectOps::Nop => "nop".to_owned(),
        }
    }
}

/// Each name of `names` with `prefix` in front of it, one after the other.
pub open spec fn join_prefixed(prefix: Seq<char>, names: Seq<Seq<char>>) -> Seq<char>
    decreases names.len(),
{
    if names.len() == 0 {
        Seq::empty()
    } else {
        join_prefixed(prefix, names.drop_last()) + prefix + names.last()
    }
}

/// The text of the functions an instruction names: ` @<func>` for each.
pub open spec fn funcs_text(funcs: Seq<Seq<char>>) -> Seq<char> {
    join_prefixed(" @"@, funcs)
}

/// The text of an instruction's arguments: ` <arg>` for each.
pub open spec fn args_text(args: Seq<Seq<char>>) -> Seq<char> {
    join_prefixed(" "@, args)
}

/// The text of the labels an instruction names: ` .<label>` for each.
pub open spec fn labels_text(labels: Seq<Seq<char>>) -> Seq<char> {
    join_prefixed(" ."@, labels)
}

/// The text of an operation: the operator, then the functions, the
/// arguments and the labels, in that order.
pub open spec fn rhs_text(
    op: Seq<char>,
    funcs: Seq<Seq<char>>,
    args: Seq<Seq<char>>,
    labels: Seq<Seq<char>>,
) -> Seq<char> {
    op + funcs_text(funcs) + args_text(args) + labels_text(labels)
}

/// The canonical text of an instruction.
pub open spec fn instr_text(instr: InstructionView) -> Seq<char> {
    match instr {
        InstructionView::Constant { dest, const_type, value } => dest + ": "@ + const_type.text()
            + " = const "@ + value.text(),
        InstructionView::Value { dest, op_type, op, args, funcs, labels } => dest + ": "@
            + op_type.text() + " = "@ + rhs_text(op.text(), funcs, args, labels),
        InstructionView::Effect { op, args, funcs, labels } => rhs_text(
            op.text(),
            funcs,
            args,
            labels,
        ),
    }
}

/// The one-character text of the digit `d`.
fn digit(d: u64) -> (text: &'static str)
    requires
        d < 10,
    ensures
        text@ == seq![digit_char(d as int)],
{
    proof {
        reveal_strlit("0");
        reveal_strlit("1");
        reveal_strlit("2");
        reveal_strlit("3");
        reveal_strlit("4");
        reveal_strlit("5");
        reveal_strlit("6");
        reveal_strlit("7");
        reveal_strlit("8");
        reveal_strlit("9");
    }
    let text = if d == 0 {
        "0"
    } else if d == 1 {
        "1"
    } else if d == 2 {
        "2"
    } else if d == 3 {
        "3"
    } else if d == 4 {
        "4"
    } else if d == 5 {
        "5"
    } else if d == 6 {
        "6"
    } else if d == 7 {
        "7"
    } else if d == 8 {
        "8"
    } else {
        "9"
    };
    assert(text@ =~= seq![digit_char(d as int)]);
    text
}

/// Appends the decimal digits of `n` to `text`.
fn push_decimal(text: &mut String, n: u64)
    ensures
        final(text)@ == old(text)@ + decimal(n as nat),
    decreases n,
{
    if n >= 10 {
        push_decimal(text, n / 10);
    }
    text.append(digit(n % 10));
    proof {
        if n >= 10 {
            assert(text@ =~= old(text)@ + decimal((n / 10) as nat).push(
                digit_char((n % 10) as int),
            ));
        } else {
            assert(text@ =~= old(text)@ + seq![digit_char(n as int)]);
        }
    }
}

/// The decimal text of `i`.
pub fn int_to_string(i: i64) -> (text: String)
    ensures
        text@ == int_text(i as int),
{
    let mut text = String::new();
    if i < 0 {
        proof {
            reveal_strlit("-");
        }
        text.append("-");
        let magnitude: u64 = (-(i + 1)) as u64 + 1;
        push_decimal(&mut text, magnitude);
        assert(text@ =~= seq!['-'] + decimal((-i) as nat));
    } else {
        push_decimal(&mut text, i as u64);
        assert(text@ =~= decimal(i as nat));
    }
    text
}

/// Each name with `prefix` in front of it, one after the other.
fn join(prefix: &str, names: &Vec<String>) -> (text: String)
    ensures
        text@ == join_prefixed(prefix@, names.deep_view()),
{
    let ghost all = names.deep_view();
    let mut text = String::new();
    let mut i: usize = 0;
    assert(all.take(0) =~= Seq::empty());
    while i < names.len()
        invariant
            i <= names.len(),
            all == names.deep_view(),
            text@ == join_prefixed(prefix@, all.take(i as int)),
        decreases names.len() - i,
    {
        proof {
            assert(all.take(i + 1).drop_last() =~= all.take(i as int));
            assert(all.take(i + 1).last() == names[i as int]@);
        }
        text.append(prefix);
        text.append(names[i].as_str());
        i += 1;
    }
    assert(all.take(all.len() as int) =~= all);
    text
}

/// The text of the functions an instruction names: ` @<func>` for each.
pub fn format_funcs(funcs: &Vec<String>) -> (text: String)
    ensures
        text@ == funcs_text(funcs.deep_view()),
{
    join(" @", funcs)
}

/// The text of an instruction's arguments: ` <arg>` for each.
pub fn format_args(args: &Vec<String>) -> (text: String)
    ensures
        text@ == args_text(args.deep_view()),
{
    join(" ", args)
}

/// The text of the labels an instruction names: ` .<label>` for each.
pub fn format_labels(labels: &Vec<String>) -> (text: String)
    ensures
        text@ == labels_text(labels.deep_view()),
{
    join(" .", labels)
}

/// The text of an operation: the operator, then the functions, the
/// arguments and the labels.
pub fn format_rhs(
    op: &String,
    funcs: &Vec<String>,
    args: &Vec<String>,
    labels: &Vec<String>,
) -> (text: String)
    ensures
        text@ == rhs_text(op@, funcs.deep_view(), args.deep_view(), labels.deep_view()),
{
    let mut text = op.clone();
    text.append(format_funcs(funcs).as_str());
    text.append(format_args(args).as_str());
    text.append(format_labels(labels).as_str());
    text
}

/// The canonical one-line text of `instr`.
pub fn instr_to_txt(instr: &Instruction) -> (text: String)
    ensures
        text@ == instr_text(instr@),
{
    match instr {
        Instruction::Constant { dest, const_type, value } => {
            let mut text = dest.clone();
            text.append(": ");
            text.append(const_type.to_string().as_str());
            text.append(" = const ");
            text.append(value.to_string().as_str());
            text
        },
        Instruction::Value { dest, op_type, op, funcs, args, labels } => {
            let mut text = dest.clone();
            text.append(": ");
            text.append(op_type.to_string().as_str());
            text.append(" = ");
            text.append(format_rhs(&op.to_string(), funcs, args, labels).as_str());
            text
        },
        Instruction::Effect { op, funcs, args, labels } => format_rhs(
            &op.to_string(),
            funcs,
            args,
            labels,
        ),
    }
}

} // verus!
