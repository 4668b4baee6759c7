use bbb::{
    format_args, format_funcs, format_labels, format_rhs, instr_to_txt, int_to_string, EffectOps,
    Instruction, Literal, Type, ValueOps,
};

fn names(list: &[&str]) -> Vec<String> {
    list.iter().map(|s| s.to_string()).collect()
}

#[test]
fn constant_text() {
    let instr = Instruction::Constant {
        dest: "x".to_string(),
        const_type: Type::Int,
        value: Literal::Int(4),
    };
    assert_eq!(instr_to_txt(&instr), "x: int = const 4");
    let instr = Instruction::Constant {
        dest: "flag".to_string(),
        const_type: Type::Bool,
        value: Literal::Bool(true),
    };
    assert_eq!(instr_to_txt(&instr), "flag: bool = const true");
    let instr = Instruction::Constant {
        dest: "n".to_string(),
        const_type: Type::Int,
        value: Literal::Int(-17),
    };
    assert_eq!(instr_to_txt(&instr), "n: int = const -17");
}

#[test]
fn value_text() {
    let instr = Instruction::Value {
        dest: "b".to_string(),
        op_type: Type::Int,
        op: ValueOps::Add,
        args: names(&["a", "a"]),
        funcs: Vec::new(),
        labels: Vec::new(),
    };
    assert_eq!(instr_to_txt(&instr), "b: int = add a a");
}

#[test]
fn groups_come_as_functions_arguments_labels() {
    let instr = Instruction::Value {
        dest: "r".to_string(),
        op_type: Type::Bool,
        op: ValueOps::Call,
        args: names(&["x", "y"]),
        funcs: names(&["f"]),
        labels: names(&["l1", "l2"]),
    };
    assert_eq!(instr_to_txt(&instr), "r: bool = call @f x y .l1 .l2");
}

#[test]
fn effect_text() {
    let print = Instruction::Effect {
        op: EffectOps::Print,
        args: names(&["x"]),
        funcs: Vec::new(),
        labels: Vec::new(),
    };
    assert_eq!(instr_to_txt(&print), "print x");
    let branch = Instruction::Effect {
        op: EffectOps::Branch,
        args: names(&["c"]),
        funcs: Vec::new(),
        labels: names(&["then", "else"]),
    };
    assert_eq!(instr_to_txt(&branch), "br c .then .else");
    let ret = Instruction::Effect {
        op: EffectOps::Return,
        args: Vec::new(),
        funcs: Vec::new(),
        labels: Vec::new(),
    };
    assert_eq!(instr_to_txt(&ret), "ret");
    let call = Instruction::Effect {
        op: EffectOps::Call,
        args: names(&["a"]),
        funcs: names(&["g"]),
        labels: Vec::new(),
    };
    assert_eq!(instr_to_txt(&call), "call @g a");
}

#[test]
fn format_groups() {
    assert_eq!(format_funcs(&names(&["f", "g"])), " @f @g");
    assert_eq!(format_args(&names(&["a", "b", "c"])), " a b c");
    assert_eq!(format_labels(&names(&["l"])), " .l");
    assert_eq!(format_funcs(&Vec::new()), "");
    assert_eq!(format_args(&Vec::new()), "");
    assert_eq!(format_labels(&Vec::new()), "");
}

#[test]
fn format_rhs_text() {
    assert_eq!(
        format_rhs(&"op".to_string(), &names(&["f"]), &names(&["a", "b"]), &names(&["l"])),
        "op @f a b .l"
    );
    assert_eq!(format_rhs(&"nop".to_string(), &Vec::new(), &Vec::new(), &Vec::new()), "nop");
}

#[test]
fn integers_in_decimal() {
    assert_eq!(int_to_string(0), "0");
    assert_eq!(int_to_string(7), "7");
    assert_eq!(int_to_string(10), "10");
    assert_eq!(int_to_string(1234567890), "1234567890");
    assert_eq!(int_to_string(-1), "-1");
    assert_eq!(int_to_string(-9080), "-9080");
    assert_eq!(int_to_string(i64::MAX), "9223372036854775807");
    assert_eq!(int_to_string(i64::MIN), "-9223372036854775808");
}

#[test]
fn integers_agree_with_std() {
    for i in -1100i64..1100 {
        assert_eq!(int_to_string(i), format!("{}", i));
    }
}

#[test]
fn literal_and_type_text() {
    assert_eq!(Literal::Int(42).to_string(), "42");
    assert_eq!(Literal::Bool(true).to_string(), "true");
    assert_eq!(Literal::Bool(false).to_string(), "false");
    assert_eq!(Type::Int.to_string(), "int");
    assert_eq!(Type::Bool.to_string(), "bool");
}

#[test]
fn value_operator_names() {
    assert_eq!(ValueOps::Add.to_string(), "add");
    assert_eq!(ValueOps::Sub.to_string(), "sub");
    assert_eq!(ValueOps::Mul.to_string(), "mul");
    assert_eq!(ValueOps::Div.to_string(), "div");
    assert_eq!(ValueOps::Eq.to_string(), "eq");
    assert_eq!(ValueOps::Lt.to_string(), "lt");
    assert_eq!(ValueOps::Gt.to_string(), "gt");
    assert_eq!(ValueOps::Le.to_string(), "le");
    assert_eq!(ValueOps::Ge.to_string(), "ge");
    assert_eq!(ValueOps::Not.to_string(), "not");
    assert_eq!(ValueOps::And.to_string(), "and");
    assert_eq!(ValueOps::Or.to_string(), "or");
    assert_eq!(ValueOps::Call.to_string(), "call");
    assert_eq!(ValueOps::Id.to_string(), "id");
}

#[test]
fn effect_operator_names() {
    assert_eq!(EffectOps::Jump.to_string(), "jmp");
    assert_eq!(EffectOps::Branch.to_string(), "br");
    assert_eq!(EffectOps::Call.to_string(), "call");
    assert_eq!(EffectOps::Return.to_string(), "ret");
    assert_eq!(EffectOps::Print.to_string(), "print");
    assert_eq!(EffectOps::Nop.to_string(), "nop");
}
