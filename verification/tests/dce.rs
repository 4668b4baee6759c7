use bbb::{
    dce_function, form_blocks, global_dce, instr_to_txt, local_dce, trivial_dce, Block, Code,
    EffectOps, Function, Instruction, Literal, Program, Type, ValueOps,
};

fn names(list: &[&str]) -> Vec<String> {
    list.iter().map(|s| s.to_string()).collect()
}

fn constant(dest: &str, value: i64) -> Instruction {
    Instruction::Constant {
        dest: dest.to_string(),
        const_type: Type::Int,
        value: Literal::Int(value),
    }
}

fn value(dest: &str, op: ValueOps, args: &[&str]) -> Instruction {
    Instruction::Value {
        dest: dest.to_string(),
        op_type: Type::Int,
        op,
        args: names(args),
        funcs: Vec::new(),
        labels: Vec::new(),
    }
}

fn effect(op: EffectOps, args: &[&str], labels: &[&str]) -> Instruction {
    Instruction::Effect { op, args: names(args), funcs: Vec::new(), labels: names(labels) }
}

fn print(args: &[&str]) -> Instruction {
    effect(EffectOps::Print, args, &[])
}

fn label(name: &str) -> Code {
    Code::Label { label: name.to_string() }
}

fn function(name: &str, instrs: Vec<Instruction>) -> Function {
    Function {
        name: name.to_string(),
        args: Vec::new(),
        return_type: None,
        instrs: instrs.into_iter().map(Code::Instruction).collect(),
    }
}

fn text(func: &Function) -> Vec<String> {
    func.instrs
        .iter()
        .map(|code| match code {
            Code::Label { label } => format!(".{}:", label),
            Code::Instruction(instr) => instr_to_txt(instr),
        })
        .collect()
}

fn branching() -> Function {
    Function {
        name: "f".to_string(),
        args: Vec::new(),
        return_type: Some(Type::Int),
        instrs: vec![
            label("entry"),
            Code::Instruction(constant("a", 1)),
            Code::Instruction(constant("dead", 9)),
            Code::Instruction(constant("a", 2)),
            Code::Instruction(value("c", ValueOps::Lt, &["a", "a"])),
            Code::Instruction(effect(EffectOps::Branch, &["c"], &["l", "r"])),
            label("l"),
            Code::Instruction(value("t", ValueOps::Add, &["a", "a"])),
            Code::Instruction(value("u", ValueOps::Mul, &["t", "t"])),
            Code::Instruction(effect(EffectOps::Jump, &[], &["r"])),
            label("r"),
            Code::Instruction(effect(EffectOps::Nop, &[], &[])),
            Code::Instruction(effect(EffectOps::Return, &["a"], &[])),
        ],
    }
}

#[test]
fn simple_dead_value() {
    let mut func = function("main", vec![constant("x", 4), constant("y", 2), print(&["x"])]);
    dce_function(&mut func);
    assert_eq!(text(&func), vec!["x: int = const 4", "print x"]);
}

#[test]
fn dead_store() {
    let mut func = function("main", vec![constant("x", 1), constant("x", 2), print(&["x"])]);
    dce_function(&mut func);
    assert_eq!(text(&func), vec!["x: int = const 2", "print x"]);
}

#[test]
fn cascading_liveness() {
    let mut func = function(
        "main",
        vec![constant("a", 1), value("b", ValueOps::Add, &["a", "a"]), print(&["4"])],
    );
    assert_eq!(trivial_dce(&mut func), 1);
    assert_eq!(text(&func), vec!["a: int = const 1", "print 4"]);
    assert_eq!(trivial_dce(&mut func), 1);
    assert_eq!(text(&func), vec!["print 4"]);
    assert_eq!(trivial_dce(&mut func), 0);
    assert_eq!(text(&func), vec!["print 4"]);
}

#[test]
fn cascading_liveness_converges() {
    let mut func = function(
        "main",
        vec![constant("a", 1), value("b", ValueOps::Add, &["a", "a"]), print(&["4"])],
    );
    assert_eq!(dce_function(&mut func), 2);
    assert_eq!(text(&func), vec!["print 4"]);
}

#[test]
fn leading_label_survives_elimination() {
    let mut func = Function {
        name: "main".to_string(),
        args: Vec::new(),
        return_type: None,
        instrs: vec![label("entry"), Code::Instruction(constant("x", 1))],
    };
    let blocks = form_blocks(&func);
    assert_eq!(blocks[0], Block { label: None, instrs: vec![] });
    assert_eq!(dce_function(&mut func), 1);
    assert_eq!(func.instrs, vec![label("entry")]);
}

#[test]
fn trailing_label_survives_elimination() {
    let mut func = Function {
        name: "main".to_string(),
        args: Vec::new(),
        return_type: None,
        instrs: vec![
            Code::Instruction(effect(EffectOps::Jump, &[], &["end"])),
            Code::Instruction(constant("x", 1)),
            label("end"),
        ],
    };
    assert_eq!(dce_function(&mut func), 1);
    assert_eq!(text(&func), vec!["jmp .end", ".end:"]);
}

#[test]
fn a_read_in_between_saves_the_store() {
    let mut func = function(
        "main",
        vec![constant("x", 1), print(&["x"]), constant("x", 2), print(&["x"])],
    );
    assert_eq!(dce_function(&mut func), 0);
    assert_eq!(
        text(&func),
        vec!["x: int = const 1", "print x", "x: int = const 2", "print x"]
    );
}

#[test]
fn a_definition_that_reads_itself_is_a_read() {
    let mut func = function(
        "main",
        vec![constant("x", 1), value("x", ValueOps::Add, &["x", "x"]), print(&["x"])],
    );
    assert_eq!(dce_function(&mut func), 0);
    assert_eq!(text(&func), vec!["x: int = const 1", "x: int = add x x", "print x"]);
}

#[test]
fn only_the_last_of_repeated_stores_stays() {
    let mut func = function(
        "main",
        vec![constant("x", 1), constant("x", 2), constant("x", 3), print(&["x"])],
    );
    assert_eq!(trivial_dce(&mut func), 2);
    assert_eq!(text(&func), vec!["x: int = const 3", "print x"]);
}

#[test]
fn stores_in_different_blocks_are_not_dead() {
    let mut func = Function {
        name: "main".to_string(),
        args: Vec::new(),
        return_type: None,
        instrs: vec![
            Code::Instruction(constant("x", 1)),
            label("next"),
            Code::Instruction(constant("x", 2)),
            Code::Instruction(print(&["x"])),
        ],
    };
    assert_eq!(dce_function(&mut func), 0);
    assert_eq!(text(&func), vec!["x: int = const 1", ".next:", "x: int = const 2", "print x"]);
}

#[test]
fn unused_definition_exposes_a_dead_store_in_the_same_pass() {
    let mut func = function(
        "main",
        vec![
            constant("x", 1),
            value("y", ValueOps::Id, &["x"]),
            constant("x", 2),
            print(&["x"]),
        ],
    );
    assert_eq!(trivial_dce(&mut func), 2);
    assert_eq!(text(&func), vec!["x: int = const 2", "print x"]);
}

#[test]
fn local_dce_counts_what_it_removes() {
    let blocks = vec![
        Block { label: None, instrs: vec![constant("x", 4), constant("y", 2)] },
        Block { label: Some("l".to_string()), instrs: vec![constant("z", 0), print(&["x"])] },
    ];
    let (pruned, removed) = local_dce(blocks);
    assert_eq!(removed, 2);
    assert_eq!(
        pruned,
        vec![
            Block { label: None, instrs: vec![constant("x", 4)] },
            Block { label: Some("l".to_string()), instrs: vec![print(&["x"])] },
        ]
    );
}

#[test]
fn local_dce_on_converged_blocks_changes_nothing() {
    let blocks = vec![Block { label: None, instrs: vec![constant("x", 4), print(&["x"])] }];
    let (pruned, removed) = local_dce(blocks);
    assert_eq!(removed, 0);
    assert_eq!(pruned, vec![Block { label: None, instrs: vec![constant("x", 4), print(&["x"])] }]);
}

#[test]
fn local_dce_of_no_blocks() {
    let (pruned, removed) = local_dce(Vec::new());
    assert_eq!(removed, 0);
    assert_eq!(pruned, Vec::<Block>::new());
}

#[test]
fn effects_are_never_removed() {
    let mut func = branching();
    let effects_before: Vec<String> = func
        .instrs
        .iter()
        .filter(|code| !matches!(code, Code::Instruction(Instruction::Constant { .. })))
        .filter(|code| !matches!(code, Code::Instruction(Instruction::Value { .. })))
        .map(|code| format!("{:?}", code))
        .collect();
    dce_function(&mut func);
    let effects_after: Vec<String> = func
        .instrs
        .iter()
        .filter(|code| !matches!(code, Code::Instruction(Instruction::Constant { .. })))
        .filter(|code| !matches!(code, Code::Instruction(Instruction::Value { .. })))
        .map(|code| format!("{:?}", code))
        .collect();
    assert_eq!(effects_before, effects_after);
    assert_eq!(effects_after.len(), 7);
}

#[test]
fn unused_effect_arguments_do_not_matter() {
    let mut func = function("main", vec![effect(EffectOps::Call, &[], &[]), print(&[])]);
    assert_eq!(dce_function(&mut func), 0);
    assert_eq!(text(&func), vec!["call", "print"]);
}

#[test]
fn branching_function_converges() {
    let mut func = branching();
    assert_eq!(dce_function(&mut func), 4);
    assert_eq!(
        text(&func),
        vec![
            ".entry:",
            "a: int = const 2",
            "c: int = lt a a",
            "br c .l .r",
            ".l:",
            "jmp .r",
            ".r:",
            "nop",
            "ret a",
        ]
    );
    assert_eq!(func.name, "f");
    assert_eq!(func.return_type, Some(Type::Int));
}

#[test]
fn fixed_point_is_idempotent() {
    let mut func = branching();
    dce_function(&mut func);
    let converged = func.clone();
    assert_eq!(trivial_dce(&mut func), 0);
    assert_eq!(func, converged);
    assert_eq!(dce_function(&mut func), 0);
    assert_eq!(func, converged);
}

#[test]
fn each_pass_removes_or_halts() {
    let mut func = branching();
    loop {
        let before = func.clone();
        let removed = trivial_dce(&mut func);
        assert_eq!(before.instrs.len() - func.instrs.len(), removed);
        if removed == 0 {
            assert_eq!(func, before);
            break;
        }
        assert!(func.instrs.len() < before.instrs.len());
    }
}

#[test]
fn dce_of_an_empty_function() {
    let mut func = function("main", Vec::new());
    assert_eq!(trivial_dce(&mut func), 0);
    assert_eq!(dce_function(&mut func), 0);
    assert_eq!(func.instrs, Vec::<Code>::new());
}

#[test]
fn functions_of_a_program_are_independent() {
    let mut program = Program {
        functions: vec![
            function("uses_x", vec![constant("x", 1), print(&["x"])]),
            function("drops_x", vec![constant("x", 1), print(&["y"])]),
            function("empty", Vec::new()),
        ],
    };
    global_dce(&mut program);
    assert_eq!(program.functions.len(), 3);
    assert_eq!(text(&program.functions[0]), vec!["x: int = const 1", "print x"]);
    assert_eq!(text(&program.functions[1]), vec!["print y"]);
    assert_eq!(text(&program.functions[2]), Vec::<String>::new());
    assert_eq!(program.functions[0].name, "uses_x");
    assert_eq!(program.functions[1].name, "drops_x");
}

#[test]
fn global_dce_of_an_empty_program() {
    let mut program = Program { functions: Vec::new() };
    global_dce(&mut program);
    assert_eq!(program, Program { functions: Vec::new() });
}
