use bbb::{
    find_used, get_args, Block, EffectOps, Instruction, Literal, NameSet, Type, ValueOps,
};

fn names(list: &[&str]) -> Vec<String> {
    list.iter().map(|s| s.to_string()).collect()
}

fn constant(dest: &str, value: i64) -> Instruction {
    Instruction::Constant {
        dest: dest.to_string(),
        const_type: Type::Int,
        value: Literal::Int(value),
    }
}

fn value(dest: &str, op: ValueOps, args: &[&str]) -> Instruction {
    Instruction::Value {
        dest: dest.to_string(),
        op_type: Type::Int,
        op,
        args: names(args),
        funcs: Vec::new(),
        labels: Vec::new(),
    }
}

fn print(args: &[&str]) -> Instruction {
    Instruction::Effect {
        op: EffectOps::Print,
        args: names(args),
        funcs: Vec::new(),
        labels: Vec::new(),
    }
}

#[test]
fn get_args_of_each_kind() {
    assert_eq!(get_args(&constant("x", 1)), Vec::<String>::new());
    assert_eq!(get_args(&value("x", ValueOps::Add, &["a", "b"])), names(&["a", "b"]));
    assert_eq!(get_args(&print(&["x", "x"])), names(&["x", "x"]));
}

#[test]
fn get_args_leaves_out_functions_and_labels() {
    let call = Instruction::Value {
        dest: "r".to_string(),
        op_type: Type::Int,
        op: ValueOps::Call,
        args: names(&["a"]),
        funcs: names(&["f"]),
        labels: names(&["l"]),
    };
    assert_eq!(get_args(&call), names(&["a"]));
}

#[test]
fn find_used_collects_arguments_of_all_blocks() {
    let blocks = vec![
        Block { label: None, instrs: vec![constant("a", 1), value("b", ValueOps::Id, &["a"])] },
        Block { label: Some("l".to_string()), instrs: vec![print(&["b", "c"]), print(&["a"])] },
    ];
    let used = find_used(&blocks);
    assert!(used.contains(&"a".to_string()));
    assert!(used.contains(&"b".to_string()));
    assert!(used.contains(&"c".to_string()));
    assert!(!used.contains(&"l".to_string()));
    assert!(!used.contains(&"d".to_string()));
}

#[test]
fn definitions_are_not_uses() {
    let blocks = vec![Block { label: None, instrs: vec![constant("x", 1)] }];
    assert!(!find_used(&blocks).contains(&"x".to_string()));
}

#[test]
fn find_used_of_nothing_is_empty() {
    let used = find_used(&Vec::new());
    assert!(!used.contains(&"x".to_string()));
    assert!(!used.contains(&String::new()));
}

#[test]
fn name_set_insert_contains_remove() {
    let mut set = NameSet::new();
    assert!(!set.contains(&"x".to_string()));
    set.insert("x".to_string());
    set.insert("y".to_string());
    set.insert("x".to_string());
    assert!(set.contains(&"x".to_string()));
    assert!(set.contains(&"y".to_string()));
    set.remove(&"x".to_string());
    assert!(!set.contains(&"x".to_string()));
    assert!(set.contains(&"y".to_string()));
    set.remove(&"z".to_string());
    assert!(set.contains(&"y".to_string()));
}

#[test]
fn name_set_remove_all() {
    let mut set = NameSet::new();
    set.insert("a".to_string());
    set.insert("b".to_string());
    set.insert("c".to_string());
    set.remove_all(&names(&["a", "c", "a", "z"]));
    assert!(!set.contains(&"a".to_string()));
    assert!(set.contains(&"b".to_string()));
    assert!(!set.contains(&"c".to_string()));
}
