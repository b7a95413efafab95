use sir::escape::run_escape;
use sir::facts::{ConstantData, EscapeKind};
use sir::ir::{Effects, Function, Node, NodeId, NodeKind, IntWidth, IrType};
use sir::use_def::run_use_def;

fn id(n: u64) -> NodeId {
    NodeId::new(n)
}

fn node(n: u64, kind: NodeKind) -> Node {
    Node { ty: IrType::Integer { width: IntWidth::I64, signed: false }, id: id(n), kind, effects: Effects::none() }
}

fn function(name: &str, arena: Vec<Node>) -> Function {
    let return_node = arena.iter().find(|n| matches!(n.kind, NodeKind::Return { .. })).map(|n| n.id);
    Function { return_ty: IrType::Integer { width: IntWidth::I64, signed: false }, name: name.to_string(), params: vec![], arena, return_node }
}

#[test]
fn empty_function_has_no_use_def() {
    let func = Function { return_ty: IrType::Integer { width: IntWidth::I64, signed: false }, name: "empty".to_string(), params: vec![], arena: vec![], return_node: None };
    let facts = run_use_def(&func);
    assert!(facts.is_empty());
}

#[test]
fn single_constant() {
    let func = function(
        "c",
        vec![node(0, NodeKind::Constant(ConstantData::i32(42))), node(1, NodeKind::Return { value: id(0) })],
    );
    let c = id(0);
    let facts = run_use_def(&func);

    let c_fact = facts.get(c).unwrap();
    assert!(c_fact.definitions.is_empty()); // constant has no inputs
    assert!(!c_fact.is_dead); // used by return
    assert_eq!(c_fact.use_count, 1);
}

#[test]
fn chained_arithmetic() {
    let func = function(
        "chain",
        vec![
            node(0, NodeKind::Parameter { index: 0 }),
            node(1, NodeKind::Parameter { index: 1 }),
            node(2, NodeKind::Add { lhs: id(0), rhs: id(1) }),
            node(3, NodeKind::Mul { lhs: id(2), rhs: id(0) }),
            node(4, NodeKind::Return { value: id(3) }),
        ],
    );
    let (x, y, s1, s2) = (id(0), id(1), id(2), id(3));
    let facts = run_use_def(&func);

    // x is used by s1 and s2: 2 users.
    let x_fact = facts.get(x).unwrap();
    assert_eq!(x_fact.use_count, 2);
    assert!(x_fact.users.contains(&s1));
    assert!(x_fact.users.contains(&s2));

    // y is used by s1 only: 1 user.
    let y_fact = facts.get(y).unwrap();
    assert_eq!(y_fact.use_count, 1);

    // s1 definitions are x and y.
    let s1_fact = facts.get(s1).unwrap();
    assert_eq!(s1_fact.definitions.len(), 2);
    assert!(s1_fact.definitions.contains(&x));
    assert!(s1_fact.definitions.contains(&y));
    assert_eq!(s1_fact.use_count, 1); // used by s2

    // s2 definitions are s1 and x.
    let s2_fact = facts.get(s2).unwrap();
    assert_eq!(s2_fact.definitions.len(), 2);
    assert!(!s2_fact.is_dead); // used by return
}

#[test]
fn dead_node_detection() {
    let func = function(
        "dead",
        vec![
            node(0, NodeKind::Parameter { index: 0 }),
            node(1, NodeKind::Add { lhs: id(0), rhs: id(0) }),
            node(2, NodeKind::Neg { operand: id(0) }),
            node(3, NodeKind::Return { value: id(2) }),
        ],
    );
    let (dead_val, alive) = (id(1), id(2));
    let facts = run_use_def(&func);

    let dead_fact = facts.get(dead_val).unwrap();
    assert!(dead_fact.is_dead);
    assert_eq!(dead_fact.use_count, 0);

    let alive_fact = facts.get(alive).unwrap();
    assert!(!alive_fact.is_dead);
}

#[test]
fn return_node_not_dead() {
    let func = function(
        "f",
        vec![node(0, NodeKind::Parameter { index: 0 }), node(1, NodeKind::Return { value: id(0) })],
    );
    let facts = run_use_def(&func);

    let ret_id = func.return_node.unwrap();
    let ret_fact = facts.get(ret_id).unwrap();
    assert!(!ret_fact.is_dead); // return is never dead
}

#[test]
fn diamond_pattern() {
    // x -> s1 = x+x, s2 = x+x, s3 = s1+s2
    let func = function(
        "diamond",
        vec![
            node(0, NodeKind::Parameter { index: 0 }),
            node(1, NodeKind::Add { lhs: id(0), rhs: id(0) }),
            node(2, NodeKind::Add { lhs: id(0), rhs: id(0) }),
            node(3, NodeKind::Add { lhs: id(1), rhs: id(2) }),
            node(4, NodeKind::Return { value: id(3) }),
        ],
    );
    let facts = run_use_def(&func);

    let x_fact = facts.get(id(0)).unwrap();
    // x appears twice in each of s1 and s2 (lhs+rhs), so 4 total references
    assert_eq!(x_fact.use_count, 4);
    assert_eq!(x_fact.users, vec![id(1), id(1), id(2), id(2)]);
}

#[test]
fn select_use_counts() {
    let func = function(
        "sel",
        vec![
            node(0, NodeKind::Parameter { index: 0 }),
            node(1, NodeKind::Parameter { index: 1 }),
            node(2, NodeKind::Parameter { index: 2 }),
            node(3, NodeKind::Select { cond: id(0), true_val: id(1), false_val: id(2) }),
            node(4, NodeKind::Return { value: id(3) }),
        ],
    );
    let facts = run_use_def(&func);

    // Each parameter should have 1 user (the select).
    assert_eq!(facts.get(id(0)).unwrap().use_count, 1);
    assert_eq!(facts.get(id(1)).unwrap().use_count, 1);
    assert_eq!(facts.get(id(2)).unwrap().use_count, 1);
    assert_eq!(facts.len(), 5);
}

#[test]
fn memory_operations_use_def() {
    let func = function(
        "mem",
        vec![
            node(0, NodeKind::Constant(ConstantData::u64(1))),
            node(1, NodeKind::Allocate { ty: "u8".to_string(), count: id(0) }),
            node(2, NodeKind::Constant(ConstantData::i32(7))),
            node(3, NodeKind::Store { ptr: id(1), value: id(2) }),
            node(4, NodeKind::Load { ptr: id(1) }),
            node(5, NodeKind::Return { value: id(4) }),
        ],
    );
    let facts = run_use_def(&func);

    // ptr is used by store and load.
    let ptr_fact = facts.get(id(1)).unwrap();
    assert_eq!(ptr_fact.use_count, 2);
}

#[test]
fn returned_value_escapes() {
    let func = function(
        "f",
        vec![node(0, NodeKind::Parameter { index: 0 }), node(1, NodeKind::Return { value: id(0) })],
    );
    let facts = run_escape(&func);

    let x_fact = facts.get(id(0)).unwrap();
    assert_eq!(x_fact.kind, EscapeKind::Returned);
}

#[test]
fn stored_value_escapes() {
    let func = function(
        "f",
        vec![
            node(0, NodeKind::Constant(ConstantData::u64(1))),
            node(1, NodeKind::Allocate { ty: "u8".to_string(), count: id(0) }),
            node(2, NodeKind::Constant(ConstantData::i32(42))),
            node(3, NodeKind::Store { ptr: id(1), value: id(2) }),
            node(4, NodeKind::Return { value: id(3) }),
        ],
    );
    let facts = run_escape(&func);

    let val_fact = facts.get(id(2)).unwrap();
    // val is stored AND the store result is returned → escapes via Return (most severe).
    assert_eq!(val_fact.kind, EscapeKind::Returned);
}

#[test]
fn purely_local_value_never_escapes() {
    let func = function(
        "f",
        vec![
            node(0, NodeKind::Parameter { index: 0 }),
            node(1, NodeKind::Constant(ConstantData::i32(2))),
            node(2, NodeKind::Add { lhs: id(0), rhs: id(1) }),
            node(3, NodeKind::Return { value: id(2) }),
        ],
    );
    let facts = run_escape(&func);

    // c is an input to `s`, which escapes via Return, so c escapes too.
    let c_fact = facts.get(id(1)).unwrap();
    assert_eq!(c_fact.kind, EscapeKind::Returned);
}

#[test]
fn local_allocation_does_not_escape_by_default() {
    let func = function(
        "f",
        vec![
            node(0, NodeKind::Constant(ConstantData::u64(1))),
            node(1, NodeKind::Allocate { ty: "u8".to_string(), count: id(0) }),
            node(2, NodeKind::Load { ptr: id(1) }),
            node(3, NodeKind::Return { value: id(2) }),
        ],
    );
    let facts = run_escape(&func);

    // loaded escapes via Return.
    let loaded_fact = facts.get(id(2)).unwrap();
    assert_eq!(loaded_fact.kind, EscapeKind::Returned);
}

#[test]
fn escape_kinds_propagate_to_operands_only() {
    let func = function(
        "f",
        vec![
            node(0, NodeKind::Parameter { index: 0 }),
            node(1, NodeKind::Parameter { index: 1 }),
            node(2, NodeKind::ExternalCall { name: "ext".to_string(), args: vec![id(0)] }),
            node(3, NodeKind::Neg { operand: id(1) }),
            node(4, NodeKind::Loop { body: vec![id(3)], termination: id(1), outputs: vec![], carried_inputs: vec![id(3)] }),
            node(5, NodeKind::Return { value: id(2) }),
        ],
    );
    let facts = run_escape(&func);
    // Passed to a call whose result is returned: the more severe kind wins.
    assert_eq!(facts.get(id(0)).unwrap().kind, EscapeKind::Returned);
    assert_eq!(facts.get(id(2)).unwrap().kind, EscapeKind::Returned);
    assert_eq!(facts.get(id(3)).unwrap().kind, EscapeKind::Captured);
    assert_eq!(facts.get(id(1)).unwrap().kind, EscapeKind::Captured);
    assert_eq!(facts.get(id(4)).unwrap().kind, EscapeKind::NeverEscapes);
    assert_eq!(facts.get(id(5)).unwrap().kind, EscapeKind::NeverEscapes);
    assert!(facts.get(id(9)).is_none());
}
