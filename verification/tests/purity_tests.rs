use sir::facts::{ConstantData, PurityLevel};
use sir::ir::{Effects, Function, Node, NodeId, NodeKind, IntWidth, IrType};
use sir::purity::run_purity;

fn id(n: u64) -> NodeId {
    NodeId::new(n)
}

fn node(n: u64, kind: NodeKind) -> Node {
    Node { ty: IrType::Integer { width: IntWidth::I64, signed: false }, id: id(n), kind, effects: Effects::none() }
}

fn effectful(n: u64, kind: NodeKind, effects: Effects) -> Node {
    Node { ty: IrType::Integer { width: IntWidth::I64, signed: false }, id: id(n), kind, effects }
}

fn reads() -> Effects {
    Effects { read_memory: true, ..Effects::none() }
}

fn writes() -> Effects {
    Effects { write_memory: true, ..Effects::none() }
}

fn allocates() -> Effects {
    Effects { allocate: true, ..Effects::none() }
}

fn function(name: &str, arena: Vec<Node>) -> Function {
    let return_node = arena.iter().find(|n| matches!(n.kind, NodeKind::Return { .. })).map(|n| n.id);
    Function { return_ty: IrType::Integer { width: IntWidth::I64, signed: false }, name: name.to_string(), params: vec![], arena, return_node }
}

#[test]
fn pure_arithmetic_is_pure() {
    let func = function(
        "f",
        vec![
            node(0, NodeKind::Parameter { index: 0 }),
            node(1, NodeKind::Parameter { index: 1 }),
            node(2, NodeKind::Add { lhs: id(0), rhs: id(1) }),
            node(3, NodeKind::Return { value: id(2) }),
        ],
    );
    let facts = run_purity(&func);
    let sum_fact = facts.get(id(2)).unwrap();
    assert_eq!(sum_fact.purity, PurityLevel::Pure);
    assert!(sum_fact.subgraph_is_pure);
}

fn memory_function() -> Vec<Node> {
    vec![
        node(0, NodeKind::Constant(ConstantData::u64(1))),
        effectful(1, NodeKind::Allocate { ty: "u8".to_string(), count: id(0) }, allocates()),
        effectful(2, NodeKind::Load { ptr: id(1) }, reads()),
    ]
}

#[test]
fn load_is_not_pure() {
    let mut arena = memory_function();
    arena.push(node(3, NodeKind::Return { value: id(2) }));
    let func = function("mem", arena);
    let facts = run_purity(&func);
    let load_fact = facts.get(id(2)).unwrap();
    assert_eq!(load_fact.purity, PurityLevel::ReadsMemory);
    assert!(!load_fact.subgraph_is_pure);
}

#[test]
fn transitive_impurity() {
    let mut arena = memory_function();
    arena.push(node(3, NodeKind::Constant(ConstantData::i32(1))));
    arena.push(node(4, NodeKind::Add { lhs: id(3), rhs: id(2) }));
    arena.push(node(5, NodeKind::Return { value: id(4) }));
    let func = function("trans", arena);
    let facts = run_purity(&func);
    let sum_fact = facts.get(id(4)).unwrap();
    assert_eq!(sum_fact.purity, PurityLevel::Pure);
    assert!(!sum_fact.subgraph_is_pure);
}

#[test]
fn store_is_not_pure() {
    let func = function(
        "store",
        vec![
            node(0, NodeKind::Constant(ConstantData::u64(1))),
            effectful(1, NodeKind::Allocate { ty: "u8".to_string(), count: id(0) }, allocates()),
            node(2, NodeKind::Constant(ConstantData::i32(10))),
            effectful(3, NodeKind::Store { ptr: id(1), value: id(2) }, writes()),
            node(4, NodeKind::Return { value: id(3) }),
        ],
    );
    let facts = run_purity(&func);
    let s_fact = facts.get(id(3)).unwrap();
    assert_eq!(s_fact.purity, PurityLevel::WritesMemory);
    assert!(!s_fact.subgraph_is_pure);
}

#[test]
fn pure_function_all_pure() {
    let func = function(
        "pure_func",
        vec![
            node(0, NodeKind::Parameter { index: 0 }),
            node(1, NodeKind::Constant(ConstantData::i32(2))),
            node(2, NodeKind::Mul { lhs: id(0), rhs: id(1) }),
            node(3, NodeKind::Return { value: id(2) }),
        ],
    );
    let facts = run_purity(&func);
    assert_eq!(facts.len(), 4);
    for n in 0..4 {
        assert!(facts.get(id(n)).unwrap().subgraph_is_pure);
    }
}

#[test]
fn select_with_impure_branch() {
    let func = function(
        "sel_impure",
        vec![
            node(0, NodeKind::Parameter { index: 0 }),
            node(1, NodeKind::Parameter { index: 1 }),
            node(2, NodeKind::Constant(ConstantData::u64(1))),
            effectful(3, NodeKind::Allocate { ty: "u8".to_string(), count: id(2) }, allocates()),
            effectful(4, NodeKind::Load { ptr: id(3) }, reads()),
            node(5, NodeKind::Select { cond: id(0), true_val: id(1), false_val: id(4) }),
            node(6, NodeKind::Return { value: id(5) }),
        ],
    );
    let facts = run_purity(&func);
    let sel_fact = facts.get(id(5)).unwrap();
    assert_eq!(sel_fact.purity, PurityLevel::Pure);
    assert!(!sel_fact.subgraph_is_pure);
}

#[test]
fn purity_levels_by_precedence() {
    let func = function(
        "levels",
        vec![
            effectful(0, NodeKind::Parameter { index: 0 }, Effects { io: true, read_memory: true, ..Effects::none() }),
            effectful(1, NodeKind::Parameter { index: 1 }, Effects { atomic: true, allocate: true, ..Effects::none() }),
            effectful(2, NodeKind::Parameter { index: 2 }, Effects { other: true, ..Effects::none() }),
            effectful(3, NodeKind::Parameter { index: 3 }, allocates()),
        ],
    );
    let facts = run_purity(&func);
    assert_eq!(facts.get(id(0)).unwrap().purity, PurityLevel::IO);
    assert_eq!(facts.get(id(1)).unwrap().purity, PurityLevel::Atomic);
    assert_eq!(facts.get(id(2)).unwrap().purity, PurityLevel::Unknown);
    assert_eq!(facts.get(id(3)).unwrap().purity, PurityLevel::Allocates);
}

#[test]
fn operand_with_larger_identifier_is_visited_first() {
    let func = function(
        "later",
        vec![
            node(0, NodeKind::Parameter { index: 0 }),
            // Node 1 reads node 2, which has a larger identifier.
            node(1, NodeKind::Neg { operand: id(2) }),
            node(2, NodeKind::Neg { operand: id(0) }),
        ],
    );
    let facts = run_purity(&func);
    assert!(facts.get(id(1)).unwrap().subgraph_is_pure);
    assert!(facts.get(id(2)).unwrap().subgraph_is_pure);
}
