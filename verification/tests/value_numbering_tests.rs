use sir::facts::ConstantData;
use sir::ir::{Effects, Function, Node, NodeId, NodeKind, IntWidth, IrType};
use sir::value_numbering::run_value_numbering;

fn id(n: u64) -> NodeId {
    NodeId::new(n)
}

fn node(n: u64, kind: NodeKind) -> Node {
    Node { ty: IrType::Integer { width: IntWidth::I64, signed: false }, id: id(n), kind, effects: Effects::none() }
}

fn function(name: &str, arena: Vec<Node>) -> Function {
    let return_node = arena.iter().find(|n| matches!(n.kind, NodeKind::Return { .. })).map(|n| n.id);
    Function { return_ty: IrType::Integer { width: IntWidth::I64, signed: false }, name: name.to_string(), params: vec![], arena, return_node }
}

fn params() -> Vec<Node> {
    vec![node(0, NodeKind::Parameter { index: 0 }), node(1, NodeKind::Parameter { index: 1 })]
}

#[test]
fn identical_add_same_class() {
    let mut arena = params();
    arena.push(node(2, NodeKind::Add { lhs: id(0), rhs: id(1) }));
    arena.push(node(3, NodeKind::Add { lhs: id(0), rhs: id(1) }));
    arena.push(node(4, NodeKind::Return { value: id(3) }));
    let func = function("f", arena);
    let facts = run_value_numbering(&func);
    let s1_fact = facts.get(id(2)).unwrap();
    let s2_fact = facts.get(id(3)).unwrap();
    assert_eq!(s1_fact.congruence_class, s2_fact.congruence_class);
    assert_eq!(s2_fact.canonical, id(2));
}

#[test]
fn different_ops_different_class() {
    let mut arena = params();
    arena.push(node(2, NodeKind::Add { lhs: id(0), rhs: id(1) }));
    arena.push(node(3, NodeKind::Mul { lhs: id(0), rhs: id(1) }));
    arena.push(node(4, NodeKind::Constant(ConstantData::Bool(true))));
    arena.push(node(5, NodeKind::Select { cond: id(4), true_val: id(2), false_val: id(3) }));
    arena.push(node(6, NodeKind::Return { value: id(5) }));
    let func = function("f", arena);
    let facts = run_value_numbering(&func);
    assert_ne!(facts.get(id(2)).unwrap().congruence_class, facts.get(id(3)).unwrap().congruence_class);
}

#[test]
fn same_constant_same_class() {
    let func = function(
        "f",
        vec![
            node(0, NodeKind::Constant(ConstantData::i32(42))),
            node(1, NodeKind::Constant(ConstantData::i32(42))),
            node(2, NodeKind::Add { lhs: id(0), rhs: id(1) }),
            node(3, NodeKind::Return { value: id(2) }),
        ],
    );
    let facts = run_value_numbering(&func);
    assert_eq!(facts.get(id(0)).unwrap().congruence_class, facts.get(id(1)).unwrap().congruence_class);
}

#[test]
fn different_constant_different_class() {
    let func = function(
        "f",
        vec![
            node(0, NodeKind::Constant(ConstantData::i32(42))),
            node(1, NodeKind::Constant(ConstantData::i32(17))),
            node(2, NodeKind::Return { value: id(0) }),
        ],
    );
    let facts = run_value_numbering(&func);
    assert_ne!(facts.get(id(0)).unwrap().congruence_class, facts.get(id(1)).unwrap().congruence_class);
}

#[test]
fn canonical_is_smallest_node_id() {
    let func = function(
        "f",
        vec![
            node(0, NodeKind::Constant(ConstantData::i32(42))),
            node(1, NodeKind::Constant(ConstantData::i32(42))),
            node(2, NodeKind::Return { value: id(0) }),
        ],
    );
    let (c1, c2) = (id(0), id(1));
    let facts = run_value_numbering(&func);
    let c1_fact = facts.get(c1).unwrap();
    let c2_fact = facts.get(c2).unwrap();
    assert_eq!(c1_fact.canonical, c2_fact.canonical);
    assert_eq!(c1_fact.canonical, c1.min(c2));
}

#[test]
fn fnv_hash_of_a_parameter() {
    // FNV-1a over the words [2, 0]: the parameter tag and its index.
    let func = function("p", vec![node(7, NodeKind::Parameter { index: 0 })]);
    let facts = run_value_numbering(&func);
    let mut h: u64 = 0xcbf29ce484222325;
    for w in [2u64, 0u64] {
        h = (h ^ w).wrapping_mul(0x100000001b3);
    }
    assert_eq!(facts.get(id(7)).unwrap().congruence_class, h);
    assert_eq!(facts.get(id(7)).unwrap().canonical, id(7));
    assert_eq!(facts.len(), 1);
}

#[test]
fn commuted_operands_differ() {
    let mut arena = params();
    arena.push(node(2, NodeKind::Sub { lhs: id(0), rhs: id(1) }));
    arena.push(node(3, NodeKind::Sub { lhs: id(1), rhs: id(0) }));
    let func = function("sub", arena);
    let facts = run_value_numbering(&func);
    assert_ne!(facts.get(id(2)).unwrap().congruence_class, facts.get(id(3)).unwrap().congruence_class);
    assert_eq!(facts.get(id(3)).unwrap().canonical, id(3));
}

#[test]
fn field_names_separate_classes() {
    let mut arena = params();
    arena.push(node(2, NodeKind::FieldAccess { base: id(0), field: "len".to_string() }));
    arena.push(node(3, NodeKind::FieldAccess { base: id(0), field: "cap".to_string() }));
    arena.push(node(4, NodeKind::FieldAccess { base: id(0), field: "len".to_string() }));
    arena.push(node(5, NodeKind::Return { value: id(4) }));
    let func = function("fields", arena);
    let facts = run_value_numbering(&func);
    let len_a = facts.get(id(2)).unwrap();
    let cap = facts.get(id(3)).unwrap();
    let len_b = facts.get(id(4)).unwrap();
    assert_ne!(len_a.congruence_class, cap.congruence_class);
    assert_eq!(len_a.congruence_class, len_b.congruence_class);
    assert_eq!(len_b.canonical, id(2));
}

#[test]
fn callee_names_separate_classes() {
    let mut arena = params();
    arena.push(node(2, NodeKind::Intrinsic { name: "llvm.ctpop".to_string(), args: vec![id(0)] }));
    arena.push(node(3, NodeKind::Intrinsic { name: "llvm.ctlz".to_string(), args: vec![id(0)] }));
    arena.push(node(4, NodeKind::Allocate { ty: "u8".to_string(), count: id(1) }));
    arena.push(node(5, NodeKind::Allocate { ty: "u32".to_string(), count: id(1) }));
    arena.push(node(6, NodeKind::Return { value: id(2) }));
    let func = function("callees", arena);
    let facts = run_value_numbering(&func);
    let class = |n: u64| facts.get(id(n)).unwrap().congruence_class;
    assert_ne!(class(2), class(3));
    assert_ne!(class(4), class(5));
}

#[test]
fn canonical_is_smallest_even_when_visited_later() {
    let func = function(
        "late",
        vec![
            node(0, NodeKind::Parameter { index: 0 }),
            node(3, NodeKind::Add { lhs: id(4), rhs: id(0) }),
            node(4, NodeKind::Neg { operand: id(0) }),
            node(5, NodeKind::Neg { operand: id(0) }),
            node(6, NodeKind::Add { lhs: id(5), rhs: id(0) }),
            node(7, NodeKind::Return { value: id(6) }),
        ],
    );
    let facts = run_value_numbering(&func);
    let f3 = facts.get(id(3)).unwrap();
    let f6 = facts.get(id(6)).unwrap();
    assert_eq!(f3.congruence_class, f6.congruence_class);
    assert_eq!(f3.canonical, id(3));
    assert_eq!(f6.canonical, id(3));
    assert_eq!(facts.get(id(5)).unwrap().canonical, id(4));
}
