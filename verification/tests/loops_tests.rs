use sir::facts::ConstantData;
use sir::ir::{Effects, Function, Node, NodeId, NodeKind, IntWidth, IrType};
use sir::loops::run_loops;

fn id(n: u64) -> NodeId {
    NodeId::new(n)
}

fn node(n: u64, kind: NodeKind) -> Node {
    Node { ty: IrType::Integer { width: IntWidth::I64, signed: false }, id: id(n), kind, effects: Effects::none() }
}

fn function(name: &str, arena: Vec<Node>) -> Function {
    let return_node = arena.iter().find(|n| matches!(n.kind, NodeKind::Return { .. })).map(|n| n.id);
    Function { return_ty: IrType::Integer { width: IntWidth::I64, signed: false }, name: name.to_string(), params: vec![], arena, return_node }
}

fn ids(v: &[u64]) -> Vec<NodeId> {
    v.iter().map(|n| id(*n)).collect()
}

fn loop_node(n: u64, body: &[u64], termination: u64, outputs: &[u64], carried: &[u64]) -> Node {
    node(
        n,
        NodeKind::Loop {
            body: ids(body),
            termination: id(termination),
            outputs: ids(outputs),
            carried_inputs: ids(carried),
        },
    )
}

#[test]
fn simple_counted_loop_has_trip_count() {
    let func = function(
        "counted",
        vec![
            node(0, NodeKind::Parameter { index: 0 }),
            node(1, NodeKind::Constant(ConstantData::u64(1))),
            node(2, NodeKind::Constant(ConstantData::u64(64))),
            node(3, NodeKind::Add { lhs: id(0), rhs: id(1) }),
            node(4, NodeKind::Lt { lhs: id(0), rhs: id(2) }),
            loop_node(5, &[3, 4], 4, &[3], &[0]),
            node(6, NodeKind::Return { value: id(5) }),
        ],
    );
    let facts = run_loops(&func);
    let loop_fact = facts.get(id(5)).unwrap();
    assert!(loop_fact.is_finite);
    assert!(loop_fact.trip_count.is_some());
    assert_eq!(loop_fact.trip_count, Some(64));
    assert_eq!(loop_fact.carried, ids(&[0]));
}

#[test]
fn empty_function_has_no_loops() {
    let func = function(
        "f",
        vec![node(0, NodeKind::Parameter { index: 0 }), node(1, NodeKind::Return { value: id(0) })],
    );
    let facts = run_loops(&func);
    assert!(facts.is_empty());
}

#[test]
fn reduction_detection() {
    let func = function(
        "reduce",
        vec![
            node(0, NodeKind::Parameter { index: 0 }),
            node(1, NodeKind::Constant(ConstantData::u64(1))),
            node(2, NodeKind::Add { lhs: id(0), rhs: id(1) }),
            node(3, NodeKind::Constant(ConstantData::Bool(true))),
            loop_node(4, &[2], 3, &[2], &[0]),
            node(5, NodeKind::Return { value: id(4) }),
        ],
    );
    let facts = run_loops(&func);
    let loop_fact = facts.get(id(4)).unwrap();
    assert!(!loop_fact.reductions.is_empty());
    let red = &loop_fact.reductions[0];
    assert_eq!(red.reduction_kind, "sum");
    assert_eq!(red.variable, id(0));
    assert_eq!(red.invariant_value, id(1));
    assert!(!loop_fact.is_finite);
}

#[test]
fn nested_loop_detection() {
    let func = function(
        "nested",
        vec![
            node(0, NodeKind::Parameter { index: 0 }),
            node(1, NodeKind::Constant(ConstantData::u64(1))),
            node(2, NodeKind::Constant(ConstantData::Bool(true))),
            node(3, NodeKind::Add { lhs: id(0), rhs: id(1) }),
            loop_node(4, &[3], 2, &[3], &[0]),
            loop_node(5, &[4, 3], 2, &[3], &[0]),
            node(6, NodeKind::Return { value: id(5) }),
        ],
    );
    let facts = run_loops(&func);
    let outer_fact = facts.get(id(5)).unwrap();
    assert!(outer_fact.is_nested);
    assert!(!facts.get(id(4)).unwrap().is_nested);
    assert_eq!(facts.len(), 2);
}

#[test]
fn reductions_of_each_kind() {
    let func = function(
        "kinds",
        vec![
            node(0, NodeKind::Parameter { index: 0 }),
            node(1, NodeKind::Parameter { index: 1 }),
            node(2, NodeKind::Parameter { index: 2 }),
            node(3, NodeKind::Parameter { index: 3 }),
            node(9, NodeKind::Parameter { index: 4 }),
            node(4, NodeKind::Mul { lhs: id(9), rhs: id(0) }),
            node(5, NodeKind::BoolOr { lhs: id(1), rhs: id(9) }),
            node(6, NodeKind::Ne { lhs: id(9), rhs: id(2) }),
            node(7, NodeKind::Sub { lhs: id(3), rhs: id(9) }),
            node(8, NodeKind::Constant(ConstantData::u64(10))),
            node(10, NodeKind::Ge { lhs: id(8), rhs: id(3) }),
            loop_node(11, &[4, 5, 6, 7], 10, &[4, 5, 6, 7], &[0, 1, 2, 3]),
        ],
    );
    let facts = run_loops(&func);
    let fact = facts.get(id(11)).unwrap();
    let kinds: Vec<&str> = fact.reductions.iter().map(|r| r.reduction_kind.as_str()).collect();
    assert_eq!(kinds, vec!["product", "bitwise_or", "bitwise_xor"]);
    assert_eq!(fact.reductions[0].invariant_value, id(9));
    assert_eq!(fact.reductions[1].invariant_value, id(9));
    assert_eq!(fact.trip_count, Some(10));
    assert!(fact.is_finite);
}

#[test]
fn negative_bound_gives_no_trip_count() {
    let func = function(
        "negative",
        vec![
            node(0, NodeKind::Parameter { index: 0 }),
            node(1, NodeKind::Constant(ConstantData::i32(-4))),
            node(2, NodeKind::Lt { lhs: id(0), rhs: id(1) }),
            loop_node(3, &[2], 2, &[], &[0]),
        ],
    );
    let facts = run_loops(&func);
    let fact = facts.get(id(3)).unwrap();
    assert_eq!(fact.trip_count, None);
    assert!(!fact.is_finite);
    assert!(fact.reductions.is_empty());
}
