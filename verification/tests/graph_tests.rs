use sir::facts::ConstantData;
use sir::graph::{
    all_node_ids, dataflow_inputs, is_leaf, is_return, leaf_nodes, predecessor_map, reachable,
    topological_sort, transitive_inputs, users,
};
use sir::ir::{Effects, Function, Node, NodeId, NodeKind, IntWidth, IrType};

fn id(n: u64) -> NodeId {
    NodeId::new(n)
}

fn node(n: u64, kind: NodeKind) -> Node {
    Node { ty: IrType::Integer { width: IntWidth::I64, signed: false }, id: id(n), kind, effects: Effects::none() }
}

fn function(name: &str, arena: Vec<Node>) -> Function {
    let return_node = arena.iter().find(|n| matches!(n.kind, NodeKind::Return { .. })).map(|n| n.id);
    Function { return_ty: IrType::Integer { width: IntWidth::I64, signed: false }, name: name.to_string(), params: vec![], arena, return_node }
}

#[test]
fn dataflow_inputs_constant_is_empty() {
    let c = NodeKind::Constant(ConstantData::i32(42));
    assert!(dataflow_inputs(&c).is_empty());
}

#[test]
fn dataflow_inputs_add_returns_two() {
    let add = NodeKind::Add { lhs: NodeId::new(1), rhs: NodeId::new(2) };
    assert_eq!(dataflow_inputs(&add), vec![NodeId::new(1), NodeId::new(2)]);
}

#[test]
fn dataflow_inputs_loop_filters_body() {
    let loop_node = NodeKind::Loop {
        body: vec![NodeId::new(10), NodeId::new(11)],
        termination: NodeId::new(5),
        outputs: vec![NodeId::new(12)],
        carried_inputs: vec![NodeId::new(3)],
    };
    let inputs = dataflow_inputs(&loop_node);
    // Only termination and carried_inputs are dataflow; body and outputs are not.
    assert!(inputs.contains(&NodeId::new(5)));
    assert!(inputs.contains(&NodeId::new(3)));
    assert!(!inputs.contains(&NodeId::new(10)));
    assert!(!inputs.contains(&NodeId::new(12)));
}

#[test]
fn dataflow_inputs_of_calls_and_selects() {
    let call = NodeKind::Call { callee: id(1), args: vec![id(2), id(3)] };
    assert_eq!(dataflow_inputs(&call), vec![id(1), id(2), id(3)]);
    let sel = NodeKind::Select { cond: id(4), true_val: id(5), false_val: id(6) };
    assert_eq!(dataflow_inputs(&sel), vec![id(4), id(5), id(6)]);
    let ext = NodeKind::ExternalCall { name: "ext".to_string(), args: vec![id(7)] };
    assert_eq!(dataflow_inputs(&ext), vec![id(7)]);
}

#[test]
fn users_finds_all_consumers() {
    // x = param 0, y = param 1, s1 = x + y, s2 = x + s1, return s2
    let func = function(
        "test",
        vec![
            node(0, NodeKind::Parameter { index: 0 }),
            node(1, NodeKind::Parameter { index: 1 }),
            node(2, NodeKind::Add { lhs: id(0), rhs: id(1) }),
            node(3, NodeKind::Add { lhs: id(0), rhs: id(2) }),
            node(4, NodeKind::Return { value: id(3) }),
        ],
    );
    let (x, y, s1, s2) = (id(0), id(1), id(2), id(3));

    let x_users = users(x, &func.arena);
    // x is used by both add instructions.
    assert_eq!(x_users.len(), 2);
    assert!(x_users.contains(&s1));
    assert!(x_users.contains(&s2));

    let y_users = users(y, &func.arena);
    assert_eq!(y_users.len(), 1);
    assert!(y_users.contains(&s1));
}

#[test]
fn topological_sort_parameters_first_return_last() {
    let func = function(
        "add",
        vec![
            node(0, NodeKind::Parameter { index: 0 }),
            node(1, NodeKind::Parameter { index: 1 }),
            node(2, NodeKind::Add { lhs: id(0), rhs: id(1) }),
            node(3, NodeKind::Return { value: id(2) }),
        ],
    );
    let (a, b_param, sum) = (id(0), id(1), id(2));

    let order = topological_sort(&func);
    // Parameters should be first in the order.
    let a_pos = order.iter().position(|&n| n == a).unwrap();
    let b_pos = order.iter().position(|&n| n == b_param).unwrap();
    // Both params must precede the add.
    let sum_pos = order.iter().position(|&n| n == sum).unwrap();
    assert!(a_pos < sum_pos);
    assert!(b_pos < sum_pos);
    assert_eq!(order, vec![id(0), id(1), id(2), id(3)]);
}

#[test]
fn topological_sort_orders_by_identifier_leaves_first() {
    let func = function(
        "shuffled",
        vec![
            node(9, NodeKind::Return { value: id(7) }),
            node(7, NodeKind::Neg { operand: id(5) }),
            node(5, NodeKind::Constant(ConstantData::u64(1))),
            node(2, NodeKind::Parameter { index: 0 }),
        ],
    );
    assert_eq!(topological_sort(&func), vec![id(2), id(5), id(7), id(9)]);
    assert_eq!(all_node_ids(&func), vec![id(9), id(7), id(5), id(2)]);
}

#[test]
fn topological_sort_follows_dataflow_not_identifiers() {
    let func = function(
        "neg",
        vec![
            node(0, NodeKind::Parameter { index: 0 }),
            node(1, NodeKind::Return { value: id(2) }),
            node(2, NodeKind::Neg { operand: id(0) }),
        ],
    );
    assert_eq!(topological_sort(&func), vec![id(0), id(2), id(1)]);
    let chain = function(
        "chain",
        vec![
            node(0, NodeKind::Parameter { index: 0 }),
            node(1, NodeKind::Neg { operand: id(3) }),
            node(2, NodeKind::Neg { operand: id(1) }),
            node(3, NodeKind::Neg { operand: id(0) }),
            node(4, NodeKind::Return { value: id(2) }),
        ],
    );
    assert_eq!(topological_sort(&chain), vec![id(0), id(3), id(1), id(2), id(4)]);
}

#[test]
fn is_leaf_for_constant_and_parameter() {
    assert!(is_leaf(&NodeKind::Constant(ConstantData::Unit)));
    assert!(is_leaf(&NodeKind::Parameter { index: 0 }));
    assert!(!is_leaf(&NodeKind::Add { lhs: NodeId::new(0), rhs: NodeId::new(1) }));
}

#[test]
fn is_return_detection() {
    assert!(is_return(&NodeKind::Return { value: NodeId::new(0) }));
    assert!(!is_return(&NodeKind::Add { lhs: NodeId::new(0), rhs: NodeId::new(1) }));
}

#[test]
fn leaf_nodes_finds_constants_and_parameters() {
    let func = function(
        "mixed",
        vec![
            node(0, NodeKind::Parameter { index: 0 }),
            node(1, NodeKind::Constant(ConstantData::i32(10))),
            node(2, NodeKind::Add { lhs: id(0), rhs: id(1) }),
            node(3, NodeKind::Return { value: id(2) }),
        ],
    );
    let (p, c, sum) = (id(0), id(1), id(2));

    let leaves = leaf_nodes(&func);
    assert!(leaves.contains(&p));
    assert!(leaves.contains(&c));
    assert!(!leaves.contains(&sum));
}

#[test]
fn reachable_true_for_direct_edge() {
    let func = function(
        "f",
        vec![
            node(0, NodeKind::Parameter { index: 0 }),
            node(1, NodeKind::Neg { operand: id(0) }),
            node(2, NodeKind::Return { value: id(1) }),
        ],
    );
    let (x, neg) = (id(0), id(1));

    assert!(reachable(neg, x, &func.arena));
    assert!(!reachable(x, neg, &func.arena)); // reverse edge
}

#[test]
fn reachable_follows_long_paths_and_cycles() {
    let arena = vec![
        node(0, NodeKind::Parameter { index: 0 }),
        node(1, NodeKind::Add { lhs: id(0), rhs: id(3) }),
        node(2, NodeKind::Neg { operand: id(1) }),
        node(3, NodeKind::Not { operand: id(2) }),
        node(4, NodeKind::Return { value: id(3) }),
    ];
    assert!(reachable(id(4), id(0), &arena));
    assert!(reachable(id(1), id(1), &arena));
    assert!(reachable(id(2), id(3), &arena));
    assert!(!reachable(id(0), id(4), &arena));
    assert!(!reachable(id(7), id(0), &arena));
    assert!(reachable(id(2), id(99), &vec![node(2, NodeKind::Neg { operand: id(99) })]));
}

#[test]
fn transitive_inputs_collects_subtree() {
    let func = function(
        "f",
        vec![
            node(0, NodeKind::Parameter { index: 0 }),
            node(1, NodeKind::Parameter { index: 1 }),
            node(2, NodeKind::Add { lhs: id(0), rhs: id(1) }),
            node(3, NodeKind::Mul { lhs: id(2), rhs: id(0) }),
            node(4, NodeKind::Return { value: id(3) }),
        ],
    );
    let (x, y, s1, s2) = (id(0), id(1), id(2), id(3));

    let inputs = transitive_inputs(s2, &func.arena);
    assert!(inputs.contains(&s1));
    assert!(inputs.contains(&x));
    assert!(inputs.contains(&y));
    assert!(!inputs.contains(&s2)); // not self
    assert_eq!(inputs.len(), 3);
}

#[test]
fn transitive_inputs_include_root_on_a_cycle() {
    let arena = vec![
        node(1, NodeKind::Neg { operand: id(2) }),
        node(2, NodeKind::Not { operand: id(1) }),
    ];
    let mut inputs = transitive_inputs(id(1), &arena);
    inputs.sort();
    assert_eq!(inputs, vec![id(1), id(2)]);
}

#[test]
fn predecessor_map_lists_operands() {
    let func = function(
        "f",
        vec![
            node(0, NodeKind::Parameter { index: 0 }),
            node(1, NodeKind::Neg { operand: id(0) }),
        ],
    );
    assert_eq!(predecessor_map(&func), vec![(id(0), vec![]), (id(1), vec![id(0)])]);
}
