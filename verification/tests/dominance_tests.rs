use sir::dominance::run_dominance;
use sir::facts::DominanceFact;
use sir::ir::{Effects, Function, Node, NodeId, NodeKind, IntWidth, IrType};

fn id(n: u64) -> NodeId {
    NodeId::new(n)
}

fn node(n: u64, kind: NodeKind) -> Node {
    Node { ty: IrType::Integer { width: IntWidth::I64, signed: false }, id: id(n), kind, effects: Effects::none() }
}

fn function(name: &str, arena: Vec<Node>) -> Function {
    let return_node = arena.iter().find(|n| matches!(n.kind, NodeKind::Return { .. })).map(|n| n.id);
    Function { return_ty: IrType::Integer { width: IntWidth::I64, signed: false }, name: name.to_string(), params: vec![], arena, return_node }
}

fn ids(v: &[u64]) -> Vec<NodeId> {
    v.iter().map(|n| id(*n)).collect()
}

fn fact(func: &Function, n: u64) -> DominanceFact {
    run_dominance(func).get(id(n)).unwrap().clone()
}

#[test]
fn single_node_dominates_itself() {
    let func = function("f", vec![node(0, NodeKind::Parameter { index: 0 }), node(1, NodeKind::Return { value: id(0) })]);
    let x = id(0);
    let x_fact = fact(&func, 0);
    assert!(x_fact.dominators.contains(&x));
    // Parameter is a root — no idom.
    assert!(x_fact.idom.is_none());
}

#[test]
fn linear_chain_dominance() {
    let func = function(
        "chain",
        vec![
            node(0, NodeKind::Parameter { index: 0 }),
            node(1, NodeKind::Parameter { index: 1 }),
            node(2, NodeKind::Add { lhs: id(0), rhs: id(1) }),
            node(3, NodeKind::Neg { operand: id(2) }),
            node(4, NodeKind::Return { value: id(3) }),
        ],
    );
    let (s1, s2) = (id(2), id(3));
    let s2_dom = fact(&func, 3).dominators;
    assert!(s2_dom.contains(&s1));
    assert!(s2_dom.contains(&s2));
    let s1_dom = fact(&func, 2).dominators;
    assert!(s1_dom.contains(&s1));
    assert_eq!(s1_dom.len(), 1);
}

fn diamond() -> Function {
    function(
        "diamond",
        vec![
            node(0, NodeKind::Parameter { index: 0 }),
            node(1, NodeKind::Add { lhs: id(0), rhs: id(0) }),
            node(2, NodeKind::Add { lhs: id(0), rhs: id(0) }),
            node(3, NodeKind::Add { lhs: id(1), rhs: id(2) }),
            node(4, NodeKind::Return { value: id(3) }),
        ],
    )
}

#[test]
fn diamond_dominance() {
    let func = diamond();
    let s3_dom = fact(&func, 3).dominators;
    assert!(s3_dom.contains(&id(0)));
    assert!(s3_dom.contains(&id(3)));
}

#[test]
fn parameters_dominate_themselves() {
    let func = function(
        "f",
        vec![
            node(0, NodeKind::Parameter { index: 0 }),
            node(1, NodeKind::Parameter { index: 1 }),
            node(2, NodeKind::Add { lhs: id(0), rhs: id(1) }),
            node(3, NodeKind::Return { value: id(2) }),
        ],
    );
    let facts = run_dominance(&func);
    assert!(facts.get(id(0)).unwrap().dominators.contains(&id(0)));
    assert!(facts.get(id(1)).unwrap().dominators.contains(&id(1)));
    assert!(facts.get(id(2)).unwrap().dominators.contains(&id(2)));
}

#[test]
fn diamond_tree() {
    let func = diamond();
    let facts = run_dominance(&func);
    assert_eq!(facts.len(), 5);
    let x = facts.get(id(0)).unwrap();
    assert_eq!(x.dominators, ids(&[0]));
    assert_eq!(x.idom, None);
    assert_eq!(x.dom_tree_children, ids(&[1, 2, 3]));
    assert_eq!(x.dominates, ids(&[1, 2, 3, 4]));
    let s3 = facts.get(id(3)).unwrap();
    assert_eq!(s3.dominators, ids(&[0, 3]));
    assert_eq!(s3.idom, Some(id(0)));
    assert_eq!(s3.dom_tree_children, ids(&[4]));
    assert_eq!(s3.dominates, ids(&[4]));
    let ret = facts.get(id(4)).unwrap();
    assert_eq!(ret.dominators, ids(&[0, 3, 4]));
    assert_eq!(ret.idom, Some(id(3)));
    assert!(ret.dominates.is_empty());
}

#[test]
fn identifiers_out_of_arena_order() {
    let func = function(
        "shuffled",
        vec![
            node(9, NodeKind::Return { value: id(5) }),
            node(5, NodeKind::Neg { operand: id(7) }),
            node(7, NodeKind::Parameter { index: 0 }),
        ],
    );
    let facts = run_dominance(&func);
    let ret = facts.get(id(9)).unwrap();
    assert_eq!(ret.dominators, ids(&[5, 7, 9]));
    assert_eq!(ret.idom, Some(id(5)));
    assert_eq!(facts.get(id(7)).unwrap().dominates, ids(&[5, 9]));
}

#[test]
fn no_leaf_means_every_node_is_a_root() {
    let func = function(
        "cycle",
        vec![node(0, NodeKind::Neg { operand: id(1) }), node(1, NodeKind::Neg { operand: id(0) })],
    );
    let facts = run_dominance(&func);
    for n in 0..2 {
        let f = facts.get(id(n)).unwrap();
        assert_eq!(f.dominators, ids(&[n]));
        assert_eq!(f.idom, None);
        assert!(f.dom_tree_children.is_empty());
    }
}

#[test]
fn unreachable_cycle_is_dominated_by_everything() {
    let func = function(
        "loose",
        vec![
            node(0, NodeKind::Parameter { index: 0 }),
            node(1, NodeKind::Neg { operand: id(2) }),
            node(2, NodeKind::Neg { operand: id(1) }),
            // Node 3 reads a node the arena lacks.
            node(3, NodeKind::Neg { operand: id(8) }),
        ],
    );
    let facts = run_dominance(&func);
    assert_eq!(facts.get(id(1)).unwrap().dominators, ids(&[0, 1, 2, 3]));
    assert_eq!(facts.get(id(3)).unwrap().dominators, ids(&[0, 1, 2, 3]));
    assert_eq!(facts.get(id(1)).unwrap().idom, Some(id(2)));
    assert_eq!(facts.get(id(2)).unwrap().idom, Some(id(1)));
    assert_eq!(facts.get(id(0)).unwrap().dominates, ids(&[]));
}

#[test]
fn empty_function_has_no_dominance() {
    let func = function("empty", vec![]);
    assert!(run_dominance(&func).is_empty());
}
