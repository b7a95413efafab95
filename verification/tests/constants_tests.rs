use sir::constants::run_constants;
use sir::facts::{ConstantData, ConstantLattice};
use sir::ir::{Effects, Function, Node, NodeId, NodeKind, IntWidth, IrType};
use sir::use_def::run_use_def;

fn id(n: u64) -> NodeId {
    NodeId::new(n)
}

fn node(n: u64, kind: NodeKind) -> Node {
    Node { ty: IrType::Integer { width: IntWidth::I64, signed: false }, id: id(n), kind, effects: Effects::none() }
}

fn constant(n: u64, d: ConstantData) -> Node {
    node(n, NodeKind::Constant(d))
}

fn function(name: &str, arena: Vec<Node>) -> Function {
    let return_node = arena.iter().find(|n| matches!(n.kind, NodeKind::Return { .. })).map(|n| n.id);
    Function { return_ty: IrType::Integer { width: IntWidth::I64, signed: false }, name: name.to_string(), params: vec![], arena, return_node }
}

fn value(func: &Function, n: u64) -> ConstantLattice {
    run_constants(func, None).get(id(n)).unwrap().value
}

#[test]
fn constant_node_stays_constant() {
    let func = function("f", vec![constant(0, ConstantData::i32(42)), node(1, NodeKind::Return { value: id(0) })]);
    assert_eq!(value(&func, 0), ConstantLattice::Constant(ConstantData::i32(42)));
}

#[test]
fn parameter_is_top() {
    let func = function(
        "f",
        vec![node(0, NodeKind::Parameter { index: 0 }), node(1, NodeKind::Return { value: id(0) })],
    );
    assert!(value(&func, 0).is_top());
}

#[test]
fn constant_folding_add() {
    let func = function(
        "fold",
        vec![
            constant(0, ConstantData::i32(1)),
            constant(1, ConstantData::i32(2)),
            node(2, NodeKind::Add { lhs: id(0), rhs: id(1) }),
            node(3, NodeKind::Return { value: id(2) }),
        ],
    );
    assert_eq!(value(&func, 2), ConstantLattice::Constant(ConstantData::i64(3)));
}

#[test]
fn constant_folding_select() {
    let func = function(
        "sel_fold",
        vec![
            constant(0, ConstantData::Bool(true)),
            constant(1, ConstantData::i32(10)),
            constant(2, ConstantData::i32(20)),
            node(3, NodeKind::Select { cond: id(0), true_val: id(1), false_val: id(2) }),
            node(4, NodeKind::Return { value: id(3) }),
        ],
    );
    assert_eq!(value(&func, 3), ConstantLattice::Constant(ConstantData::i32(10)));
}

#[test]
fn mixed_constant_and_param_is_top() {
    let func = function(
        "mix",
        vec![
            node(0, NodeKind::Parameter { index: 0 }),
            constant(1, ConstantData::i32(5)),
            node(2, NodeKind::Add { lhs: id(0), rhs: id(1) }),
            node(3, NodeKind::Return { value: id(2) }),
        ],
    );
    assert!(value(&func, 2).is_top());
}

#[test]
fn chained_constant_folding() {
    let func = function(
        "chain",
        vec![
            constant(0, ConstantData::i32(1)),
            constant(1, ConstantData::i32(2)),
            constant(2, ConstantData::i32(3)),
            node(3, NodeKind::Add { lhs: id(0), rhs: id(1) }),
            node(4, NodeKind::Mul { lhs: id(3), rhs: id(2) }),
            node(5, NodeKind::Return { value: id(4) }),
        ],
    );
    let facts = run_constants(&func, None);
    assert!(facts.get(id(3)).unwrap().value.is_constant());
    assert!(facts.get(id(4)).unwrap().value.is_constant());
    assert_eq!(facts.get(id(4)).unwrap().value, ConstantLattice::Constant(ConstantData::i64(9)));
}

#[test]
fn bitwise_folding() {
    let func = function(
        "bitfold",
        vec![
            constant(0, ConstantData::u64(0xFF)),
            constant(1, ConstantData::u64(0x0F)),
            node(2, NodeKind::And { lhs: id(0), rhs: id(1) }),
            node(3, NodeKind::Return { value: id(2) }),
        ],
    );
    let and_value = value(&func, 2);
    assert!(and_value.is_constant());
    assert_eq!(and_value, ConstantLattice::Constant(ConstantData::u64(0x0F)));
}

#[test]
fn division_by_zero_is_overdefined() {
    let func = function(
        "div0",
        vec![
            constant(0, ConstantData::i32(7)),
            constant(1, ConstantData::i32(0)),
            node(2, NodeKind::Div { lhs: id(0), rhs: id(1) }),
            node(3, NodeKind::Rem { lhs: id(0), rhs: id(1) }),
            node(4, NodeKind::Neg { operand: id(2) }),
        ],
    );
    assert!(value(&func, 2).is_bottom());
    assert!(value(&func, 3).is_bottom());
    assert!(value(&func, 4).is_bottom());
}

#[test]
fn truncating_division_and_wrapping() {
    let func = function(
        "arith",
        vec![
            constant(0, ConstantData::i32(-7)),
            constant(1, ConstantData::i32(2)),
            node(2, NodeKind::Div { lhs: id(0), rhs: id(1) }),
            node(3, NodeKind::Rem { lhs: id(0), rhs: id(1) }),
            constant(4, ConstantData::i64(i64::MAX)),
            constant(5, ConstantData::i32(1)),
            node(6, NodeKind::Add { lhs: id(4), rhs: id(5) }),
            constant(7, ConstantData::u64(u64::MAX)),
            node(8, NodeKind::Add { lhs: id(7), rhs: id(7) }),
            node(9, NodeKind::Not { operand: id(5) }),
            node(10, NodeKind::Popcount { operand: id(7) }),
            node(11, NodeKind::Shl { lhs: id(5), rhs: id(1) }),
        ],
    );
    let facts = run_constants(&func, None);
    let v = |n: u64| facts.get(id(n)).unwrap().value;
    assert_eq!(v(2), ConstantLattice::Constant(ConstantData::i64(-3)));
    assert_eq!(v(3), ConstantLattice::Constant(ConstantData::i64(-1)));
    assert_eq!(v(6), ConstantLattice::Constant(ConstantData::i64(i64::MIN)));
    assert_eq!(v(8), ConstantLattice::Constant(ConstantData::u64(u64::MAX - 1)));
    assert_eq!(v(9), ConstantLattice::Constant(ConstantData::i64(-2)));
    assert_eq!(v(10), ConstantLattice::Constant(ConstantData::u64(64)));
    assert_eq!(v(11), ConstantLattice::Constant(ConstantData::u64(4)));
}

#[test]
fn comparisons_and_booleans_fold() {
    let func = function(
        "cmp",
        vec![
            constant(0, ConstantData::i32(3)),
            constant(1, ConstantData::i32(5)),
            node(2, NodeKind::Lt { lhs: id(0), rhs: id(1) }),
            node(3, NodeKind::Ge { lhs: id(0), rhs: id(1) }),
            node(4, NodeKind::BoolOr { lhs: id(2), rhs: id(3) }),
            node(5, NodeKind::BoolNot { operand: id(4) }),
            node(6, NodeKind::BoolAnd { lhs: id(0), rhs: id(2) }),
        ],
    );
    let facts = run_constants(&func, None);
    let v = |n: u64| facts.get(id(n)).unwrap().value;
    assert_eq!(v(2), ConstantLattice::Constant(ConstantData::Bool(true)));
    assert_eq!(v(3), ConstantLattice::Constant(ConstantData::Bool(false)));
    assert_eq!(v(4), ConstantLattice::Constant(ConstantData::Bool(true)));
    assert_eq!(v(5), ConstantLattice::Constant(ConstantData::Bool(false)));
    assert!(v(6).is_bottom());
}

#[test]
fn cycles_stay_unknown_and_use_def_facts_agree() {
    let func = function(
        "cycle",
        vec![
            constant(0, ConstantData::i32(1)),
            node(1, NodeKind::Add { lhs: id(1), rhs: id(0) }),
            node(2, NodeKind::Add { lhs: id(0), rhs: id(0) }),
            node(3, NodeKind::Load { ptr: id(2) }),
            node(4, NodeKind::Return { value: id(3) }),
        ],
    );
    let plain = run_constants(&func, None);
    assert!(plain.get(id(1)).unwrap().value.is_top());
    assert_eq!(plain.get(id(2)).unwrap().value, ConstantLattice::Constant(ConstantData::i64(2)));
    assert!(plain.get(id(3)).unwrap().value.is_top());
    let ud = run_use_def(&func);
    let with_facts = run_constants(&func, Some(&ud));
    for n in 0..5 {
        assert_eq!(plain.get(id(n)).unwrap().value, with_facts.get(id(n)).unwrap().value);
    }
}
