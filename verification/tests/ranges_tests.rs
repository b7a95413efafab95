use sir::facts::{ConstantData, RangeFact};
use sir::ir::{Effects, Function, Node, NodeId, NodeKind, IntWidth, IrType};
use sir::ranges::run_ranges;

fn id(n: u64) -> NodeId {
    NodeId::new(n)
}

fn node(n: u64, kind: NodeKind) -> Node {
    Node { ty: IrType::Integer { width: IntWidth::I64, signed: false }, id: id(n), kind, effects: Effects::none() }
}

fn function(name: &str, arena: Vec<Node>) -> Function {
    let return_node = arena.iter().find(|n| matches!(n.kind, NodeKind::Return { .. })).map(|n| n.id);
    Function { return_ty: IrType::Integer { width: IntWidth::I64, signed: false }, name: name.to_string(), params: vec![], arena, return_node }
}

fn constant(n: u64, d: ConstantData) -> Node {
    node(n, NodeKind::Constant(d))
}

fn range_of(func: &Function, n: u64) -> RangeFact {
    *run_ranges(func).get(id(n)).unwrap()
}

#[test]
fn constant_range() {
    let func = function("f", vec![constant(0, ConstantData::i32(42)), node(1, NodeKind::Return { value: id(0) })]);
    let c_fact = range_of(&func, 0);
    assert_eq!(c_fact.lower, Some(42));
    assert_eq!(c_fact.upper, Some(42));
    assert!(c_fact.is_nonzero);
}

#[test]
fn add_propagates_range() {
    let func = function(
        "f",
        vec![
            constant(0, ConstantData::i32(1)),
            constant(1, ConstantData::i32(2)),
            node(2, NodeKind::Add { lhs: id(0), rhs: id(1) }),
            node(3, NodeKind::Return { value: id(2) }),
        ],
    );
    let sum_fact = range_of(&func, 2);
    assert_eq!(sum_fact.lower, Some(3));
    assert_eq!(sum_fact.upper, Some(3));
}

#[test]
fn comparison_range_is_0_to_1() {
    let func = function(
        "cmp",
        vec![
            node(0, NodeKind::Parameter { index: 0 }),
            node(1, NodeKind::Parameter { index: 1 }),
            node(2, NodeKind::Eq { lhs: id(0), rhs: id(1) }),
            node(3, NodeKind::Return { value: id(2) }),
        ],
    );
    let eq_fact = range_of(&func, 2);
    assert_eq!(eq_fact.lower, Some(0));
    assert_eq!(eq_fact.upper, Some(1));
}

#[test]
fn popcount_range() {
    let func = function(
        "pop",
        vec![
            node(0, NodeKind::Parameter { index: 0 }),
            node(1, NodeKind::Popcount { operand: id(0) }),
            node(2, NodeKind::Return { value: id(1) }),
        ],
    );
    let pop_fact = range_of(&func, 1);
    assert_eq!(pop_fact.lower, Some(0));
    assert_eq!(pop_fact.upper, Some(64));
}

#[test]
fn nonzero_power_of_two_detection() {
    let func = function("f", vec![constant(0, ConstantData::i32(8)), node(1, NodeKind::Return { value: id(0) })]);
    let c_fact = range_of(&func, 0);
    assert!(c_fact.is_nonzero);
    assert!(c_fact.is_power_of_two);
}

#[test]
fn constant_properties() {
    let func = function(
        "consts",
        vec![
            constant(0, ConstantData::i32(12)),
            constant(1, ConstantData::i32(-8)),
            constant(2, ConstantData::i32(0)),
            constant(3, ConstantData::boolean(true)),
            constant(4, ConstantData::Unit),
            constant(5, ConstantData::Integer { bits: u128::MAX, signed: false, width: 128 }),
            constant(6, ConstantData::Integer { bits: u128::MAX, signed: true, width: 128 }),
        ],
    );
    let twelve = range_of(&func, 0);
    assert_eq!(twelve.alignment, Some(4));
    assert!(!twelve.is_power_of_two);
    let minus_eight = range_of(&func, 1);
    assert_eq!(minus_eight.lower, Some(-8));
    assert_eq!(minus_eight.alignment, Some(8));
    assert!(minus_eight.is_nonzero);
    assert!(!minus_eight.is_power_of_two);
    let zero = range_of(&func, 2);
    assert_eq!(zero.lower, Some(0));
    assert_eq!(zero.alignment, None);
    assert!(!zero.is_nonzero);
    let truth = range_of(&func, 3);
    assert_eq!((truth.lower, truth.upper), (Some(1), Some(1)));
    assert!(truth.is_power_of_two);
    let unit = range_of(&func, 4);
    assert_eq!((unit.lower, unit.upper, unit.alignment), (None, None, None));
    let huge = range_of(&func, 5);
    assert_eq!(huge.lower, None);
    let minus_one = range_of(&func, 6);
    assert_eq!(minus_one.lower, Some(-1));
    assert_eq!(minus_one.alignment, Some(1));
}

#[test]
fn product_and_mask_ranges() {
    let func = function(
        "mul",
        vec![
            node(0, NodeKind::Parameter { index: 0 }),
            constant(1, ConstantData::i32(-3)),
            constant(2, ConstantData::i32(4)),
            constant(3, ConstantData::i32(255)),
            node(4, NodeKind::Mul { lhs: id(1), rhs: id(2) }),
            node(5, NodeKind::Mul { lhs: id(0), rhs: id(2) }),
            node(6, NodeKind::And { lhs: id(0), rhs: id(3) }),
        ],
    );
    let product = range_of(&func, 4);
    assert_eq!((product.lower, product.upper), (Some(-12), Some(-12)));
    assert!(!product.is_nonzero);
    let unknown = range_of(&func, 5);
    assert_eq!((unknown.lower, unknown.upper), (None, None));
    let masked = range_of(&func, 6);
    assert_eq!((masked.lower, masked.upper), (Some(0), Some(255)));
}

#[test]
fn shift_ranges() {
    let func = function(
        "shl",
        vec![
            constant(0, ConstantData::i32(1)),
            constant(1, ConstantData::i32(3)),
            constant(2, ConstantData::i32(200)),
            node(3, NodeKind::Shl { lhs: id(0), rhs: id(0) }),
            node(4, NodeKind::Shl { lhs: id(1), rhs: id(2) }),
            node(5, NodeKind::Shl { lhs: id(1), rhs: id(1) }),
        ],
    );
    let one_shifted = range_of(&func, 3);
    assert_eq!((one_shifted.lower, one_shifted.upper), (Some(2), Some(2)));
    assert!(one_shifted.is_nonzero && one_shifted.is_power_of_two);
    let too_far = range_of(&func, 4);
    assert_eq!((too_far.lower, too_far.upper), (None, None));
    let three_shifted = range_of(&func, 5);
    assert_eq!((three_shifted.lower, three_shifted.upper), (Some(24), Some(24)));
    assert!(!three_shifted.is_power_of_two);
}

#[test]
fn saturating_sum_and_dataflow_order() {
    let max = ConstantData::Integer { bits: i128::MAX as u128, signed: false, width: 128 };
    let func = function(
        "sat",
        vec![
            constant(0, max),
            node(1, NodeKind::Add { lhs: id(0), rhs: id(0) }),
            // Node 2 reads node 3, which has a larger identifier: the
            // dataflow order still visits node 3 first.
            node(2, NodeKind::Add { lhs: id(3), rhs: id(0) }),
            node(3, NodeKind::Add { lhs: id(0), rhs: id(0) }),
        ],
    );
    let saturated = range_of(&func, 1);
    assert_eq!(saturated.lower, Some(i128::MAX));
    assert_eq!(saturated.upper, Some(i128::MAX));
    let later = range_of(&func, 2);
    assert_eq!((later.lower, later.upper), (Some(i128::MAX), Some(i128::MAX)));
    assert_eq!(run_ranges(&func).len(), 4);
}
