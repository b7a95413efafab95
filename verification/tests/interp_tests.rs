use sir::facts::ConstantData;
use sir::h3::{CmpOperator, Value};
use sir::interp::{eval_function, eval_node};
use sir::ir::{ConvertKind, Effects, ElemTy, Function, IntWidth, IrType, Node, NodeId, NodeKind, Param};

fn id(n: u64) -> NodeId {
    NodeId::new(n)
}

fn u32_ty() -> IrType {
    IrType::Integer { width: IntWidth::I32, signed: false }
}

fn u8_ty() -> IrType {
    IrType::Integer { width: IntWidth::I8, signed: false }
}

fn typed(n: u64, kind: NodeKind, ty: IrType) -> Node {
    Node { id: id(n), kind, ty, effects: Effects::none() }
}

fn func(params: Vec<IrType>, arena: Vec<Node>) -> Function {
    let return_node = arena.iter().find(|n| matches!(n.kind, NodeKind::Return { .. })).map(|n| n.id);
    Function {
        name: "f".to_string(),
        params: params.into_iter().enumerate().map(|(i, ty)| Param { name: format!("a{}", i), ty }).collect(),
        arena,
        return_node,
        return_ty: u32_ty(),
    }
}

fn u32v(v: u128) -> Value {
    Value::Int { bits: v, signed: false, width: 32 }
}

fn sum_below() -> Function {
    func(
        vec![u32_ty()],
        vec![
            typed(0, NodeKind::Parameter { index: 0 }, u32_ty()),
            typed(1, NodeKind::Constant(ConstantData::u64(0)), u32_ty()),
            typed(2, NodeKind::Constant(ConstantData::u64(0)), u32_ty()),
            typed(3, NodeKind::Lt { lhs: id(1), rhs: id(0) }, IrType::Bool),
            typed(4, NodeKind::Constant(ConstantData::u64(1)), u32_ty()),
            typed(5, NodeKind::Add { lhs: id(1), rhs: id(4) }, u32_ty()),
            typed(6, NodeKind::Add { lhs: id(2), rhs: id(1) }, u32_ty()),
            typed(
                7,
                NodeKind::Loop {
                    body: vec![id(3), id(4), id(5), id(6)],
                    termination: id(3),
                    outputs: vec![id(5), id(6)],
                    carried_inputs: vec![id(1), id(2)],
                },
                IrType::Other,
            ),
            typed(8, NodeKind::TupleExtract { tuple: id(7), index: 1 }, u32_ty()),
            typed(9, NodeKind::Return { value: id(8) }, u32_ty()),
        ],
    )
}

#[test]
fn loop_sums_below_n() {
    let f = sum_below();
    assert_eq!(eval_function(&f, &vec![u32v(4)], 1000), Some(u32v(6)));
    assert_eq!(eval_function(&f, &vec![u32v(0)], 1000), Some(u32v(0)));
    assert_eq!(
        eval_node(&f, id(7), &vec![u32v(3)], &vec![], 1000),
        Some(Value::Tuple(vec![u32v(3), u32v(3)]))
    );
}

#[test]
fn steps_run_out() {
    let f = sum_below();
    assert_eq!(eval_function(&f, &vec![u32v(4)], 0), None);
    assert_eq!(eval_function(&f, &vec![u32v(1000)], 20), None);
}

#[test]
fn addition_wraps_at_its_width() {
    let f = func(
        vec![u32_ty(), u32_ty()],
        vec![
            typed(0, NodeKind::Parameter { index: 0 }, u32_ty()),
            typed(1, NodeKind::Parameter { index: 1 }, u32_ty()),
            typed(2, NodeKind::Add { lhs: id(0), rhs: id(1) }, u32_ty()),
            typed(3, NodeKind::Sub { lhs: id(1), rhs: id(0) }, u32_ty()),
            typed(4, NodeKind::Convert { operand: id(0), kind: ConvertKind::Truncate }, u8_ty()),
        ],
    );
    let args = vec![u32v(0xFFFF_FFFF), u32v(2)];
    assert_eq!(eval_node(&f, id(2), &args, &vec![], 10), Some(u32v(1)));
    assert_eq!(eval_node(&f, id(3), &args, &vec![], 10), Some(u32v(3)));
    assert_eq!(
        eval_node(&f, id(4), &args, &vec![], 10),
        Some(Value::Int { bits: 0xFF, signed: false, width: 8 })
    );
    assert_eq!(eval_node(&f, id(9), &args, &vec![], 10), None);
    assert_eq!(eval_node(&f, id(0), &vec![], &vec![], 10), None);
    assert_eq!(eval_node(&f, id(2), &args, &vec![(id(1), u32v(5))], 10), Some(u32v(4)));
}

#[test]
fn boolean_operators_short_circuit() {
    let f = func(
        vec![IrType::Bool],
        vec![
            typed(0, NodeKind::Parameter { index: 0 }, IrType::Bool),
            typed(1, NodeKind::BoolOr { lhs: id(0), rhs: id(99) }, IrType::Bool),
            typed(2, NodeKind::BoolAnd { lhs: id(0), rhs: id(99) }, IrType::Bool),
            typed(3, NodeKind::Select { cond: id(0), true_val: id(0), false_val: id(99) }, IrType::Bool),
        ],
    );
    let t = vec![Value::Bool(true)];
    let fl = vec![Value::Bool(false)];
    assert_eq!(eval_node(&f, id(1), &t, &vec![], 10), Some(Value::Bool(true)));
    assert_eq!(eval_node(&f, id(1), &fl, &vec![], 10), None);
    assert_eq!(eval_node(&f, id(2), &fl, &vec![], 10), Some(Value::Bool(false)));
    assert_eq!(eval_node(&f, id(2), &t, &vec![], 10), None);
    assert_eq!(eval_node(&f, id(3), &t, &vec![], 10), Some(Value::Bool(true)));
}

#[test]
fn arrays_masks_and_packs() {
    let arr_ty = IrType::Array { element: ElemTy::Integer { width: IntWidth::I8, signed: false }, length: 3 };
    let bools_ty = IrType::Array { element: ElemTy::Bool, length: 3 };
    let f = func(
        vec![arr_ty, bools_ty],
        vec![
            typed(0, NodeKind::Parameter { index: 0 }, arr_ty),
            typed(1, NodeKind::Constant(ConstantData::u64(3)), u8_ty()),
            typed(2, NodeKind::ArrayCmpMask { array: id(0), scalar: id(1), op: CmpOperator::Lt }, IrType::BitVector { width: 3 }),
            typed(3, NodeKind::Constant(ConstantData::u64(1)), u32_ty()),
            typed(4, NodeKind::ArrayAccess { base: id(0), index: id(3) }, u8_ty()),
            typed(5, NodeKind::Parameter { index: 1 }, bools_ty),
            typed(6, NodeKind::Pack { array: id(5) }, IrType::BitVector { width: 3 }),
            typed(7, NodeKind::Constant(ConstantData::u64(7)), u32_ty()),
            typed(8, NodeKind::ArrayAccess { base: id(0), index: id(7) }, u8_ty()),
            typed(9, NodeKind::Constant(ConstantData::u64(5)), IrType::BitVector { width: 70 }),
        ],
    );
    let args = vec![Value::IntArray(vec![1, 5, 3]), Value::BoolArray(vec![true, false, true])];
    assert_eq!(eval_node(&f, id(2), &args, &vec![], 10), Some(Value::Bits(vec![1])));
    assert_eq!(eval_node(&f, id(4), &args, &vec![], 10), Some(Value::Int { bits: 5, signed: false, width: 8 }));
    assert_eq!(eval_node(&f, id(6), &args, &vec![], 10), Some(Value::Bits(vec![5])));
    assert_eq!(eval_node(&f, id(8), &args, &vec![], 10), None);
    assert_eq!(eval_node(&f, id(9), &args, &vec![], 10), Some(Value::Bits(vec![5, 0])));
}

#[test]
fn more_steps_same_value() {
    let f = sum_below();
    let a = eval_function(&f, &vec![u32v(5)], 200);
    assert_eq!(a, Some(u32v(10)));
    assert_eq!(eval_function(&f, &vec![u32v(5)], 100_000), a);
}
