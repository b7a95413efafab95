use sir::emit::{c_type, constant_literal, emit_expr, emit_operand};
use sir::facts::ConstantData;
use sir::h3::CmpOperator;
use sir::ir::{Effects, ElemTy, Function, IntWidth, IrType, Node, NodeId, NodeKind, Param};

fn id(n: u64) -> NodeId {
    NodeId::new(n)
}

fn u64_ty() -> IrType {
    IrType::Integer { width: IntWidth::I64, signed: false }
}

fn typed(n: u64, kind: NodeKind, ty: IrType) -> Node {
    Node { id: id(n), kind, ty, effects: Effects::none() }
}

fn kernel() -> Function {
    let array_ty = IrType::Array { element: ElemTy::Integer { width: IntWidth::I16, signed: false }, length: 8 };
    Function {
        name: "k".to_string(),
        params: vec![
            Param { name: "%0".to_string(), ty: u64_ty() },
            Param { name: "n".to_string(), ty: array_ty },
        ],
        arena: vec![
            typed(0, NodeKind::Parameter { index: 0 }, u64_ty()),
            typed(1, NodeKind::Parameter { index: 1 }, array_ty),
            typed(2, NodeKind::Add { lhs: id(0), rhs: id(3) }, u64_ty()),
            typed(3, NodeKind::Constant(ConstantData::u64(7)), u64_ty()),
            typed(4, NodeKind::Popcount { operand: id(2) }, u64_ty()),
            typed(5, NodeKind::Constant(ConstantData::u64(3)), IrType::BitVector { width: 128 }),
            typed(6, NodeKind::LeadingZeros { operand: id(5) }, u64_ty()),
            typed(7, NodeKind::Eq { lhs: id(5), rhs: id(5) }, IrType::Bool),
            typed(8, NodeKind::ArrayCmpMask { array: id(1), scalar: id(0), op: CmpOperator::Lt }, IrType::BitVector { width: 8 }),
            typed(9, NodeKind::Select { cond: id(7), true_val: id(2), false_val: id(0) }, u64_ty()),
            typed(10, NodeKind::Neg { operand: id(0) }, u64_ty()),
        ],
        return_node: None,
        return_ty: u64_ty(),
    }
}

fn expr(f: &Function, k: usize) -> String {
    emit_expr(f, &vec![], &f.arena[k])
}

#[test]
fn c_types() {
    assert_eq!(c_type(&IrType::Integer { width: IntWidth::I32, signed: true }), "int32_t");
    assert_eq!(c_type(&IrType::Integer { width: IntWidth::I128, signed: false }), "uint64_t");
    assert_eq!(c_type(&IrType::Bool), "bool");
    assert_eq!(c_type(&IrType::Unit), "void");
    assert_eq!(
        c_type(&IrType::Pointer { pointee: ElemTy::Integer { width: IntWidth::I8, signed: false }, mutable: false }),
        "const uint8_t *"
    );
    assert_eq!(c_type(&IrType::Pointer { pointee: ElemTy::Bool, mutable: true }), "bool *");
    assert_eq!(c_type(&IrType::Array { element: ElemTy::Bool, length: 4 }), "bool[4]");
    assert_eq!(c_type(&IrType::BitVector { width: 64 }), "sir_bv");
    assert_eq!(c_type(&IrType::Slice { element: ElemTy::Bool }), "void");
}

#[test]
fn constant_literals() {
    let signed = IrType::Integer { width: IntWidth::I32, signed: true };
    assert_eq!(constant_literal(&ConstantData::i32(-5), &signed), "(-5)");
    assert_eq!(constant_literal(&ConstantData::u64(7), &u64_ty()), "(7ULL)");
    assert_eq!(constant_literal(&ConstantData::u64(1), &IrType::Bool), "true");
    assert_eq!(constant_literal(&ConstantData::u64(0), &IrType::Bool), "false");
    assert_eq!(
        constant_literal(&ConstantData::u64(3), &IrType::BitVector { width: 8 }),
        "((sir_bv){ .w = { (uint64_t)3ULL } })"
    );
    assert_eq!(constant_literal(&ConstantData::u64(3), &IrType::Unit), "0");
}

#[test]
fn operands_and_expressions() {
    let f = kernel();
    assert_eq!(emit_operand(&f, &vec![], id(0)), "p0");
    assert_eq!(emit_operand(&f, &vec![], id(1)), "n");
    assert_eq!(emit_operand(&f, &vec![], id(3)), "(7ULL)");
    assert_eq!(emit_operand(&f, &vec![], id(4)), "v4");
    assert_eq!(emit_operand(&f, &vec![], id(42)), "/* missing 42 */ 0");
    assert_eq!(expr(&f, 2), "(p0 + (7ULL))");
    assert_eq!(emit_expr(&f, &vec![(id(0), "c_0".to_string())], &f.arena[2]), "(c_0 + (7ULL))");
    assert_eq!(expr(&f, 4), "__builtin_popcountll(v2)");
    assert_eq!(expr(&f, 6), "__sir_bv_clz(((sir_bv){ .w = { (uint64_t)3ULL } }), 128u)");
    assert!(expr(&f, 7).starts_with("__sir_bv_eq("));
    assert_eq!(expr(&f, 8), "__sir_mask_cmp((const uint8_t *)n, 8u, 2u, (uint64_t)(p0), 2)");
    assert_eq!(expr(&f, 9), "(v7 ? v2 : p0)");
    assert_eq!(expr(&f, 10), "0");
}
