use sir::emit_c::emit_c;
use sir::emit_order::{dependency_closure, topo_order};
use sir::facts::ConstantData;
use sir::ir::{ConvertKind, Effects, Function, IntWidth, IrType, Node, NodeId, NodeKind, Param};

fn id(n: u64) -> NodeId {
    NodeId::new(n)
}

fn u32_ty() -> IrType {
    IrType::Integer { width: IntWidth::I32, signed: false }
}

fn typed(n: u64, kind: NodeKind, ty: IrType) -> Node {
    Node { id: id(n), kind, ty, effects: Effects::none() }
}

fn func(name: &str, params: Vec<(&str, IrType)>, arena: Vec<Node>) -> Function {
    let return_node = arena.iter().find(|n| matches!(n.kind, NodeKind::Return { .. })).map(|n| n.id);
    Function {
        name: name.to_string(),
        params: params.into_iter().map(|(n, ty)| Param { name: n.to_string(), ty }).collect(),
        arena,
        return_node,
        return_ty: u32_ty(),
    }
}

#[test]
fn straight_line_function() {
    let f = func(
        "kernels::add",
        vec![("%0", u32_ty()), ("n", u32_ty())],
        vec![
            typed(0, NodeKind::Parameter { index: 0 }, u32_ty()),
            typed(1, NodeKind::Parameter { index: 1 }, u32_ty()),
            typed(2, NodeKind::Add { lhs: id(3), rhs: id(0) }, u32_ty()),
            typed(3, NodeKind::Add { lhs: id(0), rhs: id(1) }, u32_ty()),
            typed(4, NodeKind::Convert { operand: id(2), kind: ConvertKind::Truncate }, IrType::Integer { width: IntWidth::I8, signed: false }),
            typed(5, NodeKind::Return { value: id(2) }, u32_ty()),
        ],
    );
    assert_eq!(
        emit_c(&f),
        "#include <stdint.h>\n#include <stdbool.h>\n\nuint32_t add(uint32_t p0, uint32_t n) {\n    uint32_t v3 = (p0 + n);\n    uint32_t v2 = (v3 + p0);\n    uint8_t v4 = ((uint8_t) v2);\n    return v2;\n}\n"
    );
}

fn sum_below() -> Function {
    func(
        "sum",
        vec![("n", u32_ty())],
        vec![
            typed(0, NodeKind::Parameter { index: 0 }, u32_ty()),
            typed(1, NodeKind::Constant(ConstantData::u64(0)), u32_ty()),
            typed(2, NodeKind::Constant(ConstantData::u64(0)), u32_ty()),
            typed(3, NodeKind::Lt { lhs: id(1), rhs: id(0) }, IrType::Bool),
            typed(4, NodeKind::Constant(ConstantData::u64(1)), u32_ty()),
            typed(5, NodeKind::Add { lhs: id(1), rhs: id(4) }, u32_ty()),
            typed(6, NodeKind::Add { lhs: id(2), rhs: id(1) }, u32_ty()),
            typed(
                7,
                NodeKind::Loop {
                    body: vec![id(3), id(4), id(5), id(6)],
                    termination: id(3),
                    outputs: vec![id(5), id(6)],
                    carried_inputs: vec![id(1), id(2)],
                },
                IrType::Other,
            ),
            typed(8, NodeKind::TupleExtract { tuple: id(7), index: 1 }, u32_ty()),
            typed(9, NodeKind::Return { value: id(8) }, u32_ty()),
        ],
    )
}

#[test]
fn loop_function() {
    let expected = [
        "#include <stdint.h>\n#include <stdbool.h>\n\n",
        "uint32_t sum(uint32_t n) {\n",
        "    uint32_t c_0 = (0ULL);\n",
        "    uint32_t c_1 = (0ULL);\n",
        "    uint32_t o_0 = c_0;\n",
        "    uint32_t o_1 = c_1;\n",
        "    while (1) {\n",
        "        bool v3 = (c_0 < n);\n",
        "        if (!(v3)) break;\n",
        "        uint32_t v5 = (c_0 + (1ULL));\n",
        "        uint32_t v6 = (c_1 + c_0);\n",
        "        o_0 = v5;\n",
        "        o_1 = v6;\n",
        "        c_0 = o_0;\n",
        "        c_1 = o_1;\n",
        "    }\n",
        "    uint32_t v8 = o_1;\n",
        "    return v8;\n",
        "}\n",
    ]
    .concat();
    assert_eq!(emit_c(&sum_below()), expected);
}

#[test]
fn bit_masks_bring_the_helpers() {
    let f = func(
        "m",
        vec![("x", IrType::BitVector { width: 64 })],
        vec![typed(0, NodeKind::Parameter { index: 0 }, IrType::BitVector { width: 64 })],
    );
    let c = emit_c(&f);
    assert!(c.contains("typedef struct { uint64_t w[8]; } sir_bv;"));
    assert!(c.ends_with("uint32_t m(sir_bv x) {\n}\n"));
}

#[test]
fn orders_and_closures() {
    let f = sum_below();
    let all = vec![id(6), id(5), id(3)];
    assert_eq!(topo_order(&vec![id(6), id(5)], &all, &f), vec![id(6), id(5)]);
    assert_eq!(dependency_closure(&vec![id(3)], &f, &vec![id(1), id(2)]), vec![id(3)]);
    assert_eq!(dependency_closure(&vec![id(6)], &f, &vec![]), vec![id(6)]);
}
