use sir::facts::ConstantData;
use sir::ir::{Effects, Function, Node, NodeId, NodeKind, Param, IntWidth, IrType};
use sir::vector_derive::{
    derive_vector_plan, derive_vector_plan_for_region, param_name, Provenance, SemanticConcept, SemanticTruth,
};
use sir::vector_plan::{TailPolicy, VectorOp, VectorPredicate};

fn id(n: u64) -> NodeId {
    NodeId::new(n)
}

fn node(n: u64, kind: NodeKind) -> Node {
    Node { ty: IrType::Integer { width: IntWidth::I64, signed: false }, id: id(n), kind, effects: Effects::none() }
}

fn params(names: &[&str]) -> Vec<Param> {
    names.iter().map(|n| Param { ty: IrType::Integer { width: IntWidth::I8, signed: false }, name: n.to_string() }).collect()
}

fn truth(concept: SemanticConcept) -> SemanticTruth {
    SemanticTruth { concept, provenance: Provenance::Other }
}

fn predicate_truth(nodes: &[u64]) -> SemanticTruth {
    SemanticTruth {
        concept: SemanticConcept::PredicateMap,
        provenance: Provenance::Physical { nodes: nodes.iter().map(|n| id(*n)).collect() },
    }
}

/// `count += (buf[i] == 10)` over `i < len`; with `masked`, the byte is
/// masked with 0x0f before the comparison.
fn count_loop(names: &[&str], masked: bool) -> Function {
    let mut arena = vec![
        node(0, NodeKind::Parameter { index: 0 }),
        node(1, NodeKind::Parameter { index: 1 }),
        node(2, NodeKind::Constant(ConstantData::u64(0))),
        node(3, NodeKind::ArrayAccess { base: id(0), index: id(2) }),
        node(4, NodeKind::Constant(ConstantData::u64(10))),
        node(5, NodeKind::Lt { lhs: id(2), rhs: id(1) }),
    ];
    if masked {
        arena.push(node(9, NodeKind::Constant(ConstantData::u64(15))));
        arena.push(node(10, NodeKind::And { lhs: id(3), rhs: id(9) }));
        arena.push(node(6, NodeKind::Eq { lhs: id(10), rhs: id(4) }));
    } else {
        arena.push(node(6, NodeKind::Eq { lhs: id(3), rhs: id(4) }));
    }
    arena.push(node(7, NodeKind::Add { lhs: id(2), rhs: id(6) }));
    arena.push(node(
        8,
        NodeKind::Loop { body: vec![id(7)], termination: id(5), outputs: vec![id(7)], carried_inputs: vec![id(2)] },
    ));
    Function { return_ty: IrType::Integer { width: IntWidth::I64, signed: false }, name: "count".to_string(), params: params(names), arena, return_node: None }
}

/// `sum += buf[i]` over `i < len`.
fn sum_loop(names: &[&str]) -> Function {
    let arena = vec![
        node(0, NodeKind::Parameter { index: 0 }),
        node(1, NodeKind::Parameter { index: 1 }),
        node(2, NodeKind::Constant(ConstantData::u64(0))),
        node(3, NodeKind::ArrayAccess { base: id(0), index: id(2) }),
        node(5, NodeKind::Lt { lhs: id(2), rhs: id(1) }),
        node(7, NodeKind::Add { lhs: id(2), rhs: id(3) }),
        node(
            8,
            NodeKind::Loop { body: vec![id(7)], termination: id(5), outputs: vec![id(7)], carried_inputs: vec![id(2)] },
        ),
    ];
    Function { return_ty: IrType::Integer { width: IntWidth::I64, signed: false }, name: "sum".to_string(), params: params(names), arena, return_node: None }
}

/// `all = (buf[i] == 7) ? all : 0` over `i < len`.
fn all_equal_loop() -> Function {
    let arena = vec![
        node(0, NodeKind::Parameter { index: 0 }),
        node(1, NodeKind::Parameter { index: 1 }),
        node(2, NodeKind::Constant(ConstantData::u64(0))),
        node(3, NodeKind::ArrayAccess { base: id(0), index: id(2) }),
        node(4, NodeKind::Constant(ConstantData::u64(7))),
        node(5, NodeKind::Lt { lhs: id(2), rhs: id(1) }),
        node(6, NodeKind::Eq { lhs: id(3), rhs: id(4) }),
        node(11, NodeKind::Constant(ConstantData::u64(1))),
        node(7, NodeKind::Select { cond: id(6), true_val: id(11), false_val: id(2) }),
        node(
            8,
            NodeKind::Loop { body: vec![id(7)], termination: id(5), outputs: vec![id(7)], carried_inputs: vec![id(11)] },
        ),
    ];
    Function { return_ty: IrType::Integer { width: IntWidth::I64, signed: false }, name: "all_equal".to_string(), params: params(&["buf", "len"]), arena, return_node: None }
}

#[test]
fn cardinality_plan_with_equality_predicate() {
    let func = count_loop(&["buf", "len"], false);
    let truths = vec![truth(SemanticConcept::CardinalityReduction), predicate_truth(&[6])];
    let plan = derive_vector_plan(&func, &truths).unwrap();
    assert_eq!(plan.operation, VectorOp::Cardinality);
    assert_eq!(plan.buffer_name, "buf");
    assert_eq!(plan.length_name, "len");
    assert_eq!(plan.predicate, Some(VectorPredicate::Equal("10".to_string())));
    assert_eq!(plan.vector_width, 32);
    assert_eq!(plan.tail, TailPolicy::NarrowerVector);
}

#[test]
fn cardinality_plan_with_masked_predicate() {
    let func = count_loop(&["buf", "len"], true);
    let truths = vec![truth(SemanticConcept::CardinalityReduction), predicate_truth(&[3, 6])];
    let plan = derive_vector_plan(&func, &truths).unwrap();
    assert_eq!(plan.operation, VectorOp::Cardinality);
    assert_eq!(
        plan.predicate,
        Some(VectorPredicate::MaskedEqual { mask: "15".to_string(), target: "10".to_string() })
    );
}

#[test]
fn cardinality_needs_a_predicate_truth() {
    let func = count_loop(&["buf", "len"], false);
    let truths = vec![truth(SemanticConcept::CardinalityReduction)];
    assert!(derive_vector_plan(&func, &truths).is_none());
}

#[test]
fn unnamed_parameters_are_renamed() {
    let func = count_loop(&["%0", "%1"], false);
    let truths = vec![truth(SemanticConcept::CardinalityReduction), predicate_truth(&[6])];
    let plan = derive_vector_plan(&func, &truths).unwrap();
    assert_eq!(plan.buffer_name, "p0");
    assert_eq!(plan.length_name, "p1");
}

#[test]
fn param_name_past_the_parameters() {
    let func = count_loop(&["buf", "len"], false);
    assert_eq!(param_name(&func, id(0)), "buf");
    assert_eq!(param_name(&func, id(5)), "v5");
}

#[test]
fn sum_plan_from_sum_truth() {
    let func = sum_loop(&["buf", "len"]);
    let truths = vec![truth(SemanticConcept::SumReduction)];
    let plan = derive_vector_plan(&func, &truths).unwrap();
    assert_eq!(plan.operation, VectorOp::Sum);
    assert_eq!(plan.predicate, Some(VectorPredicate::Identity));
    assert_eq!(plan.buffer_name, "buf");
}

#[test]
fn cardinality_without_comparison_is_a_sum() {
    let func = sum_loop(&["buf", "len"]);
    let truths = vec![truth(SemanticConcept::CardinalityReduction), predicate_truth(&[3])];
    let plan = derive_vector_plan(&func, &truths).unwrap();
    assert_eq!(plan.operation, VectorOp::Sum);
}

#[test]
fn conjunctive_reduction_tests_all_bytes() {
    let func = count_loop(&["buf", "len"], false);
    let truths = vec![truth(SemanticConcept::ConjunctiveReduction), predicate_truth(&[6])];
    let plan = derive_vector_plan(&func, &truths).unwrap();
    assert_eq!(plan.operation, VectorOp::All);
    assert_eq!(plan.predicate, Some(VectorPredicate::Equal("10".to_string())));
}

#[test]
fn and_reduction_pattern_tests_all_bytes() {
    let func = all_equal_loop();
    let truths = vec![predicate_truth(&[6])];
    let plan = derive_vector_plan(&func, &truths).unwrap();
    assert_eq!(plan.operation, VectorOp::All);
    assert_eq!(plan.predicate, Some(VectorPredicate::Equal("7".to_string())));
}

#[test]
fn predicate_map_alone_has_no_plan() {
    let func = count_loop(&["buf", "len"], false);
    let truths = vec![predicate_truth(&[6])];
    assert!(derive_vector_plan(&func, &truths).is_none());
    assert!(derive_vector_plan(&func, &[]).is_none());
}

#[test]
fn region_plan_reads_buffer_and_length_from_the_loop() {
    // The buffer and length are parameters 2 and 3 of the region.
    let arena = vec![
        node(0, NodeKind::Parameter { index: 2 }),
        node(1, NodeKind::Parameter { index: 3 }),
        node(2, NodeKind::Constant(ConstantData::u64(0))),
        node(3, NodeKind::ArrayAccess { base: id(0), index: id(2) }),
        node(5, NodeKind::Lt { lhs: id(2), rhs: id(1) }),
        node(7, NodeKind::Add { lhs: id(2), rhs: id(3) }),
        node(
            8,
            NodeKind::Loop { body: vec![id(7)], termination: id(5), outputs: vec![id(7)], carried_inputs: vec![id(2)] },
        ),
    ];
    let func = Function {
        return_ty: IrType::Integer { width: IntWidth::I64, signed: false },
        name: "region".to_string(),
        params: params(&["%0", "%1", "%2", "n"]),
        arena,
        return_node: None,
    };
    let truths = vec![truth(SemanticConcept::SumReduction)];
    let plain = derive_vector_plan(&func, &truths).unwrap();
    assert_eq!(plain.buffer_name, "p0");
    assert_eq!(plain.length_name, "p1");
    let region = derive_vector_plan_for_region(&func, &truths).unwrap();
    assert_eq!(region.buffer_name, "p2");
    assert_eq!(region.length_name, "n");
    assert_eq!(region.operation, plain.operation);
    assert_eq!(region.predicate, plain.predicate);
}

#[test]
fn region_plan_keeps_parameter_names_without_a_traversal() {
    // The loop's termination is no `Lt`, so no traversal is read.
    let mut func = sum_loop(&["buf", "len"]);
    func.arena[4] = node(5, NodeKind::Le { lhs: id(2), rhs: id(1) });
    let truths = vec![truth(SemanticConcept::SumReduction)];
    let region = derive_vector_plan_for_region(&func, &truths).unwrap();
    assert_eq!(region.buffer_name, "buf");
    assert_eq!(region.length_name, "len");
}

#[test]
fn region_plan_uses_a_load_when_there_is_no_array_access() {
    let arena = vec![
        node(0, NodeKind::Parameter { index: 0 }),
        node(1, NodeKind::Constant(ConstantData::u64(64))),
        node(2, NodeKind::Constant(ConstantData::u64(0))),
        node(3, NodeKind::Load { ptr: id(0) }),
        node(5, NodeKind::Lt { lhs: id(2), rhs: id(1) }),
        node(7, NodeKind::Add { lhs: id(2), rhs: id(3) }),
        node(
            8,
            NodeKind::Loop { body: vec![id(7)], termination: id(5), outputs: vec![id(7)], carried_inputs: vec![id(2)] },
        ),
    ];
    let func = Function { return_ty: IrType::Integer { width: IntWidth::I64, signed: false }, name: "load".to_string(), params: params(&["src"]), arena, return_node: None };
    let truths = vec![truth(SemanticConcept::SumReduction)];
    let region = derive_vector_plan_for_region(&func, &truths).unwrap();
    assert_eq!(region.buffer_name, "src");
    assert_eq!(region.length_name, "64");
}
