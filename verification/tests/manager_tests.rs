use sir::analysis::Analysis;
use sir::facts::{ConstantData, EscapeKind, UseDefFact};
use sir::ir::{Effects, Function, Node, NodeId, NodeKind, IntWidth, IrType};
use sir::manager::{AnalysisManager, FactDatabase, UseDefAnalysis};

fn id(n: u64) -> NodeId {
    NodeId::new(n)
}

fn node(n: u64, kind: NodeKind) -> Node {
    Node { ty: IrType::Integer { width: IntWidth::I64, signed: false }, id: id(n), kind, effects: Effects::none() }
}

fn effectful(n: u64, kind: NodeKind, effects: Effects) -> Node {
    Node { ty: IrType::Integer { width: IntWidth::I64, signed: false }, id: id(n), kind, effects }
}

fn function(name: &str, arena: Vec<Node>) -> Function {
    let return_node = arena.iter().find(|n| matches!(n.kind, NodeKind::Return { .. })).map(|n| n.id);
    Function { return_ty: IrType::Integer { width: IntWidth::I64, signed: false }, name: name.to_string(), params: vec![], arena, return_node }
}

fn build_add() -> Function {
    function(
        "add",
        vec![
            node(0, NodeKind::Parameter { index: 0 }),
            node(1, NodeKind::Parameter { index: 1 }),
            node(2, NodeKind::Add { lhs: id(0), rhs: id(1) }),
            node(3, NodeKind::Return { value: id(2) }),
        ],
    )
}

#[test]
fn fact_database_empty() {
    let db = FactDatabase::new();
    assert!(db.is_empty());
    assert_eq!(db.total_facts(), 0);
}

#[test]
fn fact_database_insert_use_def() {
    let mut db = FactDatabase::new();
    let fact = UseDefFact { definitions: vec![NodeId::new(0)], users: vec![NodeId::new(2)], is_dead: false, use_count: 1 };
    db.use_def.insert(NodeId::new(1), fact.clone());
    assert_eq!(db.total_facts(), 1);
    assert!(!db.is_empty());
    assert_eq!(db.use_def.get(NodeId::new(1)), Some(&fact));
}

#[test]
fn use_def_fact_defaults() {
    let fact = UseDefFact { definitions: vec![], users: vec![], is_dead: true, use_count: 0 };
    assert!(fact.is_dead);
    assert_eq!(fact.use_count, 0);
}

#[test]
fn manager_run_all_populates_database() {
    let func = build_add();
    let mut mgr = AnalysisManager::new();
    mgr.run_all(&func);
    let db = mgr.database();
    assert!(!db.use_def.is_empty());
    assert!(!db.dominance.is_empty());
    assert!(!db.constants.is_empty());
    assert!(!db.purity.is_empty());
    assert!(!db.ranges.is_empty());
    assert!(!db.value_numbers.is_empty());
    assert!(db.total_facts() > 0);
}

#[test]
fn manager_cache_hit_on_second_run() {
    let func = build_add();
    let mut mgr = AnalysisManager::new();
    mgr.run_all(&func);
    let stats1 = mgr.stats().clone();
    mgr.run_all(&func);
    let stats2 = mgr.stats();
    assert!(stats2.cache_hits > stats1.cache_hits);
}

#[test]
fn manager_invalidate_clears_everything() {
    let func = build_add();
    let mut mgr = AnalysisManager::new();
    mgr.run_all(&func);
    mgr.invalidate_all();
    let db = mgr.database();
    assert!(db.is_empty());
}

#[test]
fn individual_analysis_via_trait() {
    let func = build_add();
    let result = UseDefAnalysis::analyze(&func, None);
    assert!(result.nodes_processed > 0);
    assert_eq!(UseDefAnalysis::name(), "UseDef");
}

#[test]
fn milestone1_add_analysis() {
    let func = build_add();
    let (a, b_param, sum) = (id(0), id(1), id(2));
    let mut mgr = AnalysisManager::new();
    mgr.run_all(&func);
    let db = mgr.database();
    let a_def = db.use_def.get(a).unwrap();
    assert_eq!(a_def.use_count, 1);
    assert!(!a_def.is_dead);
    let sum_def = db.use_def.get(sum).unwrap();
    assert!(!sum_def.is_dead);
    assert_eq!(sum_def.use_count, 1);
    for n in 0..4 {
        assert!(db.purity.get(id(n)).unwrap().subgraph_is_pure);
    }
    assert!(db.constants.get(a).unwrap().value.is_top());
    assert!(db.constants.get(b_param).unwrap().value.is_top());
    assert!(!db.dominance.is_empty());
}

#[test]
fn milestone2_select_analysis() {
    let func = function(
        "max",
        vec![
            node(0, NodeKind::Parameter { index: 0 }),
            node(1, NodeKind::Parameter { index: 1 }),
            node(2, NodeKind::Parameter { index: 2 }),
            node(3, NodeKind::Select { cond: id(0), true_val: id(1), false_val: id(2) }),
            node(4, NodeKind::Return { value: id(3) }),
        ],
    );
    let sel = id(3);
    let mut mgr = AnalysisManager::new();
    mgr.run_all(&func);
    let db = mgr.database();
    assert_eq!(db.use_def.get(sel).unwrap().definitions.len(), 3);
    assert!(db.purity.get(sel).unwrap().subgraph_is_pure);
}

#[test]
fn milestone4_memory_analysis() {
    let func = function(
        "mem",
        vec![
            node(0, NodeKind::Constant(ConstantData::u64(1))),
            effectful(1, NodeKind::Allocate { ty: "u8".to_string(), count: id(0) }, Effects { allocate: true, ..Effects::none() }),
            node(2, NodeKind::Constant(ConstantData::i32(42))),
            effectful(3, NodeKind::Store { ptr: id(1), value: id(2) }, Effects { write_memory: true, ..Effects::none() }),
            effectful(4, NodeKind::Load { ptr: id(1) }, Effects { read_memory: true, ..Effects::none() }),
            node(5, NodeKind::Return { value: id(4) }),
        ],
    );
    let (ptr, loaded) = (id(1), id(4));
    let mut mgr = AnalysisManager::new();
    mgr.run_all(&func);
    let db = mgr.database();
    assert!(!db.purity.get(loaded).unwrap().subgraph_is_pure);
    assert!(db.aliases.get(ptr).unwrap().allocation_site.is_some());
    assert_eq!(db.escapes.get(loaded).unwrap().kind, EscapeKind::Returned);
}

#[test]
fn milestone5_intrinsic_analysis() {
    let func = function(
        "pop",
        vec![
            node(0, NodeKind::Parameter { index: 0 }),
            node(1, NodeKind::Popcount { operand: id(0) }),
            node(2, NodeKind::Return { value: id(1) }),
        ],
    );
    let pop = id(1);
    let mut mgr = AnalysisManager::new();
    mgr.run_all(&func);
    let db = mgr.database();
    assert_eq!(db.use_def.get(pop).unwrap().use_count, 1);
    let pop_range = db.ranges.get(pop).unwrap();
    assert_eq!(pop_range.lower, Some(0));
    assert_eq!(pop_range.upper, Some(64));
}

#[test]
fn constant_folding_pipeline() {
    let func = function(
        "fold",
        vec![
            node(0, NodeKind::Constant(ConstantData::i32(10))),
            node(1, NodeKind::Constant(ConstantData::i32(20))),
            node(2, NodeKind::Add { lhs: id(0), rhs: id(1) }),
            node(3, NodeKind::Return { value: id(2) }),
        ],
    );
    let mut mgr = AnalysisManager::new();
    mgr.run_all(&func);
    let db = mgr.database();
    assert!(db.constants.get(id(2)).unwrap().value.is_constant());
}

#[test]
fn diamond_pattern_analysis() {
    let func = function(
        "diamond",
        vec![
            node(0, NodeKind::Parameter { index: 0 }),
            node(1, NodeKind::Add { lhs: id(0), rhs: id(0) }),
            node(2, NodeKind::Add { lhs: id(0), rhs: id(0) }),
            node(3, NodeKind::Add { lhs: id(1), rhs: id(2) }),
            node(4, NodeKind::Return { value: id(3) }),
        ],
    );
    let (s1, s2, s3) = (id(1), id(2), id(3));
    let mut mgr = AnalysisManager::new();
    mgr.run_all(&func);
    let db = mgr.database();
    assert_eq!(
        db.value_numbers.get(s1).unwrap().congruence_class,
        db.value_numbers.get(s2).unwrap().congruence_class
    );
    assert!(db.dominance.get(s3).unwrap().dominators.contains(&s3));
}

#[test]
fn full_pipeline_produces_stats() {
    let func = function(
        "compute",
        vec![
            node(0, NodeKind::Parameter { index: 0 }),
            node(1, NodeKind::Parameter { index: 1 }),
            node(2, NodeKind::Add { lhs: id(0), rhs: id(1) }),
            node(3, NodeKind::Mul { lhs: id(2), rhs: id(0) }),
            node(4, NodeKind::Return { value: id(3) }),
        ],
    );
    let mut mgr = AnalysisManager::new();
    mgr.run_all(&func);
    let stats = mgr.stats();
    assert!(stats.total_runs > 0);
    assert!(stats.cache_misses > 0);
    assert_eq!(stats.cache_hits, 0);
    assert_eq!(stats.total_runs, 9);
    assert_eq!(stats.total_nodes_processed, 45);
    mgr.run_all(&func);
    let stats2 = mgr.stats();
    assert!(stats2.cache_hits > 0);
    assert_eq!(stats2.cache_hits, 9);
    assert_eq!(stats2.cache_misses, 9);
    assert_eq!(stats2.total_runs, 18);
    assert_eq!(stats2.total_nodes_processed, 45);
}

#[test]
fn empty_function_analysis_does_not_crash() {
    let func = Function { return_ty: IrType::Integer { width: IntWidth::I64, signed: false }, name: "empty".to_string(), params: vec![], arena: vec![], return_node: None };
    let mut mgr = AnalysisManager::new();
    mgr.run_all(&func);
    let db = mgr.database();
    assert!(db.is_empty());
}

#[test]
fn bitwise_boolean_pipeline() {
    let func = function(
        "bools",
        vec![
            node(0, NodeKind::Parameter { index: 0 }),
            node(1, NodeKind::Parameter { index: 1 }),
            node(2, NodeKind::Xor { lhs: id(0), rhs: id(1) }),
            node(3, NodeKind::Constant(ConstantData::u64(0))),
            node(4, NodeKind::Eq { lhs: id(2), rhs: id(3) }),
            node(5, NodeKind::Return { value: id(4) }),
        ],
    );
    let eq = id(4);
    let mut mgr = AnalysisManager::new();
    mgr.run_all(&func);
    let db = mgr.database();
    assert!(db.ranges.get(eq).unwrap().lower.is_some());
    assert!(db.purity.get(eq).unwrap().subgraph_is_pure);
}

#[test]
fn edited_function_is_recomputed() {
    let func = build_add();
    let mut mgr = AnalysisManager::new();
    mgr.run_all(&func);
    let mut edited = build_add();
    edited.arena[2] = node(2, NodeKind::Mul { lhs: id(0), rhs: id(1) });
    mgr.run_all(&edited);
    assert_eq!(mgr.stats().cache_hits, 0);
    assert_eq!(mgr.stats().total_runs, 18);
}

#[test]
fn invalidated_manager_recomputes_everything() {
    let func = build_add();
    let mut mgr = AnalysisManager::new();
    mgr.run_all(&func);
    mgr.invalidate_all();
    assert!(mgr.database().is_empty());
    assert_eq!(mgr.database().total_facts(), 0);
    mgr.run_all(&func);
    assert_eq!(mgr.stats().cache_misses, 18);
    assert_eq!(mgr.stats().cache_hits, 0);
    assert_eq!(mgr.stats().total_runs, 18);
    assert!(!mgr.database().is_empty());
}
