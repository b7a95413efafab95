use sir::analysis::AnalysisResult;
use sir::cache::AnalysisCache;
use sir::dependency::{dependencies_of, type_id_of};
use sir::escape::merge_escape;
use sir::facts::{ConstantData, ConstantLattice, EscapeKind, RangeFact};
use sir::ir::{Effects, Function, Node, NodeId, NodeKind, IntWidth, IrType};
use sir::manager::AnalysisStats;
use std::time::Duration;

#[test]
fn type_id_is_deterministic() {
    let a = type_id_of::<String>();
    let b = type_id_of::<String>();
    assert_eq!(a, b);
}

#[test]
fn no_dependencies_in_v0_1() {
    // All analyses are self-contained in v0.1.
    let deps = dependencies_of(type_id_of::<String>());
    assert!(deps.is_empty());
}

#[test]
fn range_fact_properties() {
    let fact = RangeFact {
        lower: Some(0),
        upper: Some(63),
        is_nonzero: false, // 0 is in range
        is_power_of_two: false,
        alignment: Some(4),
    };
    assert_eq!(fact.lower, Some(0));
    assert_eq!(fact.upper, Some(63));
    assert!(!fact.is_nonzero);
    assert_eq!(fact.alignment, Some(4));
}

#[test]
fn constant_lattice_meet_top() {
    let top = ConstantLattice::Top;
    let c = ConstantLattice::Constant(ConstantData::i32(42));
    assert_eq!(top.meet(&c), c);
    assert_eq!(c.meet(&top), c);
}

#[test]
fn constant_lattice_meet_same_constant() {
    let a = ConstantLattice::Constant(ConstantData::i32(42));
    let b = ConstantLattice::Constant(ConstantData::i32(42));
    assert_eq!(a.meet(&b), a);
}

#[test]
fn constant_lattice_meet_different_constant() {
    let a = ConstantLattice::Constant(ConstantData::i32(42));
    let b = ConstantLattice::Constant(ConstantData::i32(17));
    assert!(a.meet(&b).is_bottom());
}

#[test]
fn constant_lattice_meet_bottom_absorbs() {
    let a = ConstantLattice::Constant(ConstantData::boolean(true));
    assert!(a.meet(&ConstantLattice::Bottom).is_bottom());
}

#[test]
fn meet_is_commutative_on_examples() {
    let vals = [
        ConstantLattice::Top,
        ConstantLattice::Bottom,
        ConstantLattice::Constant(ConstantData::u64(7)),
        ConstantLattice::Constant(ConstantData::u64(8)),
        ConstantLattice::Constant(ConstantData::boolean(false)),
    ];
    for a in vals.iter() {
        for b in vals.iter() {
            assert_eq!(a.meet(b), b.meet(a));
            assert_eq!(a.meet(a), *a);
        }
    }
}

#[test]
fn negative_i32_constant_is_twos_complement() {
    assert_eq!(
        ConstantData::i32(-1),
        ConstantData::Integer { bits: 0xffff_ffff, signed: true, width: 32 }
    );
    assert_eq!(
        ConstantData::i32(5),
        ConstantData::Integer { bits: 5, signed: true, width: 32 }
    );
}

#[test]
fn lattice_predicates() {
    assert!(ConstantLattice::Top.is_top());
    assert!(!ConstantLattice::Top.is_constant());
    assert!(ConstantLattice::Constant(ConstantData::u64(1)).is_constant());
    assert!(ConstantLattice::Bottom.is_bottom());
}

#[test]
fn merge_escape_keeps_the_more_severe() {
    assert_eq!(merge_escape(EscapeKind::NeverEscapes, EscapeKind::Returned), EscapeKind::Returned);
    assert_eq!(merge_escape(EscapeKind::Captured, EscapeKind::NeverEscapes), EscapeKind::Captured);
    assert_eq!(
        merge_escape(EscapeKind::PassedExternally, EscapeKind::StoredGlobally),
        EscapeKind::PassedExternally
    );
}

#[test]
fn empty_cache() {
    let mut c = AnalysisCache::new();
    assert!(c.is_empty());
    assert_eq!(c.len(), 0);
    c.invalidate(type_id_of::<String>());
    assert!(c.is_empty());
    c.invalidate_all();
    assert_eq!(c.len(), 0);
}

#[test]
fn analysis_result_collects_warnings() {
    let r = AnalysisResult::new(5u32, Duration::from_millis(3), 12);
    assert!(r.warnings.is_empty());
    let r = r.with_warning("first".to_string()).with_warning("second".to_string());
    assert_eq!(r.data, 5);
    assert_eq!(r.nodes_processed, 12);
    assert_eq!(r.runtime, Duration::from_millis(3));
    assert_eq!(r.warnings, vec!["first".to_string(), "second".to_string()]);
}

#[test]
fn stats_start_at_zero() {
    let s = AnalysisStats::default();
    assert_eq!(s.total_runs, 0);
    assert_eq!(s.cache_hits, 0);
    assert_eq!(s.cache_misses, 0);
    assert_eq!(s.total_runtime_ms, 0);
    assert_eq!(s.total_nodes_processed, 0);
}

fn tiny(name: &str) -> Function {
    Function {
        return_ty: IrType::Integer { width: IntWidth::I64, signed: false },
        name: name.to_string(),
        params: vec![],
        arena: vec![Node { ty: IrType::Integer { width: IntWidth::I64, signed: false }, id: NodeId::new(0), kind: NodeKind::Parameter { index: 0 }, effects: Effects::none() }],
        return_node: None,
    }
}

#[test]
fn cache_counts_valid_results() {
    let (f, g) = (tiny("f"), tiny("g"));
    let (a, b) = (type_id_of::<u8>(), type_id_of::<u16>());
    let mut c = AnalysisCache::new();
    c.set_valid(a, &f);
    c.set_valid(a, &g);
    c.set_valid(b, &f);
    assert_eq!(c.len(), 2);
    c.invalidate(b);
    assert_eq!(c.len(), 1);
    assert!(c.is_valid(a, &g));
    assert!(!c.is_valid(a, &f));
    assert!(!c.is_valid(b, &f));
    c.invalidate(b);
    assert_eq!(c.len(), 1);
}

#[test]
fn cache_entry_goes_stale_when_a_type_changes() {
    let f = tiny("f");
    let a = type_id_of::<u8>();
    let mut c = AnalysisCache::new();
    c.set_valid(a, &f);
    assert!(c.is_valid(a, &f));
    let mut node_ty = f.clone();
    node_ty.arena[0].ty = IrType::Integer { width: IntWidth::I32, signed: true };
    assert!(!c.is_valid(a, &node_ty));
    let mut ret_ty = f.clone();
    ret_ty.return_ty = IrType::Bool;
    assert!(!c.is_valid(a, &ret_ty));
    let same = tiny("f");
    assert!(c.is_valid(a, &same));
}
