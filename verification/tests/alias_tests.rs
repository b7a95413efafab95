use sir::alias::run_alias;
use sir::facts::{AliasKind, ConstantData};
use sir::ir::{Effects, Function, Node, NodeId, NodeKind, IntWidth, IrType};

fn id(n: u64) -> NodeId {
    NodeId::new(n)
}

fn node(n: u64, kind: NodeKind) -> Node {
    Node { ty: IrType::Integer { width: IntWidth::I64, signed: false }, id: id(n), kind, effects: Effects::none() }
}

fn function(name: &str, arena: Vec<Node>) -> Function {
    let return_node = arena.iter().find(|n| matches!(n.kind, NodeKind::Return { .. })).map(|n| n.id);
    Function { return_ty: IrType::Integer { width: IntWidth::I64, signed: false }, name: name.to_string(), params: vec![], arena, return_node }
}

fn count() -> Node {
    node(0, NodeKind::Constant(ConstantData::u64(1)))
}

#[test]
fn allocate_aliases_itself() {
    let func = function(
        "f",
        vec![
            count(),
            node(1, NodeKind::Allocate { ty: "u8".to_string(), count: id(0) }),
            node(2, NodeKind::Load { ptr: id(1) }),
            node(3, NodeKind::Return { value: id(2) }),
        ],
    );
    let ptr = id(1);
    let facts = run_alias(&func);
    let ptr_fact = facts.get(ptr).unwrap();
    assert_eq!(ptr_fact.allocation_site, Some(ptr));
    assert_eq!(ptr_fact.kind, AliasKind::MustAlias);
}

#[test]
fn two_allocations_no_alias() {
    let func = function(
        "f",
        vec![
            count(),
            node(1, NodeKind::Allocate { ty: "u8".to_string(), count: id(0) }),
            node(2, NodeKind::Allocate { ty: "u8".to_string(), count: id(0) }),
            node(3, NodeKind::Constant(ConstantData::i32(5))),
            node(4, NodeKind::Store { ptr: id(1), value: id(3) }),
            node(5, NodeKind::Load { ptr: id(2) }),
            node(6, NodeKind::Return { value: id(5) }),
        ],
    );
    let facts = run_alias(&func);
    let f1 = facts.get(id(1)).unwrap();
    let f2 = facts.get(id(2)).unwrap();
    assert_ne!(f1.allocation_site, f2.allocation_site);
}

#[test]
fn select_union_aliases() {
    let func = function(
        "f",
        vec![
            node(0, NodeKind::Parameter { index: 0 }),
            node(1, NodeKind::Constant(ConstantData::u64(1))),
            node(2, NodeKind::Allocate { ty: "u8".to_string(), count: id(1) }),
            node(3, NodeKind::Allocate { ty: "u8".to_string(), count: id(1) }),
            node(4, NodeKind::Select { cond: id(0), true_val: id(2), false_val: id(3) }),
            node(5, NodeKind::Return { value: id(4) }),
        ],
    );
    let facts = run_alias(&func);
    let sel_fact = facts.get(id(4)).unwrap();
    assert!(matches!(sel_fact.kind, AliasKind::MayAlias(_)));
    assert_eq!(sel_fact.kind, AliasKind::MayAlias(vec![id(2), id(3)]));
    assert_eq!(sel_fact.allocation_site, None);
}

#[test]
fn field_access_propagates_alias() {
    let func = function(
        "field",
        vec![
            count(),
            node(1, NodeKind::Allocate { ty: "u8".to_string(), count: id(0) }),
            node(2, NodeKind::FieldAccess { field: "len".to_string(), base: id(1) }),
            node(3, NodeKind::Return { value: id(2) }),
        ],
    );
    let facts = run_alias(&func);
    let field_fact = facts.get(id(2)).unwrap();
    assert_eq!(field_fact.allocation_site, Some(id(1)));
}

#[test]
fn select_joins_in_site_order() {
    let func = function(
        "order",
        vec![
            node(9, NodeKind::Parameter { index: 0 }),
            count(),
            node(1, NodeKind::Allocate { ty: "u8".to_string(), count: id(0) }),
            node(2, NodeKind::Allocate { ty: "u8".to_string(), count: id(0) }),
            node(3, NodeKind::Select { cond: id(9), true_val: id(2), false_val: id(1) }),
            node(4, NodeKind::Select { cond: id(9), true_val: id(1), false_val: id(1) }),
            node(5, NodeKind::Constant(ConstantData::i32(0))),
            node(6, NodeKind::Select { cond: id(9), true_val: id(5), false_val: id(5) }),
            node(7, NodeKind::Select { cond: id(9), true_val: id(5), false_val: id(2) }),
            node(8, NodeKind::ArrayAccess { base: id(2), index: id(5) }),
        ],
    );
    let facts = run_alias(&func);
    assert_eq!(facts.get(id(3)).unwrap().kind, AliasKind::MayAlias(vec![id(1), id(2)]));
    let same = facts.get(id(4)).unwrap();
    assert_eq!((same.kind.clone(), same.allocation_site), (AliasKind::MustAlias, Some(id(1))));
    assert_eq!(facts.get(id(6)).unwrap().kind, AliasKind::NoAlias);
    assert_eq!(facts.get(id(7)).unwrap().kind, AliasKind::MayAlias(vec![id(2)]));
    assert_eq!(facts.get(id(8)).unwrap().allocation_site, Some(id(2)));
}

#[test]
fn constants_and_parameters() {
    let func = function(
        "misc",
        vec![
            node(0, NodeKind::Parameter { index: 0 }),
            node(1, NodeKind::Constant(ConstantData::u64(0))),
            node(2, NodeKind::Load { ptr: id(0) }),
            // Reads node 4, which has a larger identifier.
            node(3, NodeKind::Load { ptr: id(4) }),
            node(4, NodeKind::Allocate { ty: "u8".to_string(), count: id(1) }),
        ],
    );
    let facts = run_alias(&func);
    assert_eq!(facts.get(id(0)).unwrap().kind, AliasKind::Unknown);
    assert_eq!(facts.get(id(1)).unwrap().kind, AliasKind::NoAlias);
    assert_eq!(facts.get(id(2)).unwrap().kind, AliasKind::Unknown);
    assert_eq!(facts.get(id(3)).unwrap().kind, AliasKind::MustAlias);
    assert_eq!(facts.get(id(4)).unwrap().kind, AliasKind::MustAlias);
    assert_eq!(facts.len(), 5);
}
