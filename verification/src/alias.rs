//! Alias analysis: which allocation sites each pointer may reference.
//!
//! Allocation-site based, flow-insensitive and field-insensitive: an
//! allocation is its own site; loads, field and array accesses take the
//! facts of the pointer they read through; a select joins its two
//! branches; constants alias nothing; anything else is unknown.
use vstd::prelude::*;
use crate::facts::{AliasKind, AliasKindView, AliasFact, AliasFactView};
use crate::ir::{Function, Node, NodeId, NodeKind, kind_of};
use crate::graph::{spec_topological_sort, topological_sort};
use crate::factmap::FactMap;
use crate::visit::{facts_over, node_of, lemma_node_of, lemma_topological_facts_dom, lemma_topological_facts_fixed};

verus! {

/// Nothing known.
pub open spec fn unknown_alias() -> AliasFactView {
    AliasFactView { kind: AliasKindView::Unknown, allocation_site: None }
}

/// The facts of a table, viewed.
pub open spec fn alias_views(m: Map<NodeId, AliasFact>) -> Map<NodeId, AliasFactView> {
    m.map_values(|f: AliasFact| f@)
}

/// The fact recorded for `x`, if any.
pub open spec fn lookup(m: Map<NodeId, AliasFactView>, x: NodeId) -> Option<AliasFactView> {
    if m.dom().contains(x) {
        Some(m[x])
    } else {
        None
    }
}

/// The fact recorded for `x`, unknown if none.
pub open spec fn fact_of(m: Map<NodeId, AliasFactView>, x: NodeId) -> AliasFactView {
    if m.dom().contains(x) {
        m[x]
    } else {
        unknown_alias()
    }
}

/// The known sites among two optional sites, in increasing identifier
/// order, each once.
pub open spec fn site_set(a: Option<NodeId>, b: Option<NodeId>) -> Seq<NodeId> {
    match (a, b) {
        (None, None) => Seq::empty(),
        (Some(x), None) => seq![x],
        (None, Some(y)) => seq![y],
        (Some(x), Some(y)) => if x.id < y.id {
            seq![x, y]
        } else if y.id < x.id {
            seq![y, x]
        } else {
            seq![x]
        },
    }
}

/// The join of the facts of two values either of which may flow on: one
/// shared site is a must-alias; otherwise the sites found, or no alias if
/// there is none; a missing side leaves the other; two missing sides are
/// unknown.
pub open spec fn spec_union_aliases(a: Option<AliasFactView>, b: Option<AliasFactView>) -> AliasFactView {
    match (a, b) {
        (Some(av), Some(bv)) => if av.allocation_site == bv.allocation_site && av.allocation_site is Some {
            AliasFactView { kind: AliasKindView::MustAlias, allocation_site: av.allocation_site }
        } else {
            let sites = site_set(av.allocation_site, bv.allocation_site);
            if sites.len() == 0 {
                AliasFactView { kind: AliasKindView::NoAlias, allocation_site: None }
            } else {
                AliasFactView { kind: AliasKindView::MayAlias(sites), allocation_site: None }
            }
        },
        (Some(av), None) => av,
        (None, Some(bv)) => bv,
        (None, None) => unknown_alias(),
    }
}

/// The alias fact of node `id` of kind `kind`, given the facts so far.
pub open spec fn spec_compute_alias(id: NodeId, kind: NodeKind, m: Map<NodeId, AliasFactView>) -> AliasFactView {
    match kind {
        NodeKind::Allocate { .. } => AliasFactView { kind: AliasKindView::MustAlias, allocation_site: Some(id) },
        NodeKind::Load { ptr } => fact_of(m, ptr),
        NodeKind::FieldAccess { base, .. } => fact_of(m, base),
        NodeKind::ArrayAccess { base, .. } => fact_of(m, base),
        NodeKind::Select { true_val, false_val, .. } => spec_union_aliases(lookup(m, true_val), lookup(m, false_val)),
        NodeKind::Constant(_) => AliasFactView { kind: AliasKindView::NoAlias, allocation_site: None },
        _ => unknown_alias(),
    }
}

/// The alias step of the visit.
pub open spec fn alias_step() -> spec_fn(Node, Map<NodeId, AliasFactView>) -> AliasFactView {
    |n: Node, m: Map<NodeId, AliasFactView>| spec_compute_alias(n.id, n.kind, m)
}

/// The alias facts after visiting the nodes of `order` in turn.
pub open spec fn alias_over(nodes: Seq<Node>, order: Seq<NodeId>) -> Map<NodeId, AliasFactView> {
    facts_over(nodes, order, alias_step())
}

fn unknown_fact() -> (r: AliasFact)
    ensures
        r@ == unknown_alias(),
{
    AliasFact { kind: AliasKind::Unknown, allocation_site: None }
}

fn copy_sites(v: &Vec<NodeId>) -> (r: Vec<NodeId>)
    ensures
        r@ == v@,
{
    let mut r: Vec<NodeId> = Vec::new();
    let mut i: usize = 0;
    while i < v.len()
        invariant
            i <= v@.len(),
            r@ == v@.subrange(0, i as int),
        decreases v@.len() - i,
    {
        r.push(v[i]);
        i += 1;
        assert(r@ =~= v@.subrange(0, i as int));
    }
    assert(v@.subrange(0, v@.len() as int) =~= v@);
    r
}

fn copy_alias(f: &AliasFact) -> (r: AliasFact)
    ensures
        r@ == f@,
{
    let kind = match &f.kind {
        AliasKind::MustAlias => AliasKind::MustAlias,
        AliasKind::MayAlias(sites) => AliasKind::MayAlias(copy_sites(sites)),
        AliasKind::NoAlias => AliasKind::NoAlias,
        AliasKind::Unknown => AliasKind::Unknown,
    };
    AliasFact { kind, allocation_site: f.allocation_site }
}

/// Joins the facts of two values either of which may flow on.
fn union_aliases(a: Option<&AliasFact>, b: Option<&AliasFact>) -> (r: AliasFact)
    ensures
        r@ == spec_union_aliases(
            match a {
                Some(x) => Some(x@),
                None => None,
            },
            match b {
                Some(x) => Some(x@),
                None => None,
            },
        ),
{
    match (a, b) {
        (Some(av), Some(bv)) => {
            let a_site = av.allocation_site;
            let b_site = bv.allocation_site;
            if a_site == b_site && a_site.is_some() {
                AliasFact { kind: AliasKind::MustAlias, allocation_site: a_site }
            } else {
                let mut set: Vec<NodeId> = Vec::new();
                match (a_site, b_site) {
                    (Some(x), Some(y)) => {
                        if x.id < y.id {
                            set.push(x);
                            set.push(y);
                        } else if y.id < x.id {
                            set.push(y);
                            set.push(x);
                        } else {
                            set.push(x);
                        }
                    },
                    (Some(x), None) => set.push(x),
                    (None, Some(y)) => set.push(y),
                    (None, None) => {},
                }
                proof {
                    assert(set@ =~= site_set(a_site, b_site));
                }
                if set.len() == 0 {
                    AliasFact { kind: AliasKind::NoAlias, allocation_site: None }
                } else {
                    AliasFact { kind: AliasKind::MayAlias(set), allocation_site: None }
                }
            }
        },
        (Some(av), None) => copy_alias(av),
        (None, Some(bv)) => copy_alias(bv),
        (None, None) => unknown_fact(),
    }
}

/// The fact recorded for `x`, unknown if none.
fn fact_or_unknown(facts: &FactMap<AliasFact>, x: NodeId) -> (r: AliasFact)
    requires
        facts.wf(),
    ensures
        r@ == fact_of(alias_views(facts@), x),
{
    match facts.get(x) {
        Some(f) => copy_alias(f),
        None => unknown_fact(),
    }
}

/// The alias fact of one node, given the facts so far.
fn compute_alias(node: &Node, facts: &FactMap<AliasFact>) -> (r: AliasFact)
    requires
        facts.wf(),
    ensures
        r@ == spec_compute_alias(node.id, node.kind, alias_views(facts@)),
{
    match &node.kind {
        NodeKind::Allocate { .. } => AliasFact { kind: AliasKind::MustAlias, allocation_site: Some(node.id) },
        NodeKind::Load { ptr } => fact_or_unknown(facts, *ptr),
        NodeKind::FieldAccess { base, .. } => fact_or_unknown(facts, *base),
        NodeKind::ArrayAccess { base, .. } => fact_or_unknown(facts, *base),
        NodeKind::Select { true_val, false_val, .. } => {
            let t = facts.get(*true_val);
            let f = facts.get(*false_val);
            union_aliases(t, f)
        },
        NodeKind::Constant(_) => AliasFact { kind: AliasKind::NoAlias, allocation_site: None },
        _ => unknown_fact(),
    }
}

/// Runs alias analysis: visits the nodes in the topological order and
/// records each node's alias fact.
pub fn run_alias(func: &Function) -> (facts: FactMap<AliasFact>)
    ensures
        facts.wf(),
        alias_views(facts@) == alias_over(func.arena@, spec_topological_sort(func.arena@)),
{
    let order = topological_sort(func);
    let mut facts: FactMap<AliasFact> = FactMap::new();
    let mut i: usize = 0;
    proof {
        assert(alias_views(facts@) =~= Map::empty());
    }
    while i < order.len()
        invariant
            i <= order@.len(),
            facts.wf(),
            alias_views(facts@) == alias_over(func.arena@, order@.subrange(0, i as int)),
        decreases order@.len() - i,
    {
        let id = order[i];
        proof {
            assert(order@.subrange(0, i + 1).drop_last() =~= order@.subrange(0, i as int));
        }
        match func.get_node(id) {
            Some(node) => {
                let alias = compute_alias(node, &facts);
                let ghost before = facts@;
                facts.insert(id, alias);
                proof {
                    assert(alias_views(facts@) =~= alias_views(before).insert(id, alias@));
                }
            },
            None => {},
        }
        i += 1;
    }
    proof {
        assert(order@.subrange(0, order@.len() as int) =~= order@);
    }
    facts
}

// ── Laws ────────────────────────────────────────────────────────────────

/// Joining two facts does not depend on their order.
pub proof fn law_union_aliases_commutes(a: Option<AliasFactView>, b: Option<AliasFactView>)
    ensures
        spec_union_aliases(a, b) == spec_union_aliases(b, a),
{
    if let (Some(av), Some(bv)) = (a, b) {
        let (x, y) = (av.allocation_site, bv.allocation_site);
        if !(x == y && x is Some) {
            assert(site_set(x, y) =~= site_set(y, x));
        }
    }
}

/// Every allocation is its own site: its fact is a must-alias of itself.
pub proof fn law_allocation_own_site(nodes: Seq<Node>, x: NodeId)
    requires
        (kind_of(nodes, x) matches Some(NodeKind::Allocate { .. })),
    ensures
        alias_over(nodes, spec_topological_sort(nodes)).dom().contains(x),
        alias_over(nodes, spec_topological_sort(nodes))[x] == (AliasFactView {
            kind: AliasKindView::MustAlias,
            allocation_site: Some(x),
        }),
{
    let n = node_of(nodes, x)->0;
    lemma_node_of(nodes, x);
    let v = AliasFactView { kind: AliasKindView::MustAlias, allocation_site: Some(x) };
    assert forall|m: Map<NodeId, AliasFactView>| #[trigger] alias_step()(n, m) == v by {}
    lemma_topological_facts_fixed(nodes, alias_step(), x, n, v);
}

/// Two different allocations have different allocation sites.
pub proof fn law_distinct_allocations(nodes: Seq<Node>, x: NodeId, y: NodeId)
    requires
        (kind_of(nodes, x) matches Some(NodeKind::Allocate { .. })),
        (kind_of(nodes, y) matches Some(NodeKind::Allocate { .. })),
        x != y,
    ensures
        alias_over(nodes, spec_topological_sort(nodes))[x].allocation_site != alias_over(
            nodes,
            spec_topological_sort(nodes),
        )[y].allocation_site,
{
    law_allocation_own_site(nodes, x);
    law_allocation_own_site(nodes, y);
}

/// A constant aliases nothing.
pub proof fn law_constant_aliases_nothing(nodes: Seq<Node>, x: NodeId, d: crate::facts::ConstantData)
    requires
        kind_of(nodes, x) == Some(NodeKind::Constant(d)),
    ensures
        alias_over(nodes, spec_topological_sort(nodes))[x] == (AliasFactView {
            kind: AliasKindView::NoAlias,
            allocation_site: None,
        }),
{
    let n = node_of(nodes, x)->0;
    let v = AliasFactView { kind: AliasKindView::NoAlias, allocation_site: None };
    assert forall|m: Map<NodeId, AliasFactView>| #[trigger] alias_step()(n, m) == v by {}
    lemma_topological_facts_fixed(nodes, alias_step(), x, n, v);
}

/// Alias analysis gives a fact to exactly the nodes of the arena.
pub proof fn law_alias_cover_arena(nodes: Seq<Node>, x: NodeId)
    ensures
        alias_over(nodes, spec_topological_sort(nodes)).dom().contains(x) <==> exists|i: int|
            0 <= i < nodes.len() && nodes[i].id == x,
{
    lemma_topological_facts_dom(nodes, alias_step(), x);
}

} // verus!
