//! Analyses that visit the nodes once, in a given order, and record one
//! fact per node computed from its kind and the facts recorded so far.
use vstd::prelude::*;
use crate::ir::{Node, NodeId, kind_of, position_of, lemma_position_of};
use crate::graph::{spec_topological_sort, law_topological_sort_order};

verus! {

/// The node with identifier `id`, if the arena holds it.
pub open spec fn node_of(nodes: Seq<Node>, id: NodeId) -> Option<Node> {
    match position_of(nodes, id, 0) {
        Some(i) => Some(nodes[i]),
        None => None,
    }
}

/// The node `node_of` finds has the identifier asked for, and the kind
/// `kind_of` gives.
pub proof fn lemma_node_of(nodes: Seq<Node>, x: NodeId)
    ensures
        node_of(nodes, x) matches Some(n) ==> n.id == x && kind_of(nodes, x) == Some(n.kind),
        node_of(nodes, x) is None <==> kind_of(nodes, x) is None,
{
    lemma_position_of(nodes, x, 0);
}

/// The facts after visiting the identifiers of `order` in turn: each one
/// the arena holds gets `step(node, facts so far)`; the others are
/// skipped.
pub open spec fn facts_over<V>(
    nodes: Seq<Node>,
    order: Seq<NodeId>,
    step: spec_fn(Node, Map<NodeId, V>) -> V,
) -> Map<NodeId, V>
    decreases order.len(),
{
    if order.len() == 0 {
        Map::empty()
    } else {
        let m = facts_over(nodes, order.drop_last(), step);
        match node_of(nodes, order.last()) {
            Some(n) => m.insert(order.last(), step(n, m)),
            None => m,
        }
    }
}

/// The nodes given a fact are those of `order` that the arena holds.
pub proof fn lemma_facts_over_dom<V>(
    nodes: Seq<Node>,
    order: Seq<NodeId>,
    step: spec_fn(Node, Map<NodeId, V>) -> V,
    x: NodeId,
)
    ensures
        facts_over(nodes, order, step).dom().contains(x) <==> (order.contains(x) && node_of(nodes, x) is Some),
    decreases order.len(),
{
    if order.len() > 0 {
        lemma_facts_over_dom(nodes, order.drop_last(), step, x);
        if order.drop_last().contains(x) {
            let i = choose|i: int| 0 <= i < order.drop_last().len() && order.drop_last()[i] == x;
            assert(order[i] == x);
        }
        if order.contains(x) && x != order.last() {
            let i = choose|i: int| 0 <= i < order.len() && order[i] == x;
            assert(order.drop_last()[i] == x);
        }
    }
}

/// When an order visits each node once and a node's step does not depend
/// on the facts so far, the node's fact is that step's value.
pub proof fn lemma_facts_over_fixed<V>(
    nodes: Seq<Node>,
    order: Seq<NodeId>,
    step: spec_fn(Node, Map<NodeId, V>) -> V,
    x: NodeId,
    n: Node,
    v: V,
)
    requires
        order.contains(x),
        node_of(nodes, x) == Some(n),
        forall|m: Map<NodeId, V>| #[trigger] step(n, m) == v,
        forall|a: int, b: int| 0 <= a < b < order.len() ==> order[a] != order[b],
    ensures
        facts_over(nodes, order, step).dom().contains(x),
        facts_over(nodes, order, step)[x] == v,
    decreases order.len(),
{
    if order.last() != x {
        let i = choose|i: int| 0 <= i < order.len() && order[i] == x;
        assert(order.drop_last()[i] == x);
        lemma_facts_over_fixed(nodes, order.drop_last(), step, x, n, v);
    } else {
        let m = facts_over(nodes, order.drop_last(), step);
        assert(step(n, m) == v);
    }
}

/// Every node of the arena is in the topological order.
pub proof fn lemma_in_topological_order(nodes: Seq<Node>, x: NodeId)
    requires
        node_of(nodes, x) is Some,
    ensures
        spec_topological_sort(nodes).contains(x),
{
    lemma_position_of(nodes, x, 0);
    law_topological_sort_order(nodes);
    let i = position_of(nodes, x, 0)->0;
    assert(nodes[i].id == x);
}

/// Visiting the topological order gives a fact to exactly the nodes of
/// the arena.
pub proof fn lemma_topological_facts_dom<V>(
    nodes: Seq<Node>,
    step: spec_fn(Node, Map<NodeId, V>) -> V,
    x: NodeId,
)
    ensures
        facts_over(nodes, spec_topological_sort(nodes), step).dom().contains(x) <==> exists|i: int|
            0 <= i < nodes.len() && nodes[i].id == x,
{
    lemma_position_of(nodes, x, 0);
    law_topological_sort_order(nodes);
    lemma_facts_over_dom(nodes, spec_topological_sort(nodes), step, x);
    if exists|i: int| 0 <= i < nodes.len() && nodes[i].id == x {
        let i = choose|i: int| 0 <= i < nodes.len() && nodes[i].id == x;
        assert(node_of(nodes, x) is Some);
    }
}

/// Visiting the topological order, a node whose step does not depend on
/// the facts so far gets that step's value.
pub proof fn lemma_topological_facts_fixed<V>(
    nodes: Seq<Node>,
    step: spec_fn(Node, Map<NodeId, V>) -> V,
    x: NodeId,
    n: Node,
    v: V,
)
    requires
        node_of(nodes, x) == Some(n),
        forall|m: Map<NodeId, V>| #[trigger] step(n, m) == v,
    ensures
        facts_over(nodes, spec_topological_sort(nodes), step).dom().contains(x),
        facts_over(nodes, spec_topological_sort(nodes), step)[x] == v,
{
    lemma_in_topological_order(nodes, x);
    law_topological_sort_order(nodes);
    lemma_facts_over_fixed(nodes, spec_topological_sort(nodes), step, x, n, v);
}

pub open spec fn no_repeats(order: Seq<NodeId>) -> bool {
    forall|a: int, b: int| 0 <= a < b < order.len() ==> order[a] != order[b]
}

/// With each node visited once, a fact once recorded stays.
pub proof fn lemma_facts_over_stable<V>(
    nodes: Seq<Node>,
    order: Seq<NodeId>,
    step: spec_fn(Node, Map<NodeId, V>) -> V,
    j: int,
    y: NodeId,
)
    requires
        no_repeats(order),
        0 <= j <= order.len(),
        facts_over(nodes, order.subrange(0, j), step).dom().contains(y),
    ensures
        facts_over(nodes, order, step).dom().contains(y),
        facts_over(nodes, order, step)[y] == facts_over(nodes, order.subrange(0, j), step)[y],
    decreases order.len(),
{
    if j == order.len() {
        assert(order.subrange(0, j) =~= order);
    } else {
        let d = order.drop_last();
        assert(d.subrange(0, j) =~= order.subrange(0, j));
        lemma_facts_over_stable(nodes, d, step, j, y);
        lemma_facts_over_dom(nodes, order.subrange(0, j), step, y);
        let k = choose|k: int| 0 <= k < order.subrange(0, j).len() && order.subrange(0, j)[k] == y;
        assert(order[k] == y);
        assert(order.last() != y);
    }
}

/// With each node visited once, the fact of the node visited at position
/// `i` is its step on the facts recorded before it.
pub proof fn lemma_facts_over_at<V>(
    nodes: Seq<Node>,
    order: Seq<NodeId>,
    step: spec_fn(Node, Map<NodeId, V>) -> V,
    i: int,
    n: Node,
)
    requires
        no_repeats(order),
        0 <= i < order.len(),
        node_of(nodes, order[i]) == Some(n),
    ensures
        facts_over(nodes, order, step).dom().contains(order[i]),
        facts_over(nodes, order, step)[order[i]] == step(n, facts_over(nodes, order.subrange(0, i), step)),
{
    let pre = order.subrange(0, i + 1);
    assert(pre.drop_last() =~= order.subrange(0, i));
    assert(pre.last() == order[i]);
    lemma_facts_over_stable(nodes, order, step, i + 1, order[i]);
}

} // verus!
