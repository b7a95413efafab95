//! Purity analysis.
//!
//! A node's own purity level comes from its effects; its subgraph is pure
//! when the node has no effect and every dataflow input already has a
//! pure subgraph. Nodes are visited in topological order, each after its
//! operands.
use vstd::prelude::*;
use crate::facts::{PurityFact, PurityLevel};
use crate::ir::{Effects, Function, Node, NodeId, kind_of};
use crate::graph::{spec_dataflow_inputs, dataflow_inputs, spec_topological_sort, topological_sort, inputs_of,
    reaches, is_path, law_topological_sort_order, acyclic, operands_in_arena, no_return_operand,
    law_topological_sort_dataflow};
use crate::factmap::FactMap;
use crate::visit::{facts_over, node_of, lemma_node_of, lemma_facts_over_at, lemma_topological_facts_dom,
    lemma_in_topological_order, no_repeats, lemma_facts_over_dom, lemma_facts_over_stable};

verus! {

/// The purity level of a node's own effects: pure without effects, else
/// the first of I/O, atomic, allocation, memory write, memory read that it
/// has, else unknown.
pub open spec fn purity_level(e: Effects) -> PurityLevel {
    if e.spec_is_pure() {
        PurityLevel::Pure
    } else if e.io {
        PurityLevel::IO
    } else if e.atomic {
        PurityLevel::Atomic
    } else if e.allocate {
        PurityLevel::Allocates
    } else if e.write_memory {
        PurityLevel::WritesMemory
    } else if e.read_memory {
        PurityLevel::ReadsMemory
    } else {
        PurityLevel::Unknown
    }
}

/// Whether every one of `ids` has a recorded pure subgraph.
pub open spec fn inputs_pure(ids: Seq<NodeId>, m: Map<NodeId, PurityFact>) -> bool {
    forall|i: int| 0 <= i < ids.len() ==> m.dom().contains(#[trigger] ids[i]) && m[ids[i]].subgraph_is_pure
}

/// The purity fact of a node, given the facts so far.
pub open spec fn spec_purity(n: Node, m: Map<NodeId, PurityFact>) -> PurityFact {
    PurityFact {
        purity: purity_level(n.effects),
        subgraph_is_pure: n.effects.spec_is_pure() && inputs_pure(spec_dataflow_inputs(n.kind), m),
    }
}

/// The purity step of the visit.
pub open spec fn purity_step() -> spec_fn(Node, Map<NodeId, PurityFact>) -> PurityFact {
    |n: Node, m: Map<NodeId, PurityFact>| spec_purity(n, m)
}

/// The purity facts after visiting the nodes of `order` in turn.
pub open spec fn purity_over(nodes: Seq<Node>, order: Seq<NodeId>) -> Map<NodeId, PurityFact> {
    facts_over(nodes, order, purity_step())
}

fn level_of(e: &Effects) -> (l: PurityLevel)
    ensures
        l == purity_level(*e),
{
    if e.is_pure() {
        PurityLevel::Pure
    } else if e.io {
        PurityLevel::IO
    } else if e.atomic {
        PurityLevel::Atomic
    } else if e.allocate {
        PurityLevel::Allocates
    } else if e.write_memory {
        PurityLevel::WritesMemory
    } else if e.read_memory {
        PurityLevel::ReadsMemory
    } else {
        PurityLevel::Unknown
    }
}

fn all_inputs_pure(inputs: &Vec<NodeId>, facts: &FactMap<PurityFact>) -> (b: bool)
    requires
        facts.wf(),
    ensures
        b == inputs_pure(inputs@, facts@),
{
    let mut i: usize = 0;
    while i < inputs.len()
        invariant
            i <= inputs@.len(),
            facts.wf(),
            inputs_pure(inputs@.subrange(0, i as int), facts@),
        decreases inputs@.len() - i,
    {
        match facts.get(inputs[i]) {
            Some(f) => {
                if !f.subgraph_is_pure {
                    return false;
                }
            },
            None => {
                return false;
            },
        }
        proof {
            assert forall|k: int| 0 <= k < i + 1 implies facts@.dom().contains(
                #[trigger] inputs@.subrange(0, i + 1)[k],
            ) && facts@[inputs@.subrange(0, i + 1)[k]].subgraph_is_pure by {
                if k < i {
                    assert(inputs@.subrange(0, i + 1)[k] == inputs@.subrange(0, i as int)[k]);
                }
            }
        }
        i += 1;
    }
    proof {
        assert(inputs@.subrange(0, inputs@.len() as int) =~= inputs@);
    }
    true
}

/// Runs purity analysis: visits the nodes in the topological order and
/// records each node's purity fact.
pub fn run_purity(func: &Function) -> (facts: FactMap<PurityFact>)
    ensures
        facts.wf(),
        facts@ == purity_over(func.arena@, spec_topological_sort(func.arena@)),
{
    let order = topological_sort(func);
    let mut facts: FactMap<PurityFact> = FactMap::new();
    let mut i: usize = 0;
    while i < order.len()
        invariant
            i <= order@.len(),
            facts.wf(),
            facts@ == purity_over(func.arena@, order@.subrange(0, i as int)),
        decreases order@.len() - i,
    {
        let id = order[i];
        proof {
            assert(order@.subrange(0, i + 1).drop_last() =~= order@.subrange(0, i as int));
        }
        match func.get_node(id) {
            Some(node) => {
                let node_pure = node.effects.is_pure();
                let purity = level_of(&node.effects);
                let inputs = dataflow_inputs(&node.kind);
                let inputs_ok = all_inputs_pure(&inputs, &facts);
                facts.insert(id, PurityFact { purity, subgraph_is_pure: node_pure && inputs_ok });
            },
            None => {},
        }
        i += 1;
    }
    proof {
        assert(order@.subrange(0, order@.len() as int) =~= order@);
    }
    facts
}

// ── Laws ────────────────────────────────────────────────────────────────

/// A node with a pure subgraph is itself pure, and every dataflow input of
/// it has a pure subgraph.
pub proof fn law_pure_subgraph_step(nodes: Seq<Node>, x: NodeId, y: NodeId)
    requires
        purity_over(nodes, spec_topological_sort(nodes)).dom().contains(x),
        purity_over(nodes, spec_topological_sort(nodes))[x].subgraph_is_pure,
        inputs_of(nodes, x).contains(y),
    ensures
        purity_over(nodes, spec_topological_sort(nodes))[x].purity == PurityLevel::Pure,
        purity_over(nodes, spec_topological_sort(nodes)).dom().contains(y),
        purity_over(nodes, spec_topological_sort(nodes))[y].subgraph_is_pure,
{
    let order = spec_topological_sort(nodes);
    law_topological_sort_order(nodes);
    lemma_node_of(nodes, x);
    lemma_topological_facts_dom(nodes, purity_step(), x);
    let n = node_of(nodes, x)->0;
    lemma_in_topological_order(nodes, x);
    let i = choose|i: int| 0 <= i < order.len() && order[i] == x;
    lemma_facts_over_at(nodes, order, purity_step(), i, n);
    let before = facts_over(nodes, order.subrange(0, i), purity_step());
    let ins = spec_dataflow_inputs(n.kind);
    let j = choose|j: int| 0 <= j < ins.len() && ins[j] == y;
    assert(before.dom().contains(ins[j]));
    crate::visit::lemma_facts_over_stable(nodes, order, purity_step(), i, y);
}

/// A pure subgraph is pure all the way down: every node a node with a pure
/// subgraph reaches through its operands has no effect and a pure subgraph.
pub proof fn law_pure_subgraph_closed(nodes: Seq<Node>, x: NodeId, y: NodeId)
    requires
        purity_over(nodes, spec_topological_sort(nodes)).dom().contains(x),
        purity_over(nodes, spec_topological_sort(nodes))[x].subgraph_is_pure,
        reaches(nodes, x, y),
    ensures
        purity_over(nodes, spec_topological_sort(nodes)).dom().contains(y),
        purity_over(nodes, spec_topological_sort(nodes))[y].subgraph_is_pure,
        purity_over(nodes, spec_topological_sort(nodes))[y].purity == PurityLevel::Pure,
{
    let p = choose|p: Seq<NodeId>| #[trigger] is_path(nodes, p) && p[0] == x && p.last() == y;
    lemma_pure_along(nodes, p, x);
    assert(p[p.len() - 1] == y);
    lemma_pure_self(nodes, y);
}

proof fn lemma_pure_self(nodes: Seq<Node>, x: NodeId)
    requires
        purity_over(nodes, spec_topological_sort(nodes)).dom().contains(x),
        purity_over(nodes, spec_topological_sort(nodes))[x].subgraph_is_pure,
    ensures
        purity_over(nodes, spec_topological_sort(nodes))[x].purity == PurityLevel::Pure,
{
    let order = spec_topological_sort(nodes);
    law_topological_sort_order(nodes);
    lemma_node_of(nodes, x);
    lemma_topological_facts_dom(nodes, purity_step(), x);
    crate::ir::lemma_position_of(nodes, x, 0);
    let k = choose|k: int| 0 <= k < nodes.len() && nodes[k].id == x;
    let n = node_of(nodes, x)->0;
    lemma_in_topological_order(nodes, x);
    let i = choose|i: int| 0 <= i < order.len() && order[i] == x;
    lemma_facts_over_at(nodes, order, purity_step(), i, n);
}

proof fn lemma_pure_along(nodes: Seq<Node>, p: Seq<NodeId>, x: NodeId)
    requires
        is_path(nodes, p),
        p[0] == x,
        purity_over(nodes, spec_topological_sort(nodes)).dom().contains(x),
        purity_over(nodes, spec_topological_sort(nodes))[x].subgraph_is_pure,
    ensures
        forall|k: int|
            0 <= k < p.len() ==> purity_over(nodes, spec_topological_sort(nodes)).dom().contains(#[trigger] p[k])
                && purity_over(nodes, spec_topological_sort(nodes))[p[k]].subgraph_is_pure,
    decreases p.len(),
{
    if p.len() > 1 {
        let q = p.drop_last();
        assert(is_path(nodes, q)) by {
            assert forall|i: int| 0 <= i < q.len() - 1 implies inputs_of(nodes, #[trigger] q[i]).contains(q[i + 1]) by {
                assert(q[i] == p[i] && q[i + 1] == p[i + 1]);
                assert(inputs_of(nodes, p[i]).contains(p[i + 1]));
            }
        }
        lemma_pure_along(nodes, q, x);
        let l = p.len() - 2;
        assert(q[l] == p[l]);
        assert(inputs_of(nodes, p[l]).contains(p[l + 1]));
        law_pure_subgraph_step(nodes, p[l], p[l + 1]);
        assert forall|k: int| 0 <= k < p.len() implies purity_over(nodes, spec_topological_sort(nodes)).dom().contains(
            #[trigger] p[k],
        ) && purity_over(nodes, spec_topological_sort(nodes))[p[k]].subgraph_is_pure by {
            if k < p.len() - 1 {
                assert(q[k] == p[k]);
            }
        }
    }
}

/// A node's own purity level is `Pure` exactly when it has no effect.
pub proof fn law_purity_level_pure(e: Effects)
    ensures
        (purity_level(e) == PurityLevel::Pure) <==> e.spec_is_pure(),
{
}

/// Purity analysis gives a fact to exactly the nodes of the arena.
pub proof fn law_purity_cover_arena(nodes: Seq<Node>, x: NodeId)
    ensures
        purity_over(nodes, spec_topological_sort(nodes)).dom().contains(x) <==> exists|i: int|
            0 <= i < nodes.len() && nodes[i].id == x,
{
    lemma_topological_facts_dom(nodes, purity_step(), x);
}


/// The rule of purity: in an arena without cycles, with every operand in
/// the arena and no `Return` operand, a node's subgraph is pure exactly
/// when the node has no effect and every one of its operands has a pure
/// subgraph; its level is that of its own effects.
pub proof fn law_purity_rule(nodes: Seq<Node>, x: NodeId)
    requires
        acyclic(nodes),
        operands_in_arena(nodes),
        no_return_operand(nodes),
        exists|k: int| 0 <= k < nodes.len() && nodes[k].id == x,
    ensures
        ({
            let f = purity_over(nodes, spec_topological_sort(nodes));
            let n = node_of(nodes, x)->0;
            &&& f.dom().contains(x)
            &&& f[x].purity == purity_level(n.effects)
            &&& f[x].subgraph_is_pure == (n.effects.spec_is_pure() && forall|y: NodeId|
                #[trigger] inputs_of(nodes, x).contains(y) ==> f.dom().contains(y) && f[y].subgraph_is_pure)
        }),
{
    let order = spec_topological_sort(nodes);
    let f = purity_over(nodes, order);
    law_topological_sort_order(nodes);
    law_topological_sort_dataflow(nodes);
    lemma_node_of(nodes, x);
    crate::ir::lemma_position_of(nodes, x, 0);
    let n = node_of(nodes, x)->0;
    lemma_in_topological_order(nodes, x);
    let i = choose|i: int| 0 <= i < order.len() && order[i] == x;
    assert(no_repeats(order));
    lemma_facts_over_at(nodes, order, purity_step(), i, n);
    let before = facts_over(nodes, order.subrange(0, i), purity_step());
    assert(inputs_of(nodes, x) == spec_dataflow_inputs(n.kind));
    assert forall|y: NodeId| #[trigger] inputs_of(nodes, x).contains(y) implies before.dom().contains(y) && f.dom().contains(y)
        && f[y] == before[y] by {
        assert(inputs_of(nodes, order[i]).contains(y));
        let a = choose|a: int| 0 <= a < i && order[a] == y;
        assert(order.subrange(0, i)[a] == y);
        let k = choose|k: int| 0 <= k < nodes.len() && nodes[k].id == y;
        crate::ir::lemma_position_of(nodes, y, 0);
        lemma_facts_over_dom(nodes, order.subrange(0, i), purity_step(), y);
        lemma_facts_over_stable(nodes, order, purity_step(), i, y);
    }
    let ins = spec_dataflow_inputs(n.kind);
    if inputs_pure(ins, before) {
        assert forall|y: NodeId| #[trigger] inputs_of(nodes, x).contains(y) implies f.dom().contains(y) && f[y].subgraph_is_pure by {
            let j = choose|j: int| 0 <= j < ins.len() && ins[j] == y;
        }
    }
    if forall|y: NodeId| #[trigger] inputs_of(nodes, x).contains(y) ==> f.dom().contains(y) && f[y].subgraph_is_pure {
        assert forall|j: int| 0 <= j < ins.len() implies before.dom().contains(#[trigger] ins[j]) && before[ins[j]].subgraph_is_pure by {
            assert(inputs_of(nodes, x).contains(ins[j]));
        }
    }
}

} // verus!
