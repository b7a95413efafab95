//! Use-definition analysis: for each node, the nodes defining its inputs,
//! the nodes using its result, and whether it is dead.
use vstd::prelude::*;
use crate::facts::UseDefFact;
use crate::factmap::FactMap;
use crate::graph::{dataflow_inputs, spec_dataflow_inputs};
use crate::ir::{Function, Node, NodeId, distinct_ids};

verus! {

/// Number of occurrences of `x` in `s`.
pub open spec fn count_of(s: Seq<NodeId>, x: NodeId) -> nat
    decreases s.len(),
{
    if s.len() == 0 {
        0
    } else {
        count_of(s.drop_last(), x) + if s.last() == x {
            1nat
        } else {
            0nat
        }
    }
}

/// The uses of `x`: each node of `nodes`, in order, once per operand
/// position holding `x`.
pub open spec fn uses_of(nodes: Seq<Node>, x: NodeId) -> Seq<NodeId>
    decreases nodes.len(),
{
    if nodes.len() == 0 {
        Seq::empty()
    } else {
        uses_of(nodes.drop_last(), x) + Seq::new(
            count_of(spec_dataflow_inputs(nodes.last().kind), x),
            |i: int| nodes.last().id,
        )
    }
}

/// The use-definition fact of node `x` with kind operands `defs`.
pub open spec fn fact_holds(func: Function, x: NodeId, defs: Seq<NodeId>, f: UseDefFact) -> bool {
    let us = uses_of(func.arena@, x);
    &&& f.definitions@ == defs
    &&& f.users@ == us
    &&& f.use_count == us.len()
    &&& f.is_dead == (us.len() == 0 && func.return_node != Some(x))
}

fn uses_in(x: NodeId, arena: &Vec<Node>) -> (r: Vec<NodeId>)
    ensures
        r@ == uses_of(arena@, x),
{
    let mut r: Vec<NodeId> = Vec::new();
    let mut i: usize = 0;
    assert(arena@.subrange(0, 0) =~= Seq::<Node>::empty());
    while i < arena.len()
        invariant
            i <= arena@.len(),
            r@ == uses_of(arena@.subrange(0, i as int), x),
        decreases arena@.len() - i,
    {
        let ghost pre = arena@.subrange(0, i as int + 1);
        assert(pre.drop_last() =~= arena@.subrange(0, i as int));
        let ghost base = r@;
        let ins = dataflow_inputs(&arena[i].kind);
        let u = arena[i].id;
        let mut j: usize = 0;
        assert(ins@.subrange(0, 0) =~= Seq::<NodeId>::empty());
        assert(r@ =~= base + Seq::new(count_of(ins@.subrange(0, 0), x), |k: int| u));
        while j < ins.len()
            invariant
                j <= ins@.len(),
                r@ == base + Seq::new(count_of(ins@.subrange(0, j as int), x), |k: int| u),
            decreases ins@.len() - j,
        {
            let ghost sub = ins@.subrange(0, j as int + 1);
            assert(sub.drop_last() =~= ins@.subrange(0, j as int));
            if ins[j] == x {
                r.push(u);
            }
            j += 1;
            assert(r@ =~= base + Seq::new(count_of(ins@.subrange(0, j as int), x), |k: int| u));
        }
        assert(ins@.subrange(0, ins@.len() as int) =~= ins@);
        i += 1;
    }
    assert(arena@.subrange(0, arena@.len() as int) =~= arena@);
    r
}

/// Runs use-definition analysis: for every node, its definitions (its
/// dataflow inputs), its users (one entry per operand position using it,
/// in arena order), its use count, and whether it is dead (no use and not
/// the return node).
pub fn run_use_def(func: &Function) -> (facts: FactMap<UseDefFact>)
    requires
        distinct_ids(func.arena@),
    ensures
        facts.wf(),
        forall|x: NodeId| facts@.dom().contains(x) <==> exists|i: int| 0 <= i < func.arena@.len() && func.arena@[i].id == x,
        forall|i: int|
            0 <= i < func.arena@.len() ==> fact_holds(
                *func,
                func.arena@[i].id,
                spec_dataflow_inputs(func.arena@[i].kind),
                #[trigger] facts@[func.arena@[i].id],
            ),
{
    let mut facts: FactMap<UseDefFact> = FactMap::new();
    let mut i: usize = 0;
    while i < func.arena.len()
        invariant
            i <= func.arena@.len(),
            distinct_ids(func.arena@),
            facts.wf(),
            forall|x: NodeId| facts@.dom().contains(x) <==> exists|k: int| 0 <= k < i && func.arena@[k].id == x,
            forall|k: int|
                0 <= k < i ==> fact_holds(
                    *func,
                    func.arena@[k].id,
                    spec_dataflow_inputs(func.arena@[k].kind),
                    #[trigger] facts@[func.arena@[k].id],
                ),
        decreases func.arena@.len() - i,
    {
        let id = func.arena[i].id;
        let definitions = dataflow_inputs(&func.arena[i].kind);
        let users = uses_in(id, &func.arena);
        let use_count = users.len();
        let is_return = match func.return_node {
            Some(r) => r == id,
            None => false,
        };
        let is_dead = use_count == 0 && !is_return;
        let ghost before = facts@;
        facts.insert(id, UseDefFact { definitions, users, is_dead, use_count });
        proof {
            assert forall|x: NodeId| facts@.dom().contains(x) <==> exists|k: int| 0 <= k < i + 1 && func.arena@[k].id == x by {
                if x != id && facts@.dom().contains(x) {
                    assert(before.dom().contains(x));
                }
                if exists|k: int| 0 <= k < i + 1 && func.arena@[k].id == x {
                    let k = choose|k: int| 0 <= k < i + 1 && func.arena@[k].id == x;
                    if k < i {
                        assert(before.dom().contains(x));
                    }
                }
            }
            assert forall|k: int| 0 <= k < i + 1 implies fact_holds(
                *func,
                func.arena@[k].id,
                spec_dataflow_inputs(func.arena@[k].kind),
                #[trigger] facts@[func.arena@[k].id],
            ) by {
                if k < i {
                    assert(func.arena@[k].id != id);
                    assert(facts@[func.arena@[k].id] == before[func.arena@[k].id]);
                }
            }
        }
        i += 1;
    }
    facts
}

} // verus!
