//! The orders in which the C emitter writes statements: a depth-first
//! post-order over dataflow operands within a set of nodes, and the set of
//! non-atom nodes a set of seeds depends on.
use vstd::prelude::*;
use crate::graph::{spec_dataflow_inputs, dataflow_inputs};
use crate::ir::{Function, Node, NodeId, NodeKind};
use crate::visit::node_of;

verus! {

/// The dataflow operands of node `id`, none if the arena lacks it.
pub open spec fn deps_of(nodes: Seq<Node>, id: NodeId) -> Seq<NodeId> {
    match node_of(nodes, id) {
        Some(n) => spec_dataflow_inputs(n.kind),
        None => Seq::empty(),
    }
}

/// `s` without any occurrence of `x`.
pub open spec fn remove_all(s: Seq<NodeId>, x: NodeId) -> Seq<NodeId>
    decreases s.len(),
{
    if s.len() == 0 {
        s
    } else if s.last() == x {
        remove_all(s.drop_last(), x)
    } else {
        remove_all(s.drop_last(), x).push(s.last())
    }
}

/// One visit of the depth-first walk from state `(order, visited,
/// visiting)`: a node already visited, outside `in_set` or on the current
/// path is skipped; otherwise its operands are visited in order and it is
/// appended to the order. `fuel` bounds the depth.
pub open spec fn dfs_visit(
    nodes: Seq<Node>,
    in_set: Seq<NodeId>,
    id: NodeId,
    st: (Seq<NodeId>, Seq<NodeId>, Seq<NodeId>),
    fuel: nat,
) -> (Seq<NodeId>, Seq<NodeId>, Seq<NodeId>)
    decreases fuel, 0nat, 0nat,
{
    if fuel == 0 || st.1.contains(id) || !in_set.contains(id) || st.2.contains(id) {
        st
    } else {
        let s1 = dfs_seq(nodes, in_set, deps_of(nodes, id), (st.0, st.1, st.2.push(id)), (fuel - 1) as nat);
        (s1.0.push(id), s1.1.push(id), remove_all(s1.2, id))
    }
}

/// The walk visiting each of `ids` in turn.
pub open spec fn dfs_seq(
    nodes: Seq<Node>,
    in_set: Seq<NodeId>,
    ids: Seq<NodeId>,
    st: (Seq<NodeId>, Seq<NodeId>, Seq<NodeId>),
    fuel: nat,
) -> (Seq<NodeId>, Seq<NodeId>, Seq<NodeId>)
    decreases fuel, 1nat, ids.len(),
{
    if ids.len() == 0 {
        st
    } else {
        dfs_seq(nodes, in_set, ids.drop_first(), dfs_visit(nodes, in_set, ids[0], st, fuel), fuel)
    }
}

/// The nodes of `in_set` reached from `seeds`, each after its operands in
/// `in_set` (a post-order; a node on a cycle is not revisited). The depth
/// is bounded by `in_set.len() + 1`, more than a walk whose path holds
/// distinct members of `in_set` can reach.
pub open spec fn topo_spec(nodes: Seq<Node>, seeds: Seq<NodeId>, in_set: Seq<NodeId>) -> Seq<NodeId> {
    dfs_seq(nodes, in_set, seeds, (Seq::empty(), Seq::empty(), Seq::empty()), in_set.len() + 1).0
}

/// Whether `v` holds `x`.
pub fn contains_id(v: &Vec<NodeId>, x: NodeId) -> (b: bool)
    ensures
        b == v@.contains(x),
{
    let mut i: usize = 0;
    while i < v.len()
        invariant
            i <= v@.len(),
            forall|k: int| 0 <= k < i ==> v@[k] != x,
        decreases v@.len() - i,
    {
        if v[i] == x {
            assert(v@[i as int] == x);
            return true;
        }
        i += 1;
    }
    false
}

fn remove_id(v: &Vec<NodeId>, x: NodeId) -> (r: Vec<NodeId>)
    ensures
        r@ == remove_all(v@, x),
{
    let mut r: Vec<NodeId> = Vec::new();
    let mut i: usize = 0;
    assert(v@.subrange(0, 0) =~= Seq::<NodeId>::empty());
    while i < v.len()
        invariant
            i <= v@.len(),
            r@ == remove_all(v@.subrange(0, i as int), x),
        decreases v@.len() - i,
    {
        let ghost pre = v@.subrange(0, i + 1);
        assert(pre.drop_last() =~= v@.subrange(0, i as int));
        if v[i] != x {
            r.push(v[i]);
        }
        i += 1;
    }
    assert(v@.subrange(0, v@.len() as int) =~= v@);
    r
}

fn deps_exec(f: &Function, id: NodeId) -> (d: Vec<NodeId>)
    ensures
        d@ == deps_of(f.arena@, id),
{
    match f.get_node(id) {
        Some(n) => dataflow_inputs(&n.kind),
        None => Vec::new(),
    }
}

fn dfs_visit_exec(
    f: &Function,
    in_set: &Vec<NodeId>,
    id: NodeId,
    order: &mut Vec<NodeId>,
    visited: &mut Vec<NodeId>,
    visiting: &mut Vec<NodeId>,
    fuel: u128,
)
    ensures
        (final(order)@, final(visited)@, final(visiting)@) == dfs_visit(
            f.arena@,
            in_set@,
            id,
            (old(order)@, old(visited)@, old(visiting)@),
            fuel as nat,
        ),
    decreases fuel, 0nat, 0nat,
{
    if fuel == 0 || contains_id(visited, id) || !contains_id(in_set, id) || contains_id(visiting, id) {
        return;
    }
    visiting.push(id);
    let deps = deps_exec(f, id);
    dfs_seq_exec(f, in_set, &deps, order, visited, visiting, fuel - 1);
    let rest = remove_id(visiting, id);
    *visiting = rest;
    visited.push(id);
    order.push(id);
}

fn dfs_seq_exec(
    f: &Function,
    in_set: &Vec<NodeId>,
    ids: &Vec<NodeId>,
    order: &mut Vec<NodeId>,
    visited: &mut Vec<NodeId>,
    visiting: &mut Vec<NodeId>,
    fuel: u128,
)
    ensures
        (final(order)@, final(visited)@, final(visiting)@) == dfs_seq(
            f.arena@,
            in_set@,
            ids@,
            (old(order)@, old(visited)@, old(visiting)@),
            fuel as nat,
        ),
    decreases fuel, 1nat, ids@.len(),
{
    let ghost goal = dfs_seq(f.arena@, in_set@, ids@, (order@, visited@, visiting@), fuel as nat);
    let mut i: usize = 0;
    assert(ids@.subrange(0, ids@.len() as int) =~= ids@);
    while i < ids.len()
        invariant
            i <= ids@.len(),
            goal == dfs_seq(
                f.arena@,
                in_set@,
                ids@.subrange(i as int, ids@.len() as int),
                (order@, visited@, visiting@),
                fuel as nat,
            ),
        decreases ids@.len() - i,
    {
        let ghost rest = ids@.subrange(i as int, ids@.len() as int);
        assert(rest.drop_first() =~= ids@.subrange(i + 1, ids@.len() as int));
        assert(rest[0] == ids@[i as int]);
        dfs_visit_exec(f, in_set, ids[i], order, visited, visiting, fuel);
        i += 1;
    }
    assert(ids@.subrange(i as int, ids@.len() as int) =~= Seq::<NodeId>::empty());
}

/// The post-order of `in_set` reached from `seeds` (see `topo_spec`).
pub fn topo_order(seeds: &Vec<NodeId>, in_set: &Vec<NodeId>, f: &Function) -> (order: Vec<NodeId>)
    ensures
        order@ == topo_spec(f.arena@, seeds@, in_set@),
{
    let mut order: Vec<NodeId> = Vec::new();
    let mut visited: Vec<NodeId> = Vec::new();
    let mut visiting: Vec<NodeId> = Vec::new();
    let fuel: u128 = in_set.len() as u128 + 1;
    dfs_seq_exec(f, in_set, seeds, &mut order, &mut visited, &mut visiting, fuel);
    order
}

// ── Dependency closures ─────────────────────────────────────────────────

/// One visit of the closure walk from state `(out, seen)`: a node seen
/// before is skipped; otherwise it is seen, and unless it is a stop, a
/// missing node or an atom (parameter, constant, loop, return) it joins
/// `out` and its operands are visited.
pub open spec fn closure_visit(
    nodes: Seq<Node>,
    stops: Seq<NodeId>,
    id: NodeId,
    st: (Seq<NodeId>, Seq<NodeId>),
    fuel: nat,
) -> (Seq<NodeId>, Seq<NodeId>)
    decreases fuel, 0nat, 0nat,
{
    if fuel == 0 || st.1.contains(id) {
        st
    } else {
        let seen = st.1.push(id);
        if stops.contains(id) {
            (st.0, seen)
        } else {
            match node_of(nodes, id) {
                None => (st.0, seen),
                Some(n) => match n.kind {
                    NodeKind::Parameter { .. } => (st.0, seen),
                    NodeKind::Constant(_) => (st.0, seen),
                    NodeKind::Loop { .. } => (st.0, seen),
                    NodeKind::Return { .. } => (st.0, seen),
                    _ => closure_seq(nodes, stops, spec_dataflow_inputs(n.kind), (st.0.push(id), seen), (fuel - 1) as nat),
                },
            }
        }
    }
}

/// The closure walk visiting each of `ids` in turn.
pub open spec fn closure_seq(
    nodes: Seq<Node>,
    stops: Seq<NodeId>,
    ids: Seq<NodeId>,
    st: (Seq<NodeId>, Seq<NodeId>),
    fuel: nat,
) -> (Seq<NodeId>, Seq<NodeId>)
    decreases fuel, 1nat, ids.len(),
{
    if ids.len() == 0 {
        st
    } else {
        closure_seq(nodes, stops, ids.drop_first(), closure_visit(nodes, stops, ids[0], st, fuel), fuel)
    }
}

/// The non-atom nodes that `seeds` reach through operands without passing
/// a stop (the depth bounded by the arena's length plus one, more than the
/// walk, which descends only through distinct nodes of the arena, reaches).
pub open spec fn closure_spec(nodes: Seq<Node>, seeds: Seq<NodeId>, stops: Seq<NodeId>) -> Seq<NodeId> {
    closure_seq(nodes, stops, seeds, (Seq::empty(), Seq::empty()), nodes.len() + 1).0
}

fn closure_visit_exec(
    f: &Function,
    stops: &Vec<NodeId>,
    id: NodeId,
    out: &mut Vec<NodeId>,
    seen: &mut Vec<NodeId>,
    fuel: u128,
)
    ensures
        (final(out)@, final(seen)@) == closure_visit(f.arena@, stops@, id, (old(out)@, old(seen)@), fuel as nat),
    decreases fuel, 0nat, 0nat,
{
    if fuel == 0 || contains_id(seen, id) {
        return;
    }
    seen.push(id);
    if contains_id(stops, id) {
        return;
    }
    match f.get_node(id) {
        None => {},
        Some(n) => match &n.kind {
            NodeKind::Parameter { .. } => {},
            NodeKind::Constant(_) => {},
            NodeKind::Loop { .. } => {},
            NodeKind::Return { .. } => {},
            _ => {
                out.push(id);
                let deps = dataflow_inputs(&n.kind);
                closure_seq_exec(f, stops, &deps, out, seen, fuel - 1);
            },
        },
    }
}

fn closure_seq_exec(
    f: &Function,
    stops: &Vec<NodeId>,
    ids: &Vec<NodeId>,
    out: &mut Vec<NodeId>,
    seen: &mut Vec<NodeId>,
    fuel: u128,
)
    ensures
        (final(out)@, final(seen)@) == closure_seq(f.arena@, stops@, ids@, (old(out)@, old(seen)@), fuel as nat),
    decreases fuel, 1nat, ids@.len(),
{
    let ghost goal = closure_seq(f.arena@, stops@, ids@, (out@, seen@), fuel as nat);
    let mut i: usize = 0;
    assert(ids@.subrange(0, ids@.len() as int) =~= ids@);
    while i < ids.len()
        invariant
            i <= ids@.len(),
            goal == closure_seq(f.arena@, stops@, ids@.subrange(i as int, ids@.len() as int), (out@, seen@), fuel as nat),
        decreases ids@.len() - i,
    {
        let ghost rest = ids@.subrange(i as int, ids@.len() as int);
        assert(rest.drop_first() =~= ids@.subrange(i + 1, ids@.len() as int));
        assert(rest[0] == ids@[i as int]);
        closure_visit_exec(f, stops, ids[i], out, seen, fuel);
        i += 1;
    }
    assert(ids@.subrange(i as int, ids@.len() as int) =~= Seq::<NodeId>::empty());
}

/// The dependency closure of `seeds` (see `closure_spec`).
pub fn dependency_closure(seeds: &Vec<NodeId>, f: &Function, stops: &Vec<NodeId>) -> (out: Vec<NodeId>)
    ensures
        out@ == closure_spec(f.arena@, seeds@, stops@),
{
    let mut out: Vec<NodeId> = Vec::new();
    let mut seen: Vec<NodeId> = Vec::new();
    let fuel: u128 = f.arena.len() as u128 + 1;
    closure_seq_exec(f, stops, seeds, &mut out, &mut seen, fuel);
    out
}

// ── The emission order ─────────────────────────────────────────────────

/// Every node of `order` comes after those of its operands that `in_set`
/// holds.
pub open spec fn operands_first(nodes: Seq<Node>, in_set: Seq<NodeId>, order: Seq<NodeId>) -> bool {
    forall|i: int, d: NodeId|
        0 <= i < order.len() && #[trigger] deps_of(nodes, order[i]).contains(d) && in_set.contains(d) ==> exists|j: int|
            0 <= j < i && order[j] == d
}

/// `rank` ranks the nodes of `in_set` below `in_set.len()`, each above its
/// operands in `in_set`: the dataflow graph within `in_set` is acyclic.
pub open spec fn ranked(nodes: Seq<Node>, in_set: Seq<NodeId>, rank: spec_fn(NodeId) -> nat) -> bool {
    &&& forall|x: NodeId| #[trigger] in_set.contains(x) ==> rank(x) < in_set.len()
    &&& forall|x: NodeId, d: NodeId|
        in_set.contains(x) && #[trigger] deps_of(nodes, x).contains(d) && in_set.contains(d) ==> rank(d) < rank(x)
}

proof fn lemma_remove_absent(s: Seq<NodeId>, x: NodeId)
    requires
        !s.contains(x),
    ensures
        remove_all(s, x) == s,
    decreases s.len(),
{
    if s.len() > 0 {
        assert(!s.drop_last().contains(x)) by {
            if s.drop_last().contains(x) {
                let k = choose|k: int| 0 <= k < s.drop_last().len() && s.drop_last()[k] == x;
                assert(s[k] == x);
            }
        }
        lemma_remove_absent(s.drop_last(), x);
        assert(s.last() != x);
        assert(s.drop_last().push(s.last()) =~= s);
    }
}

proof fn lemma_dfs_visit(
    nodes: Seq<Node>,
    in_set: Seq<NodeId>,
    rank: spec_fn(NodeId) -> nat,
    id: NodeId,
    st: (Seq<NodeId>, Seq<NodeId>, Seq<NodeId>),
    fuel: nat,
)
    requires
        ranked(nodes, in_set, rank),
        st.0 == st.1,
        operands_first(nodes, in_set, st.0),
        in_set.contains(id) ==> fuel > rank(id) && forall|k: int| 0 <= k < st.2.len() ==> rank(#[trigger] st.2[k]) > rank(id),
    ensures
        ({
            let r = dfs_visit(nodes, in_set, id, st, fuel);
            &&& r.0 == r.1
            &&& operands_first(nodes, in_set, r.0)
            &&& r.2 == st.2
            &&& st.0.len() <= r.0.len()
            &&& forall|k: int| 0 <= k < st.0.len() ==> r.0[k] == #[trigger] st.0[k]
            &&& in_set.contains(id) ==> r.0.contains(id)
        }),
    decreases fuel, 0nat, 0nat,
{
    if fuel == 0 || st.1.contains(id) || !in_set.contains(id) || st.2.contains(id) {
        if in_set.contains(id) && st.2.contains(id) {
            let k = choose|k: int| 0 <= k < st.2.len() && st.2[k] == id;
            assert(rank(st.2[k]) > rank(id));
        }
    } else {
        let deps = deps_of(nodes, id);
        let st1 = (st.0, st.1, st.2.push(id));
        assert forall|i: int| 0 <= i < deps.len() && in_set.contains(#[trigger] deps[i]) implies (fuel - 1) as nat > rank(
            deps[i],
        ) && forall|k: int| 0 <= k < st1.2.len() ==> rank(#[trigger] st1.2[k]) > rank(deps[i]) by {
            assert(deps.contains(deps[i]));
            assert(rank(deps[i]) < rank(id));
            assert forall|k: int| 0 <= k < st1.2.len() implies rank(#[trigger] st1.2[k]) > rank(deps[i]) by {
                if k < st.2.len() {
                    assert(st1.2[k] == st.2[k]);
                }
            }
        }
        lemma_dfs_seq(nodes, in_set, rank, deps, st1, (fuel - 1) as nat);
        let s1 = dfs_seq(nodes, in_set, deps, st1, (fuel - 1) as nat);
        assert(!st.2.contains(id));
        lemma_remove_absent(st.2, id);
        assert(remove_all(st.2.push(id), id) == remove_all(st.2, id)) by {
            assert(st.2.push(id).drop_last() =~= st.2);
        }
        let r = dfs_visit(nodes, in_set, id, st, fuel);
        assert(r.0 == s1.0.push(id));
        assert(r.0[s1.0.len() as int] == id);
        assert forall|i: int, d: NodeId|
            0 <= i < r.0.len() && #[trigger] deps_of(nodes, r.0[i]).contains(d) && in_set.contains(d) implies exists|j: int|
                0 <= j < i && r.0[j] == d by {
            if i < s1.0.len() {
                assert(r.0[i] == s1.0[i]);
                let j = choose|j: int| 0 <= j < i && s1.0[j] == d;
                assert(r.0[j] == d);
            } else {
                assert(r.0[i] == id);
                let q = choose|q: int| 0 <= q < deps.len() && deps[q] == d;
                assert(s1.0.contains(deps[q]));
                let j = choose|j: int| 0 <= j < s1.0.len() && s1.0[j] == d;
                assert(r.0[j] == d);
            }
        }
    }
}

proof fn lemma_dfs_seq(
    nodes: Seq<Node>,
    in_set: Seq<NodeId>,
    rank: spec_fn(NodeId) -> nat,
    ids: Seq<NodeId>,
    st: (Seq<NodeId>, Seq<NodeId>, Seq<NodeId>),
    fuel: nat,
)
    requires
        ranked(nodes, in_set, rank),
        st.0 == st.1,
        operands_first(nodes, in_set, st.0),
        forall|i: int|
            0 <= i < ids.len() && in_set.contains(#[trigger] ids[i]) ==> fuel > rank(ids[i]) && forall|k: int|
                0 <= k < st.2.len() ==> rank(#[trigger] st.2[k]) > rank(ids[i]),
    ensures
        ({
            let r = dfs_seq(nodes, in_set, ids, st, fuel);
            &&& r.0 == r.1
            &&& operands_first(nodes, in_set, r.0)
            &&& r.2 == st.2
            &&& st.0.len() <= r.0.len()
            &&& forall|k: int| 0 <= k < st.0.len() ==> r.0[k] == #[trigger] st.0[k]
            &&& forall|i: int| 0 <= i < ids.len() && in_set.contains(#[trigger] ids[i]) ==> r.0.contains(ids[i])
        }),
    decreases fuel, 1nat, ids.len(),
{
    if ids.len() > 0 {
        lemma_dfs_visit(nodes, in_set, rank, ids[0], st, fuel);
        let st2 = dfs_visit(nodes, in_set, ids[0], st, fuel);
        let rest = ids.drop_first();
        assert forall|i: int| 0 <= i < rest.len() && in_set.contains(#[trigger] rest[i]) implies fuel > rank(rest[i])
            && forall|k: int| 0 <= k < st2.2.len() ==> rank(#[trigger] st2.2[k]) > rank(rest[i]) by {
            assert(rest[i] == ids[i + 1]);
        }
        lemma_dfs_seq(nodes, in_set, rank, rest, st2, fuel);
        let r = dfs_seq(nodes, in_set, ids, st, fuel);
        assert forall|i: int| 0 <= i < ids.len() && in_set.contains(#[trigger] ids[i]) implies r.0.contains(ids[i]) by {
            if i == 0 {
                let j = choose|j: int| 0 <= j < st2.0.len() && st2.0[j] == ids[0];
                assert(r.0[j] == ids[0]);
            } else {
                assert(rest[i - 1] == ids[i]);
            }
        }
    }
}

/// The emission order puts each node after its operands: when the dataflow
/// graph within `in_set` is acyclic (ranked), every node of
/// `topo_spec(nodes, seeds, in_set)` comes after each of its operands that
/// `in_set` holds, and every seed in `in_set` is emitted. So a statement
/// `v<id> = ...` never reads a `v<operand>` declared after it.
pub proof fn law_operands_emitted_first(
    nodes: Seq<Node>,
    seeds: Seq<NodeId>,
    in_set: Seq<NodeId>,
    rank: spec_fn(NodeId) -> nat,
)
    requires
        ranked(nodes, in_set, rank),
    ensures
        operands_first(nodes, in_set, topo_spec(nodes, seeds, in_set)),
        forall|i: int| 0 <= i < seeds.len() && in_set.contains(#[trigger] seeds[i]) ==> topo_spec(nodes, seeds, in_set).contains(seeds[i]),
{
    let st = (Seq::<NodeId>::empty(), Seq::<NodeId>::empty(), Seq::<NodeId>::empty());
    lemma_dfs_seq(nodes, in_set, rank, seeds, st, in_set.len() + 1);
}

} // verus!
