//! Graph queries over a function's dataflow: operands, users, leaves,
//! reachability, transitive inputs and a topological node order.
//!
//! `dataflow_inputs` gives only true dataflow edges (operands): a loop's
//! body and outputs are containment, not dataflow.
use vstd::prelude::*;
use crate::ir::{NodeId, NodeKind, Node, Function, position_of, kind_of, find_node, lemma_position_of};

verus! {

/// The dataflow operands of a node kind, in order.
#[verifier::opaque]
pub open spec fn spec_dataflow_inputs(kind: NodeKind) -> Seq<NodeId> {
    match kind {
        NodeKind::Constant(_) => Seq::empty(),
        NodeKind::Parameter { .. } => Seq::empty(),
        NodeKind::Add { lhs, rhs } => seq![lhs, rhs],
        NodeKind::Sub { lhs, rhs } => seq![lhs, rhs],
        NodeKind::Mul { lhs, rhs } => seq![lhs, rhs],
        NodeKind::Div { lhs, rhs } => seq![lhs, rhs],
        NodeKind::Rem { lhs, rhs } => seq![lhs, rhs],
        NodeKind::And { lhs, rhs } => seq![lhs, rhs],
        NodeKind::Or { lhs, rhs } => seq![lhs, rhs],
        NodeKind::Xor { lhs, rhs } => seq![lhs, rhs],
        NodeKind::Shl { lhs, rhs } => seq![lhs, rhs],
        NodeKind::Shr { lhs, rhs } => seq![lhs, rhs],
        NodeKind::Rol { lhs, rhs } => seq![lhs, rhs],
        NodeKind::Ror { lhs, rhs } => seq![lhs, rhs],
        NodeKind::Eq { lhs, rhs } => seq![lhs, rhs],
        NodeKind::Ne { lhs, rhs } => seq![lhs, rhs],
        NodeKind::Lt { lhs, rhs } => seq![lhs, rhs],
        NodeKind::Le { lhs, rhs } => seq![lhs, rhs],
        NodeKind::Gt { lhs, rhs } => seq![lhs, rhs],
        NodeKind::Ge { lhs, rhs } => seq![lhs, rhs],
        NodeKind::BoolAnd { lhs, rhs } => seq![lhs, rhs],
        NodeKind::BoolOr { lhs, rhs } => seq![lhs, rhs],
        NodeKind::Neg { operand } => seq![operand],
        NodeKind::Not { operand } => seq![operand],
        NodeKind::Popcount { operand } => seq![operand],
        NodeKind::LeadingZeros { operand } => seq![operand],
        NodeKind::TrailingZeros { operand } => seq![operand],
        NodeKind::BoolNot { operand } => seq![operand],
        NodeKind::Pack { array } => seq![array],
        NodeKind::Select { cond, true_val, false_val } => seq![cond, true_val, false_val],
        NodeKind::Load { ptr } => seq![ptr],
        NodeKind::Store { ptr, value } => seq![ptr, value],
        NodeKind::Allocate { count, .. } => seq![count],
        NodeKind::Deallocate { ptr } => seq![ptr],
        NodeKind::FieldAccess { base, .. } => seq![base],
        NodeKind::ArrayAccess { base, index } => seq![base, index],
        NodeKind::Call { callee, args } => seq![callee] + args@,
        NodeKind::Intrinsic { args, .. } => args@,
        NodeKind::ExternalCall { args, .. } => args@,
        NodeKind::Loop { termination, carried_inputs, .. } => seq![termination] + carried_inputs@,
        NodeKind::Iterator { collection } => seq![collection],
        NodeKind::ArrayCmpMask { array, scalar, .. } => seq![array, scalar],
        NodeKind::Convert { operand, .. } => seq![operand],
        NodeKind::TupleExtract { tuple, .. } => seq![tuple],
        NodeKind::Return { value } => seq![value],
    }
}

fn copy_ids(v: &Vec<NodeId>) -> (r: Vec<NodeId>)
    ensures
        r@ == v@,
{
    let mut r: Vec<NodeId> = Vec::new();
    append_ids(&mut r, v);
    assert(r@ =~= v@);
    r
}

pub(crate) fn append_ids(r: &mut Vec<NodeId>, v: &Vec<NodeId>)
    ensures
        final(r)@ == old(r)@ + v@,
{
    let mut i: usize = 0;
    while i < v.len()
        invariant
            i <= v@.len(),
            r@ == old(r)@ + v@.subrange(0, i as int),
        decreases v@.len() - i,
    {
        r.push(v[i]);
        i += 1;
        assert(r@ =~= old(r)@ + v@.subrange(0, i as int));
    }
    assert(v@.subrange(0, v@.len() as int) =~= v@);
}

/// Returns only the dataflow input node ids of a node kind: operands,
/// conditions, pointers, indices and call arguments; of a loop, only its
/// termination condition and carried inputs.
pub fn dataflow_inputs(kind: &NodeKind) -> (v: Vec<NodeId>)
    ensures
        v@ == spec_dataflow_inputs(*kind),
{
    reveal(spec_dataflow_inputs);
    match kind {
        NodeKind::Constant(_) => Vec::new(),
        NodeKind::Parameter { .. } => Vec::new(),
        NodeKind::Add { lhs, rhs } => vec![*lhs, *rhs],
        NodeKind::Sub { lhs, rhs } => vec![*lhs, *rhs],
        NodeKind::Mul { lhs, rhs } => vec![*lhs, *rhs],
        NodeKind::Div { lhs, rhs } => vec![*lhs, *rhs],
        NodeKind::Rem { lhs, rhs } => vec![*lhs, *rhs],
        NodeKind::And { lhs, rhs } => vec![*lhs, *rhs],
        NodeKind::Or { lhs, rhs } => vec![*lhs, *rhs],
        NodeKind::Xor { lhs, rhs } => vec![*lhs, *rhs],
        NodeKind::Shl { lhs, rhs } => vec![*lhs, *rhs],
        NodeKind::Shr { lhs, rhs } => vec![*lhs, *rhs],
        NodeKind::Rol { lhs, rhs } => vec![*lhs, *rhs],
        NodeKind::Ror { lhs, rhs } => vec![*lhs, *rhs],
        NodeKind::Eq { lhs, rhs } => vec![*lhs, *rhs],
        NodeKind::Ne { lhs, rhs } => vec![*lhs, *rhs],
        NodeKind::Lt { lhs, rhs } => vec![*lhs, *rhs],
        NodeKind::Le { lhs, rhs } => vec![*lhs, *rhs],
        NodeKind::Gt { lhs, rhs } => vec![*lhs, *rhs],
        NodeKind::Ge { lhs, rhs } => vec![*lhs, *rhs],
        NodeKind::BoolAnd { lhs, rhs } => vec![*lhs, *rhs],
        NodeKind::BoolOr { lhs, rhs } => vec![*lhs, *rhs],
        NodeKind::Neg { operand } => vec![*operand],
        NodeKind::Not { operand } => vec![*operand],
        NodeKind::Popcount { operand } => vec![*operand],
        NodeKind::LeadingZeros { operand } => vec![*operand],
        NodeKind::TrailingZeros { operand } => vec![*operand],
        NodeKind::BoolNot { operand } => vec![*operand],
        NodeKind::Pack { array } => vec![*array],
        NodeKind::Select { cond, true_val, false_val } => vec![*cond, *true_val, *false_val],
        NodeKind::Load { ptr } => vec![*ptr],
        NodeKind::Store { ptr, value } => vec![*ptr, *value],
        NodeKind::Allocate { count, .. } => vec![*count],
        NodeKind::Deallocate { ptr } => vec![*ptr],
        NodeKind::FieldAccess { base, .. } => vec![*base],
        NodeKind::ArrayAccess { base, index } => vec![*base, *index],
        NodeKind::Call { callee, args } => {
            let mut v = vec![*callee];
            append_ids(&mut v, args);
            v
        },
        NodeKind::Intrinsic { args, .. } => copy_ids(args),
        NodeKind::ExternalCall { args, .. } => copy_ids(args),
        NodeKind::Loop { termination, carried_inputs, .. } => {
            let mut v = vec![*termination];
            append_ids(&mut v, carried_inputs);
            v
        },
        NodeKind::Iterator { collection } => vec![*collection],
        NodeKind::ArrayCmpMask { array, scalar, .. } => vec![*array, *scalar],
        NodeKind::Convert { operand, .. } => vec![*operand],
        NodeKind::TupleExtract { tuple, .. } => vec![*tuple],
        NodeKind::Return { value } => vec![*value],
    }
}

} // verus!

verus! {

/// The dataflow operands of node `id` (none if the arena lacks it).
pub open spec fn inputs_of(nodes: Seq<Node>, id: NodeId) -> Seq<NodeId> {
    match kind_of(nodes, id) {
        Some(k) => spec_dataflow_inputs(k),
        None => Seq::empty(),
    }
}

/// Whether `p` follows dataflow edges: each node's successor in `p` is one
/// of its operands.
pub open spec fn is_path(nodes: Seq<Node>, p: Seq<NodeId>) -> bool {
    p.len() >= 1 && forall|i: int| 0 <= i < p.len() - 1 ==> inputs_of(nodes, #[trigger] p[i]).contains(p[i + 1])
}

/// Whether `to` is reached from `from` by following operands (in zero or
/// more steps).
pub open spec fn reaches(nodes: Seq<Node>, from: NodeId, to: NodeId) -> bool {
    exists|p: Seq<NodeId>| #[trigger] is_path(nodes, p) && p[0] == from && p.last() == to
}

/// Whether `to` is reached from `from` by following operands in one or
/// more steps.
pub open spec fn reaches_strictly(nodes: Seq<Node>, from: NodeId, to: NodeId) -> bool {
    exists|p: Seq<NodeId>| #[trigger] is_path(nodes, p) && p.len() >= 2 && p[0] == from && p.last() == to
}

pub open spec fn ids_of(nodes: Seq<Node>) -> Seq<NodeId> {
    nodes.map_values(|n: Node| n.id)
}

/// Return all node ids of a function, in arena order.
pub fn all_node_ids(func: &Function) -> (ids: Vec<NodeId>)
    ensures
        ids@ == ids_of(func.arena@),
{
    let mut ids: Vec<NodeId> = Vec::new();
    let mut i: usize = 0;
    while i < func.arena.len()
        invariant
            i <= func.arena@.len(),
            ids@ == ids_of(func.arena@).subrange(0, i as int),
        decreases func.arena@.len() - i,
    {
        ids.push(func.arena[i].id);
        i += 1;
        assert(ids@ =~= ids_of(func.arena@).subrange(0, i as int));
    }
    assert(ids_of(func.arena@).subrange(0, func.arena@.len() as int) =~= ids_of(func.arena@));
    ids
}

/// The nodes among `nodes` that use `x` as a dataflow operand, in order.
pub open spec fn users_in(nodes: Seq<Node>, x: NodeId) -> Seq<NodeId>
    decreases nodes.len(),
{
    if nodes.len() == 0 {
        Seq::empty()
    } else if spec_dataflow_inputs(nodes.last().kind).contains(x) {
        users_in(nodes.drop_last(), x).push(nodes.last().id)
    } else {
        users_in(nodes.drop_last(), x)
    }
}

fn contains_id(v: &Vec<NodeId>, x: NodeId) -> (b: bool)
    ensures
        b == v@.contains(x),
{
    let mut i: usize = 0;
    while i < v.len()
        invariant
            i <= v@.len(),
            forall|k: int| 0 <= k < i ==> v@[k] != x,
        decreases v@.len() - i,
    {
        if v[i] == x {
            return true;
        }
        i += 1;
    }
    false
}

/// Finds all users of a node's result (nodes using it as a dataflow
/// operand), in arena order.
pub fn users(node_id: NodeId, arena: &Vec<Node>) -> (result: Vec<NodeId>)
    ensures
        result@ == users_in(arena@, node_id),
{
    let mut result: Vec<NodeId> = Vec::new();
    let mut i: usize = 0;
    assert(arena@.subrange(0, 0) =~= Seq::<Node>::empty());
    while i < arena.len()
        invariant
            i <= arena@.len(),
            result@ == users_in(arena@.subrange(0, i as int), node_id),
        decreases arena@.len() - i,
    {
        let ghost pre = arena@.subrange(0, i as int + 1);
        assert(pre.drop_last() =~= arena@.subrange(0, i as int));
        let ins = dataflow_inputs(&arena[i].kind);
        if contains_id(&ins, node_id) {
            result.push(arena[i].id);
        }
        i += 1;
    }
    assert(arena@.subrange(0, arena@.len() as int) =~= arena@);
    result
}

/// Whether a node kind is a leaf (has no dataflow inputs).
pub fn is_leaf(kind: &NodeKind) -> (b: bool)
    ensures
        b == (spec_dataflow_inputs(*kind).len() == 0),
{
    dataflow_inputs(kind).len() == 0
}

/// Whether a node kind is a return.
pub fn is_return(kind: &NodeKind) -> (b: bool)
    ensures
        b == (*kind is Return),
{
    match kind {
        NodeKind::Return { .. } => true,
        _ => false,
    }
}

/// The leaf nodes (constants and parameters) among `nodes`, in order.
pub open spec fn leaves_in(nodes: Seq<Node>) -> Seq<NodeId>
    decreases nodes.len(),
{
    if nodes.len() == 0 {
        Seq::empty()
    } else if spec_dataflow_inputs(nodes.last().kind).len() == 0 {
        leaves_in(nodes.drop_last()).push(nodes.last().id)
    } else {
        leaves_in(nodes.drop_last())
    }
}

/// Return all leaf nodes (no dataflow inputs) of the function, in arena
/// order.
pub fn leaf_nodes(func: &Function) -> (r: Vec<NodeId>)
    ensures
        r@ == leaves_in(func.arena@),
{
    let mut r: Vec<NodeId> = Vec::new();
    let mut i: usize = 0;
    assert(func.arena@.subrange(0, 0) =~= Seq::<Node>::empty());
    while i < func.arena.len()
        invariant
            i <= func.arena@.len(),
            r@ == leaves_in(func.arena@.subrange(0, i as int)),
        decreases func.arena@.len() - i,
    {
        let ghost pre = func.arena@.subrange(0, i as int + 1);
        assert(pre.drop_last() =~= func.arena@.subrange(0, i as int));
        if is_leaf(&func.arena[i].kind) {
            r.push(func.arena[i].id);
        }
        i += 1;
    }
    assert(func.arena@.subrange(0, func.arena@.len() as int) =~= func.arena@);
    r
}

pub open spec fn pred_entries(v: Seq<(NodeId, Vec<NodeId>)>) -> Seq<(NodeId, Seq<NodeId>)> {
    v.map_values(|e: (NodeId, Vec<NodeId>)| (e.0, e.1@))
}

/// Each node of the function with its immediate dataflow predecessors
/// (its operands), in arena order.
pub fn predecessor_map(func: &Function) -> (map: Vec<(NodeId, Vec<NodeId>)>)
    ensures
        pred_entries(map@) == func.arena@.map_values(|n: Node| (n.id, spec_dataflow_inputs(n.kind))),
{
    let ghost want = func.arena@.map_values(|n: Node| (n.id, spec_dataflow_inputs(n.kind)));
    let mut map: Vec<(NodeId, Vec<NodeId>)> = Vec::new();
    let mut i: usize = 0;
    while i < func.arena.len()
        invariant
            i <= func.arena@.len(),
            want == func.arena@.map_values(|n: Node| (n.id, spec_dataflow_inputs(n.kind))),
            pred_entries(map@) == want.subrange(0, i as int),
        decreases func.arena@.len() - i,
    {
        let ins = dataflow_inputs(&func.arena[i].kind);
        let ghost old_map = map@;
        map.push((func.arena[i].id, ins));
        assert(pred_entries(map@) =~= pred_entries(old_map).push(want[i as int]));
        i += 1;
        assert(pred_entries(map@) =~= want.subrange(0, i as int));
    }
    assert(want.subrange(0, func.arena@.len() as int) =~= want);
    map
}

} // verus!

verus! {

// ── Reachability ────────────────────────────────────────────────────────

/// Distinct positions below `n` number at most `n`.
pub proof fn lemma_distinct_below(s: Seq<usize>, n: nat)
    requires
        forall|i: int| 0 <= i < s.len() ==> #[trigger] s[i] < n,
        forall|i: int, j: int| 0 <= i < j < s.len() ==> s[i] != s[j],
    ensures
        s.len() <= n,
    decreases n,
{
    if n == 0 {
        if s.len() > 0 {
            assert(s[0] < n);
        }
    } else if exists|i: int| 0 <= i < s.len() && s[i] == n - 1 {
        let i = choose|i: int| 0 <= i < s.len() && s[i] == n - 1;
        let t = s.subrange(0, i) + s.subrange(i + 1, s.len() as int);
        assert forall|a: int| 0 <= a < t.len() implies #[trigger] t[a] < (n - 1) as nat by {
            if a < i {
                assert(t[a] == s[a]);
            } else {
                assert(t[a] == s[a + 1]);
            }
        }
        assert forall|a: int, b: int| 0 <= a < b < t.len() implies t[a] != t[b] by {
            let sa = if a < i { a } else { a + 1 };
            let sb = if b < i { b } else { b + 1 };
            assert(t[a] == s[sa]);
            assert(t[b] == s[sb]);
        }
        lemma_distinct_below(t, (n - 1) as nat);
    } else {
        assert forall|a: int| 0 <= a < s.len() implies #[trigger] s[a] < (n - 1) as nat by {
            assert(s[a] != n - 1);
        }
        lemma_distinct_below(s, (n - 1) as nat);
    }
}

/// The operands of a node found at its own position are those of its kind.
proof fn lemma_inputs_at(nodes: Seq<Node>, q: int)
    requires
        0 <= q < nodes.len(),
        position_of(nodes, nodes[q].id, 0) == Some(q),
    ensures
        inputs_of(nodes, nodes[q].id) == spec_dataflow_inputs(nodes[q].kind),
{
}

/// A path extended by an operand of its last node is a path.
proof fn lemma_path_push(nodes: Seq<Node>, p: Seq<NodeId>, w: NodeId)
    requires
        is_path(nodes, p),
        inputs_of(nodes, p.last()).contains(w),
    ensures
        is_path(nodes, p.push(w)),
        p.push(w)[0] == p[0],
        p.push(w).last() == w,
{
    let q = p.push(w);
    assert forall|i: int| 0 <= i < q.len() - 1 implies inputs_of(nodes, #[trigger] q[i]).contains(q[i + 1]) by {
        if i < p.len() - 1 {
            assert(q[i] == p[i] && q[i + 1] == p[i + 1]);
        } else {
            assert(q[i] == p.last());
        }
    }
}

/// Following an operand of a node reached from `from` reaches more.
pub proof fn lemma_reaches_step(nodes: Seq<Node>, from: NodeId, x: NodeId, w: NodeId)
    requires
        reaches(nodes, from, x),
        inputs_of(nodes, x).contains(w),
    ensures
        reaches(nodes, from, w),
        reaches_strictly(nodes, from, w),
{
    let p = choose|p: Seq<NodeId>| #[trigger] is_path(nodes, p) && p[0] == from && p.last() == x;
    lemma_path_push(nodes, p, w);
    assert(is_path(nodes, p.push(w)));
}

/// Whether the positions `seen` hold every node reached from the nodes
/// processed so far, none of which is `to`.
pub open spec fn closed_search(nodes: Seq<Node>, to: NodeId, seen: Seq<bool>, queue: Seq<usize>, head: int) -> bool {
    &&& forall|k: int| 0 <= k < head ==> #[trigger] queue[k] < nodes.len()
    &&& forall|k: int, j: int|
        0 <= k < head && 0 <= j < spec_dataflow_inputs(nodes[queue[k] as int].kind).len() ==> (#[trigger] spec_dataflow_inputs(
            nodes[queue[k] as int].kind,
        )[j] != to && (position_of(nodes, spec_dataflow_inputs(nodes[queue[k] as int].kind)[j], 0) matches Some(
            p,
        ) ==> 0 <= p < seen.len() && seen[p]))
}

proof fn lemma_path_stays(
    nodes: Seq<Node>,
    from: NodeId,
    to: NodeId,
    seen: Seq<bool>,
    queue: Seq<usize>,
    p: Seq<NodeId>,
    i: int,
)
    requires
        is_path(nodes, p),
        p[0] == from,
        0 <= i < p.len(),
        from != to,
        position_of(nodes, from, 0) matches Some(s) && 0 <= s < seen.len() && seen[s],
        closed_search(nodes, to, seen, queue, queue.len() as int),
        forall|q: int| 0 <= q < seen.len() && seen[q] ==> queue.contains(q as usize),
        forall|k: int|
            0 <= k < queue.len() ==> position_of(nodes, nodes[#[trigger] queue[k] as int].id, 0) == Some(
                queue[k] as int,
            ),
        seen.len() == nodes.len(),
        nodes.len() <= usize::MAX,
    ensures
        p[i] != to,
        position_of(nodes, p[i], 0) matches Some(q) ==> 0 <= q < seen.len() && seen[q],
    decreases i,
{
    if i > 0 {
        lemma_path_stays(nodes, from, to, seen, queue, p, i - 1);
        let x = p[i - 1];
        assert(inputs_of(nodes, p[i - 1]).contains(p[i]));
        lemma_position_of(nodes, x, 0);
        match position_of(nodes, x, 0) {
            Some(q) => {
                assert(queue.contains(q as usize));
                let k = choose|k: int| 0 <= k < queue.len() && queue[k] == q as usize;
                assert(queue[k] as int == q);
                assert(nodes[q].id == x);
                assert(inputs_of(nodes, x) == spec_dataflow_inputs(nodes[queue[k] as int].kind));
                let j = choose|j: int| 0 <= j < inputs_of(nodes, x).len() && inputs_of(nodes, x)[j] == p[i];
                assert(spec_dataflow_inputs(nodes[queue[k] as int].kind)[j] == p[i]);
            },
            None => {
                assert(inputs_of(nodes, x).len() == 0);
            },
        }
    }
}

/// Whether `to` is reachable from `from` by following dataflow operands
/// (a node reaches itself).
pub fn reachable(from: NodeId, to: NodeId, arena: &Vec<Node>) -> (b: bool)
    ensures
        b == reaches(arena@, from, to),
{
    let ghost nodes = arena@;
    if from == to {
        proof {
            assert(is_path(nodes, seq![from]));
        }
        return true;
    }
    let start = match find_node(arena, from) {
        Some(k) => k,
        None => {
            proof {
                assert forall|p: Seq<NodeId>| #[trigger] is_path(nodes, p) && p[0] == from implies p.last()
                    != to by {
                    if p.len() >= 2 {
                        assert(inputs_of(nodes, p[0]).contains(p[1]));
                    }
                }
            }
            return false;
        },
    };
    let n = arena.len();
    let mut seen: Vec<bool> = Vec::new();
    let mut z: usize = 0;
    while z < n
        invariant
            z <= n,
            seen@.len() == z,
            forall|q: int| 0 <= q < z ==> !seen@[q],
        decreases n - z,
    {
        seen.push(false);
        z += 1;
    }
    let ghost blank = seen@;
    seen.set(start, true);
    let mut queue: Vec<usize> = Vec::new();
    queue.push(start);
    let mut head: usize = 0;
    proof {
        assert forall|r: int| 0 <= r < n && seen@[r] implies queue@.contains(r as usize) by {
            if r != start {
                assert(!blank[r]);
            } else {
                assert(queue@[0] == start);
            }
        }
        assert(is_path(nodes, seq![from]));
        assert(reaches(nodes, from, nodes[start as int].id));
    }
    while head < queue.len()
        invariant
            nodes == arena@,
            n == nodes.len(),
            seen@.len() == n,
            from != to,
            position_of(nodes, from, 0) == Some(start as int),
            start < n,
            seen@[start as int],
            head <= queue@.len(),
            queue@.len() <= n,
            forall|k: int| 0 <= k < queue@.len() ==> #[trigger] queue@[k] < n,
            forall|k: int| 0 <= k < queue@.len() ==> seen@[#[trigger] queue@[k] as int],
            forall|k: int|
                0 <= k < queue@.len() ==> position_of(nodes, nodes[#[trigger] queue@[k] as int].id, 0) == Some(
                    queue@[k] as int,
                ),
            forall|k: int| 0 <= k < queue@.len() ==> reaches(nodes, from, nodes[#[trigger] queue@[k] as int].id),
            forall|q: int| 0 <= q < n && seen@[q] ==> queue@.contains(q as usize),
            forall|a: int, b: int| 0 <= a < b < queue@.len() ==> queue@[a] != queue@[b],
            closed_search(nodes, to, seen@, queue@, head as int),
        decreases n - head,
    {
        let q = queue[head];
        let ins = dataflow_inputs(&arena[q].kind);
        proof {
            lemma_inputs_at(nodes, q as int);
        }
        let mut j: usize = 0;
        while j < ins.len()
            invariant
                nodes == arena@,
                n == nodes.len(),
                seen@.len() == n,
                from != to,
                position_of(nodes, from, 0) == Some(start as int),
                start < n,
                seen@[start as int],
                head < queue@.len(),
                queue@.len() <= n,
                q == queue@[head as int],
                ins@ == spec_dataflow_inputs(nodes[q as int].kind),
                inputs_of(nodes, nodes[q as int].id) == ins@,
                j <= ins@.len(),
                forall|k: int| 0 <= k < queue@.len() ==> #[trigger] queue@[k] < n,
                forall|k: int| 0 <= k < queue@.len() ==> seen@[#[trigger] queue@[k] as int],
                forall|k: int|
                    0 <= k < queue@.len() ==> position_of(nodes, nodes[#[trigger] queue@[k] as int].id, 0) == Some(
                        queue@[k] as int,
                    ),
                forall|k: int| 0 <= k < queue@.len() ==> reaches(nodes, from, nodes[#[trigger] queue@[k] as int].id),
                forall|r: int| 0 <= r < n && seen@[r] ==> queue@.contains(r as usize),
                forall|a: int, b: int| 0 <= a < b < queue@.len() ==> queue@[a] != queue@[b],
                closed_search(nodes, to, seen@, queue@, head as int),
                forall|jj: int|
                    0 <= jj < j ==> (#[trigger] ins@[jj] != to && (position_of(nodes, ins@[jj], 0) matches Some(
                        p,
                    ) ==> 0 <= p < n && seen@[p])),
            decreases ins@.len() - j,
        {
            let w = ins[j];
            if w == to {
                proof {
                    assert(reaches(nodes, from, nodes[queue@[head as int] as int].id));
                    assert(inputs_of(nodes, nodes[q as int].id).contains(w));
                    lemma_reaches_step(nodes, from, nodes[q as int].id, w);
                }
                return true;
            }
            match find_node(arena, w) {
                Some(p) => {
                    if !seen[p] {
                        let ghost old_queue = queue@;
                        let ghost old_seen = seen@;
                        seen.set(p, true);
                        queue.push(p);
                        proof {
                            assert(reaches(nodes, from, nodes[queue@[head as int] as int].id));
                            assert(inputs_of(nodes, nodes[q as int].id).contains(w));
                            lemma_reaches_step(nodes, from, nodes[q as int].id, w);
                            assert(nodes[p as int].id == w);
                            assert forall|k: int| 0 <= k < queue@.len() implies reaches(
                                nodes,
                                from,
                                nodes[#[trigger] queue@[k] as int].id,
                            ) by {
                                if k < old_queue.len() {
                                    assert(queue@[k] == old_queue[k]);
                                }
                            }
                            assert forall|r: int| 0 <= r < n && seen@[r] implies queue@.contains(r as usize) by {
                                if r != p {
                                    assert(old_seen[r]);
                                    let k = choose|k: int| 0 <= k < old_queue.len() && old_queue[k] == r as usize;
                                    assert(queue@[k] == old_queue[k]);
                                } else {
                                    assert(queue@[old_queue.len() as int] == p);
                                }
                            }
                            assert forall|a: int, b: int| 0 <= a < b < queue@.len() implies queue@[a] != queue@[b] by {
                                if b == old_queue.len() {
                                    assert(old_seen[old_queue[a] as int]);
                                }
                            }
                            lemma_distinct_below(queue@, n as nat);
                            assert(closed_search(nodes, to, seen@, queue@, head as int)) by {
                                assert forall|k: int, jj: int|
                                    0 <= k < head && 0 <= jj < spec_dataflow_inputs(nodes[queue@[k] as int].kind).len()
                                    implies (#[trigger] spec_dataflow_inputs(nodes[queue@[k] as int].kind)[jj] != to && (
                                position_of(nodes, spec_dataflow_inputs(nodes[queue@[k] as int].kind)[jj], 0) matches Some(
                                    pp,
                                ) ==> 0 <= pp < seen@.len() && seen@[pp])) by {
                                    assert(queue@[k] == old_queue[k]);
                                }
                            }
                        }
                    }
                },
                None => {},
            }
            j += 1;
        }
        head += 1;
        proof {
            assert(closed_search(nodes, to, seen@, queue@, head as int)) by {
                assert forall|k: int, jj: int|
                    0 <= k < head && 0 <= jj < spec_dataflow_inputs(nodes[queue@[k] as int].kind).len() implies (
                #[trigger] spec_dataflow_inputs(nodes[queue@[k] as int].kind)[jj] != to && (position_of(
                    nodes,
                    spec_dataflow_inputs(nodes[queue@[k] as int].kind)[jj],
                    0,
                ) matches Some(pp) ==> 0 <= pp < seen@.len() && seen@[pp])) by {
                    if k == head - 1 {
                        assert(queue@[k] == q);
                        assert(ins@[jj] == spec_dataflow_inputs(nodes[queue@[k] as int].kind)[jj]);
                    }
                }
            }
        }
    }
    proof {
        assert forall|p: Seq<NodeId>| #[trigger] is_path(nodes, p) && p[0] == from implies p.last() != to by {
            lemma_path_stays(nodes, from, to, seen@, queue@, p, p.len() - 1);
        }
    }
    false
}

} // verus!

verus! {

/// Whether the nodes processed so far have all their operands in `result`,
/// with the positions of those in the arena seen.
pub open spec fn closed_collect(nodes: Seq<Node>, result: Seq<NodeId>, seen: Seq<bool>, queue: Seq<usize>, head: int) -> bool {
    &&& forall|k: int| 0 <= k < head ==> #[trigger] queue[k] < nodes.len()
    &&& forall|k: int, j: int|
        0 <= k < head && 0 <= j < spec_dataflow_inputs(nodes[queue[k] as int].kind).len() ==> result.contains(
            #[trigger] spec_dataflow_inputs(nodes[queue[k] as int].kind)[j],
        )
}

proof fn lemma_strict_path_collected(
    nodes: Seq<Node>,
    root: NodeId,
    result: Seq<NodeId>,
    seen: Seq<bool>,
    queue: Seq<usize>,
    p: Seq<NodeId>,
    i: int,
)
    requires
        is_path(nodes, p),
        p[0] == root,
        1 <= i < p.len(),
        position_of(nodes, root, 0) matches Some(s) && queue.len() > 0 && queue[0] as int == s,
        closed_collect(nodes, result, seen, queue, queue.len() as int),
        forall|w: NodeId| result.contains(w) ==> (position_of(nodes, w, 0) matches Some(q) ==> 0 <= q < seen.len()
            && seen[q]),
        forall|q: int| 0 <= q < seen.len() && seen[q] ==> queue.contains(q as usize),
        forall|k: int|
            0 <= k < queue.len() ==> position_of(nodes, nodes[#[trigger] queue[k] as int].id, 0) == Some(
                queue[k] as int,
            ),
        seen.len() == nodes.len(),
        nodes.len() <= usize::MAX,
    ensures
        result.contains(p[i]),
    decreases i,
{
    let x = p[i - 1];
    assert(inputs_of(nodes, p[i - 1]).contains(p[i]));
    lemma_position_of(nodes, x, 0);
    let k: int = if i == 1 {
        0
    } else {
        lemma_strict_path_collected(nodes, root, result, seen, queue, p, i - 1);
        match position_of(nodes, x, 0) {
            Some(q) => {
                assert(queue.contains(q as usize));
                choose|k: int| 0 <= k < queue.len() && queue[k] == q as usize
            },
            None => {
                assert(inputs_of(nodes, x).len() == 0);
                0
            },
        }
    };
    if i == 1 || position_of(nodes, x, 0) is Some {
        assert(nodes[queue[k] as int].id == x);
        assert(inputs_of(nodes, x) == spec_dataflow_inputs(nodes[queue[k] as int].kind));
        let j = choose|j: int| 0 <= j < inputs_of(nodes, x).len() && inputs_of(nodes, x)[j] == p[i];
        assert(spec_dataflow_inputs(nodes[queue[k] as int].kind)[j] == p[i]);
    }
}

/// All nodes whose dataflow reaches `root` in one or more steps (its
/// transitive inputs), each once.
pub fn transitive_inputs(root: NodeId, arena: &Vec<Node>) -> (result: Vec<NodeId>)
    ensures
        forall|w: NodeId| result@.contains(w) <==> reaches_strictly(arena@, root, w),
        forall|a: int, b: int| 0 <= a < b < result@.len() ==> result@[a] != result@[b],
{
    let ghost nodes = arena@;
    let mut result: Vec<NodeId> = Vec::new();
    let start = match find_node(arena, root) {
        Some(k) => k,
        None => {
            proof {
                assert forall|w: NodeId| !reaches_strictly(nodes, root, w) by {
                    assert forall|p: Seq<NodeId>| #[trigger] is_path(nodes, p) && p.len() >= 2 && p[0] == root
                        implies false by {
                        assert(inputs_of(nodes, p[0]).contains(p[1]));
                    }
                }
            }
            return result;
        },
    };
    let n = arena.len();
    let mut seen: Vec<bool> = Vec::new();
    let mut z: usize = 0;
    while z < n
        invariant
            z <= n,
            seen@.len() == z,
            forall|q: int| 0 <= q < z ==> !seen@[q],
        decreases n - z,
    {
        seen.push(false);
        z += 1;
    }
    let ghost blank = seen@;
    seen.set(start, true);
    let mut queue: Vec<usize> = Vec::new();
    queue.push(start);
    let mut head: usize = 0;
    proof {
        assert forall|r: int| 0 <= r < n && seen@[r] implies queue@.contains(r as usize) by {
            if r != start {
                assert(!blank[r]);
            } else {
                assert(queue@[0] == start);
            }
        }
        assert(is_path(nodes, seq![root]));
        assert(reaches(nodes, root, nodes[start as int].id));
    }
    while head < queue.len()
        invariant
            nodes == arena@,
            n == nodes.len(),
            seen@.len() == n,
            position_of(nodes, root, 0) == Some(start as int),
            start < n,
            queue@.len() > 0,
            queue@[0] == start,
            head <= queue@.len(),
            queue@.len() <= n,
            forall|k: int| 0 <= k < queue@.len() ==> #[trigger] queue@[k] < n,
            forall|k: int| 0 <= k < queue@.len() ==> seen@[#[trigger] queue@[k] as int],
            forall|k: int|
                0 <= k < queue@.len() ==> position_of(nodes, nodes[#[trigger] queue@[k] as int].id, 0) == Some(
                    queue@[k] as int,
                ),
            forall|k: int| 0 <= k < queue@.len() ==> reaches(nodes, root, nodes[#[trigger] queue@[k] as int].id),
            forall|q: int| 0 <= q < n && seen@[q] ==> queue@.contains(q as usize),
            forall|a: int, b: int| 0 <= a < b < queue@.len() ==> queue@[a] != queue@[b],
            forall|w: NodeId| result@.contains(w) ==> reaches_strictly(nodes, root, w),
            forall|w: NodeId| result@.contains(w) ==> (position_of(nodes, w, 0) matches Some(q) ==> 0 <= q < n
                && seen@[q]),
            forall|a: int, b: int| 0 <= a < b < result@.len() ==> result@[a] != result@[b],
            closed_collect(nodes, result@, seen@, queue@, head as int),
        decreases n - head,
    {
        let q = queue[head];
        let ins = dataflow_inputs(&arena[q].kind);
        proof {
            lemma_inputs_at(nodes, q as int);
        }
        let mut j: usize = 0;
        while j < ins.len()
            invariant
                nodes == arena@,
                n == nodes.len(),
                seen@.len() == n,
                position_of(nodes, root, 0) == Some(start as int),
                start < n,
                queue@.len() > 0,
                queue@[0] == start,
                head < queue@.len(),
                queue@.len() <= n,
                q == queue@[head as int],
                ins@ == spec_dataflow_inputs(nodes[q as int].kind),
                inputs_of(nodes, nodes[q as int].id) == ins@,
                j <= ins@.len(),
                forall|k: int| 0 <= k < queue@.len() ==> #[trigger] queue@[k] < n,
                forall|k: int| 0 <= k < queue@.len() ==> seen@[#[trigger] queue@[k] as int],
                forall|k: int|
                    0 <= k < queue@.len() ==> position_of(nodes, nodes[#[trigger] queue@[k] as int].id, 0) == Some(
                        queue@[k] as int,
                    ),
                forall|k: int| 0 <= k < queue@.len() ==> reaches(nodes, root, nodes[#[trigger] queue@[k] as int].id),
                forall|r: int| 0 <= r < n && seen@[r] ==> queue@.contains(r as usize),
                forall|a: int, b: int| 0 <= a < b < queue@.len() ==> queue@[a] != queue@[b],
                forall|w: NodeId| result@.contains(w) ==> reaches_strictly(nodes, root, w),
                forall|w: NodeId| result@.contains(w) ==> (position_of(nodes, w, 0) matches Some(pp) ==> 0 <= pp < n
                    && seen@[pp]),
                forall|a: int, b: int| 0 <= a < b < result@.len() ==> result@[a] != result@[b],
                closed_collect(nodes, result@, seen@, queue@, head as int),
                forall|jj: int| 0 <= jj < j ==> result@.contains(#[trigger] ins@[jj]),
            decreases ins@.len() - j,
        {
            let w = ins[j];
            if !contains_id(&result, w) {
                let ghost old_result = result@;
                result.push(w);
                proof {
                    assert(reaches(nodes, root, nodes[queue@[head as int] as int].id));
                    assert(inputs_of(nodes, nodes[q as int].id).contains(w));
                    lemma_reaches_step(nodes, root, nodes[q as int].id, w);
                    assert forall|v: NodeId| result@.contains(v) implies reaches_strictly(nodes, root, v) by {
                        if v != w {
                            let a = choose|a: int| 0 <= a < result@.len() && result@[a] == v;
                            assert(old_result[a] == v);
                        }
                    }
                    assert forall|a: int, b: int| 0 <= a < b < result@.len() implies result@[a] != result@[b] by {
                        if b == old_result.len() {
                            assert(old_result.contains(old_result[a]));
                        }
                    }
                    assert forall|v: NodeId| old_result.contains(v) implies result@.contains(v) by {
                        let a = choose|a: int| 0 <= a < old_result.len() && old_result[a] == v;
                        assert(result@[a] == v);
                    }
                    assert(result@[old_result.len() as int] == w);
                }
                match find_node(arena, w) {
                    Some(p) => {
                        if !seen[p] {
                            let ghost old_queue = queue@;
                            let ghost old_seen = seen@;
                            seen.set(p, true);
                            queue.push(p);
                            proof {
                                assert(nodes[p as int].id == w);
                                assert(reaches(nodes, root, w));
                                assert forall|k: int| 0 <= k < queue@.len() implies reaches(
                                    nodes,
                                    root,
                                    nodes[#[trigger] queue@[k] as int].id,
                                ) by {
                                    if k < old_queue.len() {
                                        assert(queue@[k] == old_queue[k]);
                                    }
                                }
                                assert forall|r: int| 0 <= r < n && seen@[r] implies queue@.contains(r as usize) by {
                                    if r != p {
                                        assert(old_seen[r]);
                                        let k = choose|k: int| 0 <= k < old_queue.len() && old_queue[k] == r as usize;
                                        assert(queue@[k] == old_queue[k]);
                                    } else {
                                        assert(queue@[old_queue.len() as int] == p);
                                    }
                                }
                                assert forall|a: int, b: int| 0 <= a < b < queue@.len() implies queue@[a]
                                    != queue@[b] by {
                                    if b == old_queue.len() {
                                        assert(old_seen[old_queue[a] as int]);
                                    }
                                }
                                lemma_distinct_below(queue@, n as nat);
                                assert(closed_collect(nodes, result@, seen@, queue@, head as int)) by {
                                    assert forall|k: int, jj: int|
                                        0 <= k < head && 0 <= jj < spec_dataflow_inputs(nodes[queue@[k] as int].kind).len()
                                        implies result@.contains(
                                        #[trigger] spec_dataflow_inputs(nodes[queue@[k] as int].kind)[jj],
                                    ) by {
                                        assert(queue@[k] == old_queue[k]);
                                    }
                                }
                            }
                        }
                    },
                    None => {},
                }
                proof {
                    assert forall|v: NodeId| result@.contains(v) implies (position_of(nodes, v, 0) matches Some(pp)
                        ==> 0 <= pp < n && seen@[pp]) by {
                        if v != w {
                            let a = choose|a: int| 0 <= a < result@.len() && result@[a] == v;
                            assert(old_result[a] == v);
                            assert(old_result.contains(v));
                        }
                    }
                }
            }
            j += 1;
        }
        head += 1;
        proof {
            assert(closed_collect(nodes, result@, seen@, queue@, head as int)) by {
                assert forall|k: int, jj: int|
                    0 <= k < head && 0 <= jj < spec_dataflow_inputs(nodes[queue@[k] as int].kind).len() implies result@.contains(
                    #[trigger] spec_dataflow_inputs(nodes[queue@[k] as int].kind)[jj],
                ) by {
                    if k == head - 1 {
                        assert(queue@[k] == q);
                        assert(ins@[jj] == spec_dataflow_inputs(nodes[queue@[k] as int].kind)[jj]);
                    }
                }
            }
        }
    }
    proof {
        assert forall|w: NodeId| reaches_strictly(nodes, root, w) implies result@.contains(w) by {
            let p = choose|p: Seq<NodeId>| #[trigger] is_path(nodes, p) && p.len() >= 2 && p[0] == root && p.last()
                == w;
            lemma_strict_path_collected(nodes, root, result@, seen@, queue@, p, p.len() - 1);
        }
    }
    result
}

} // verus!

verus! {

// ── Topological order ───────────────────────────────────────────────────

/// `s` with `x` inserted in increasing identifier order (unchanged if an
/// equal identifier is present).
pub open spec fn insert_sorted(s: Seq<NodeId>, x: NodeId) -> Seq<NodeId>
    decreases s.len(),
{
    if s.len() == 0 {
        seq![x]
    } else if x.id < s[0].id {
        seq![x] + s
    } else if x.id == s[0].id {
        s
    } else {
        seq![s[0]] + insert_sorted(s.drop_first(), x)
    }
}

/// The distinct identifiers of the arena in increasing order.
pub open spec fn sorted_ids(nodes: Seq<Node>) -> Seq<NodeId>
    decreases nodes.len(),
{
    if nodes.len() == 0 {
        Seq::empty()
    } else {
        insert_sorted(sorted_ids(nodes.drop_last()), nodes.last().id)
    }
}

pub open spec fn strictly_increasing(s: Seq<NodeId>) -> bool {
    forall|i: int, j: int| 0 <= i < j < s.len() ==> s[i].id < s[j].id
}

/// Whether node `id` is in the arena and has no dataflow inputs.
pub open spec fn is_leaf_id(nodes: Seq<Node>, id: NodeId) -> bool {
    match kind_of(nodes, id) {
        Some(k) => spec_dataflow_inputs(k).len() == 0,
        None => false,
    }
}

/// The identifiers of `s` that are (or are not) leaves, in order.
pub open spec fn select_ids(nodes: Seq<Node>, s: Seq<NodeId>, leaf: bool) -> Seq<NodeId>
    decreases s.len(),
{
    if s.len() == 0 {
        Seq::empty()
    } else if is_leaf_id(nodes, s.last()) == leaf {
        select_ids(nodes, s.drop_last(), leaf).push(s.last())
    } else {
        select_ids(nodes, s.drop_last(), leaf)
    }
}

/// Whether node `id` is in the arena and is a `Return`.
pub open spec fn is_return_id(nodes: Seq<Node>, id: NodeId) -> bool {
    kind_of(nodes, id) matches Some(NodeKind::Return { .. })
}

/// The identifiers of `s` that are not leaves and are (or are not)
/// `Return` nodes, in order.
pub open spec fn select_inner(nodes: Seq<Node>, s: Seq<NodeId>, ret: bool) -> Seq<NodeId>
    decreases s.len(),
{
    if s.len() == 0 {
        Seq::empty()
    } else if !is_leaf_id(nodes, s.last()) && is_return_id(nodes, s.last()) == ret {
        select_inner(nodes, s.drop_last(), ret).push(s.last())
    } else {
        select_inner(nodes, s.drop_last(), ret)
    }
}

/// Whether every dataflow input of node `id` is in `placed`.
pub open spec fn ready(nodes: Seq<Node>, placed: Seq<NodeId>, id: NodeId) -> bool {
    forall|j: int| 0 <= j < inputs_of(nodes, id).len() ==> placed.contains(#[trigger] inputs_of(nodes, id)[j])
}

/// One pass over the candidates in order: each candidate not yet placed
/// whose inputs are all placed (earlier ones of this pass included) is
/// appended.
pub open spec fn pass(nodes: Seq<Node>, placed: Seq<NodeId>, cands: Seq<NodeId>) -> Seq<NodeId>
    decreases cands.len(),
{
    if cands.len() == 0 {
        placed
    } else {
        let p = pass(nodes, placed, cands.drop_last());
        let c = cands.last();
        if !p.contains(c) && ready(nodes, p, c) {
            p.push(c)
        } else {
            p
        }
    }
}

/// At most `k` passes, stopping at the first that places nothing.
pub open spec fn passes(nodes: Seq<Node>, placed: Seq<NodeId>, cands: Seq<NodeId>, k: nat) -> Seq<NodeId>
    decreases k,
{
    if k == 0 {
        placed
    } else {
        let p = pass(nodes, placed, cands);
        if p.len() == placed.len() {
            placed
        } else {
            passes(nodes, p, cands, (k - 1) as nat)
        }
    }
}

/// The elements of `s` not in `placed`, in order.
pub open spec fn unplaced(placed: Seq<NodeId>, s: Seq<NodeId>) -> Seq<NodeId>
    decreases s.len(),
{
    if s.len() == 0 {
        Seq::empty()
    } else if placed.contains(s.last()) {
        unplaced(placed, s.drop_last())
    } else {
        unplaced(placed, s.drop_last()).push(s.last())
    }
}

/// The leaves by increasing identifier, then the nodes that are neither
/// leaves nor `Return` nodes in dataflow order, then the `Return` nodes.
/// The dataflow part is built in passes over those nodes by increasing
/// identifier, each pass placing the nodes whose operands are all placed;
/// nodes no pass places (only where the dataflow has a cycle or an operand
/// missing from the arena) follow by increasing identifier.
pub open spec fn spec_topological_sort(nodes: Seq<Node>) -> Seq<NodeId> {
    let s = sorted_ids(nodes);
    let inner = select_inner(nodes, s, false);
    let p = passes(nodes, select_ids(nodes, s, true), inner, inner.len() as nat);
    p + unplaced(p, inner) + select_inner(nodes, s, true)
}

proof fn lemma_insert_sorted_members(s: Seq<NodeId>, x: NodeId)
    ensures
        forall|y: NodeId| #[trigger] insert_sorted(s, x).contains(y) <==> (s.contains(y) || y == x),
    decreases s.len(),
{
    let r = insert_sorted(s, x);
    if s.len() == 0 {
        assert(r[0] == x);
        assert forall|y: NodeId| r.contains(y) <==> (s.contains(y) || y == x) by {
            if r.contains(y) {
                let i = choose|i: int| 0 <= i < r.len() && r[i] == y;
                assert(i == 0);
            }
        }
    } else if x.id < s[0].id {
        assert forall|y: NodeId| r.contains(y) <==> (s.contains(y) || y == x) by {
            if r.contains(y) {
                let i = choose|i: int| 0 <= i < r.len() && r[i] == y;
                if i > 0 {
                    assert(s[i - 1] == y);
                }
            }
            if s.contains(y) {
                let i = choose|i: int| 0 <= i < s.len() && s[i] == y;
                assert(r[i + 1] == y);
            }
            if y == x {
                assert(r[0] == y);
            }
        }
    } else if x.id == s[0].id {
        assert(s[0] == x);
    } else {
        let t = s.drop_first();
        lemma_insert_sorted_members(t, x);
        let rt = insert_sorted(t, x);
        assert(r == seq![s[0]] + rt);
        assert forall|y: NodeId| r.contains(y) <==> (s.contains(y) || y == x) by {
            if r.contains(y) {
                let i = choose|i: int| 0 <= i < r.len() && r[i] == y;
                if i > 0 {
                    assert(rt[i - 1] == y);
                    assert(rt.contains(y));
                    if t.contains(y) {
                        let a = choose|a: int| 0 <= a < t.len() && t[a] == y;
                        assert(s[a + 1] == y);
                    }
                } else {
                    assert(s[0] == y);
                }
            }
            if s.contains(y) {
                let i = choose|i: int| 0 <= i < s.len() && s[i] == y;
                if i == 0 {
                    assert(r[0] == y);
                } else {
                    assert(t[i - 1] == y);
                    assert(t.contains(y));
                    assert(rt.contains(y));
                    let a = choose|a: int| 0 <= a < rt.len() && rt[a] == y;
                    assert(r[a + 1] == y);
                }
            }
            if y == x {
                assert(rt.contains(x));
                let a = choose|a: int| 0 <= a < rt.len() && rt[a] == x;
                assert(r[a + 1] == x);
            }
        }
    }
}

proof fn lemma_insert_sorted_shape(s: Seq<NodeId>, x: NodeId, k: int)
    requires
        strictly_increasing(s),
        0 <= k <= s.len(),
        forall|i: int| 0 <= i < k ==> (#[trigger] s[i]).id < x.id,
        k < s.len() ==> s[k].id >= x.id,
    ensures
        insert_sorted(s, x) == (if k < s.len() && s[k].id == x.id {
            s
        } else {
            s.insert(k, x)
        }),
    decreases s.len(),
{
    if s.len() == 0 {
        assert(s.insert(0, x) =~= seq![x]);
    } else if k == 0 {
        if x.id < s[0].id {
            assert(s.insert(0, x) =~= seq![x] + s);
        } else {
            assert(s[0] == x);
        }
    } else {
        let t = s.drop_first();
        assert forall|i: int| 0 <= i < k - 1 implies (#[trigger] t[i]).id < x.id by {
            assert(t[i] == s[i + 1]);
        }
        assert(s[0].id < x.id);
        lemma_insert_sorted_shape(t, x, k - 1);
        if k < s.len() && s[k].id == x.id {
            assert(seq![s[0]] + t =~= s);
        } else {
            assert(seq![s[0]] + t.insert(k - 1, x) =~= s.insert(k, x));
        }
    }
}

proof fn lemma_insert_sorted(s: Seq<NodeId>, x: NodeId, k: int)
    requires
        strictly_increasing(s),
        0 <= k <= s.len(),
        forall|i: int| 0 <= i < k ==> (#[trigger] s[i]).id < x.id,
        k < s.len() ==> s[k].id >= x.id,
    ensures
        insert_sorted(s, x) == (if k < s.len() && s[k].id == x.id {
            s
        } else {
            s.insert(k, x)
        }),
        strictly_increasing(insert_sorted(s, x)),
        forall|y: NodeId| #[trigger] insert_sorted(s, x).contains(y) <==> (s.contains(y) || y == x),
{
    lemma_insert_sorted_shape(s, x, k);
    lemma_insert_sorted_members(s, x);
    if !(k < s.len() && s[k].id == x.id) {
        let r = s.insert(k, x);
        assert forall|i: int, j: int| 0 <= i < j < r.len() implies r[i].id < r[j].id by {
            let si = if i < k { i } else { i - 1 };
            let sj = if j <= k { j } else { j - 1 };
            if i == k {
                assert(r[i] == x);
                assert(r[j] == s[j - 1]);
                assert(s[j - 1].id >= s[k].id);
            } else if j == k {
                assert(r[j] == x);
                assert(r[i] == s[i]);
            } else {
                if i < k {
                    assert(r[i] == s[i]);
                } else {
                    assert(r[i] == s[i - 1]);
                }
                if j < k {
                    assert(r[j] == s[j]);
                } else {
                    assert(r[j] == s[j - 1]);
                }
            }
        }
    }
}

fn insert_id(v: &mut Vec<NodeId>, x: NodeId)
    requires
        strictly_increasing(old(v)@),
    ensures
        final(v)@ == insert_sorted(old(v)@, x),
        strictly_increasing(final(v)@),
{
    let mut k: usize = 0;
    while k < v.len() && v[k].id < x.id
        invariant
            k <= v@.len(),
            forall|i: int| 0 <= i < k ==> (#[trigger] v@[i]).id < x.id,
        decreases v@.len() - k,
    {
        k += 1;
    }
    proof {
        lemma_insert_sorted(v@, x, k as int);
    }
    if k < v.len() && v[k].id == x.id {
        return;
    }
    v.insert(k, x);
}

/// The ids of the arena in increasing order, each once.
pub(crate) fn sorted_node_ids(arena: &Vec<Node>) -> (r: Vec<NodeId>)
    ensures
        r@ == sorted_ids(arena@),
        strictly_increasing(r@),
{
    let mut r: Vec<NodeId> = Vec::new();
    let mut i: usize = 0;
    assert(arena@.subrange(0, 0) =~= Seq::<Node>::empty());
    while i < arena.len()
        invariant
            i <= arena@.len(),
            r@ == sorted_ids(arena@.subrange(0, i as int)),
            strictly_increasing(r@),
        decreases arena@.len() - i,
    {
        let ghost pre = arena@.subrange(0, i as int + 1);
        assert(pre.drop_last() =~= arena@.subrange(0, i as int));
        insert_id(&mut r, arena[i].id);
        i += 1;
    }
    assert(arena@.subrange(0, arena@.len() as int) =~= arena@);
    r
}

fn leaf_id(func: &Function, id: NodeId) -> (b: bool)
    ensures
        b == is_leaf_id(func.arena@, id),
{
    match find_node(&func.arena, id) {
        Some(k) => dataflow_inputs(&func.arena[k].kind).len() == 0,
        None => false,
    }
}

fn push_selected(out: &mut Vec<NodeId>, func: &Function, s: &Vec<NodeId>, leaf: bool)
    ensures
        final(out)@ == old(out)@ + select_ids(func.arena@, s@, leaf),
{
    let ghost start = out@;
    let mut i: usize = 0;
    assert(out@ =~= start + select_ids(func.arena@, s@.subrange(0, 0), leaf));
    while i < s.len()
        invariant
            i <= s@.len(),
            out@ == start + select_ids(func.arena@, s@.subrange(0, i as int), leaf),
        decreases s@.len() - i,
    {
        let ghost pre = s@.subrange(0, i as int + 1);
        assert(pre.drop_last() =~= s@.subrange(0, i as int));
        if leaf_id(func, s[i]) == leaf {
            out.push(s[i]);
            assert(out@ =~= start + select_ids(func.arena@, pre, leaf));
        }
        i += 1;
    }
    assert(s@.subrange(0, s@.len() as int) =~= s@);
}

fn return_id(func: &Function, id: NodeId) -> (b: bool)
    ensures
        b == is_return_id(func.arena@, id),
{
    match find_node(&func.arena, id) {
        Some(k) => match &func.arena[k].kind {
            NodeKind::Return { .. } => true,
            _ => false,
        },
        None => false,
    }
}

fn push_inner(out: &mut Vec<NodeId>, func: &Function, s: &Vec<NodeId>, ret: bool)
    ensures
        final(out)@ == old(out)@ + select_inner(func.arena@, s@, ret),
{
    let ghost start = out@;
    let mut i: usize = 0;
    assert(out@ =~= start + select_inner(func.arena@, s@.subrange(0, 0), ret));
    while i < s.len()
        invariant
            i <= s@.len(),
            out@ == start + select_inner(func.arena@, s@.subrange(0, i as int), ret),
        decreases s@.len() - i,
    {
        let ghost pre = s@.subrange(0, i as int + 1);
        assert(pre.drop_last() =~= s@.subrange(0, i as int));
        if !leaf_id(func, s[i]) && return_id(func, s[i]) == ret {
            out.push(s[i]);
            assert(out@ =~= start + select_inner(func.arena@, pre, ret));
        }
        i += 1;
    }
    assert(s@.subrange(0, s@.len() as int) =~= s@);
}

fn is_ready(func: &Function, placed: &Vec<NodeId>, id: NodeId) -> (b: bool)
    ensures
        b == ready(func.arena@, placed@, id),
{
    let ins = match find_node(&func.arena, id) {
        Some(k) => dataflow_inputs(&func.arena[k].kind),
        None => Vec::new(),
    };
    assert(ins@ == inputs_of(func.arena@, id));
    let mut j: usize = 0;
    while j < ins.len()
        invariant
            j <= ins@.len(),
            ins@ == inputs_of(func.arena@, id),
            forall|jj: int| 0 <= jj < j ==> placed@.contains(#[trigger] ins@[jj]),
        decreases ins@.len() - j,
    {
        if !contains_id(placed, ins[j]) {
            return false;
        }
        j += 1;
    }
    true
}

fn run_pass(placed: &mut Vec<NodeId>, func: &Function, cands: &Vec<NodeId>)
    ensures
        final(placed)@ == pass(func.arena@, old(placed)@, cands@),
{
    let ghost start = placed@;
    let mut i: usize = 0;
    assert(cands@.subrange(0, 0) =~= Seq::<NodeId>::empty());
    while i < cands.len()
        invariant
            i <= cands@.len(),
            placed@ == pass(func.arena@, start, cands@.subrange(0, i as int)),
        decreases cands@.len() - i,
    {
        let ghost pre = cands@.subrange(0, i as int + 1);
        assert(pre.drop_last() =~= cands@.subrange(0, i as int));
        let c = cands[i];
        if !contains_id(placed, c) && is_ready(func, placed, c) {
            placed.push(c);
        }
        i += 1;
    }
    assert(cands@.subrange(0, cands@.len() as int) =~= cands@);
}

fn push_unplaced(out: &mut Vec<NodeId>, placed: &Vec<NodeId>, s: &Vec<NodeId>)
    ensures
        final(out)@ == old(out)@ + unplaced(placed@, s@),
{
    let ghost start = out@;
    let mut i: usize = 0;
    assert(out@ =~= start + unplaced(placed@, s@.subrange(0, 0)));
    while i < s.len()
        invariant
            i <= s@.len(),
            out@ == start + unplaced(placed@, s@.subrange(0, i as int)),
        decreases s@.len() - i,
    {
        let ghost pre = s@.subrange(0, i as int + 1);
        assert(pre.drop_last() =~= s@.subrange(0, i as int));
        if !contains_id(placed, s[i]) {
            out.push(s[i]);
            assert(out@ =~= start + unplaced(placed@, pre));
        }
        i += 1;
    }
    assert(s@.subrange(0, s@.len() as int) =~= s@);
}

/// A topological order of the function's nodes: the leaves (parameters
/// and constants) by increasing identifier, then the other nodes in
/// dataflow order (each after its operands), then the `Return` nodes (see
/// `spec_topological_sort`).
pub fn topological_sort(func: &Function) -> (order: Vec<NodeId>)
    ensures
        order@ == spec_topological_sort(func.arena@),
{
    let all_ids = sorted_node_ids(&func.arena);
    let mut order: Vec<NodeId> = Vec::new();
    push_selected(&mut order, func, &all_ids, true);
    let mut inner: Vec<NodeId> = Vec::new();
    push_inner(&mut inner, func, &all_ids, false);
    assert(order@ =~= select_ids(func.arena@, all_ids@, true));
    assert(inner@ =~= select_inner(func.arena@, all_ids@, false));
    let ghost leaves = order@;
    let mut k: usize = inner.len();
    while k > 0
        invariant
            k <= inner@.len(),
            passes(func.arena@, leaves, inner@, inner@.len() as nat) == passes(func.arena@, order@, inner@, k as nat),
        decreases k,
    {
        let before = order.len();
        let ghost prev = order@;
        run_pass(&mut order, func, &inner);
        proof {
            lemma_pass(func.arena@, prev, inner@);
        }
        if order.len() == before {
            assert(order@ =~= prev) by {
                assert(order@.subrange(0, prev.len() as int) == prev);
            }
            assert(passes(func.arena@, prev, inner@, k as nat) == prev);
            assert(order@ == pass(func.arena@, prev, inner@));
            assert(passes(func.arena@, leaves, inner@, inner@.len() as nat) == passes(func.arena@, order@, inner@, 0));
            k = 0;
        } else {
            k = k - 1;
        }
    }
    let placed_part = order.clone();
    push_unplaced(&mut order, &placed_part, &inner);
    push_inner(&mut order, func, &all_ids, true);
    assert(order@ =~= spec_topological_sort(func.arena@));
    order
}

} // verus!

verus! {

// ── Laws ────────────────────────────────────────────────────────────────

/// `users` finds exactly the nodes that have `x` among their operands.
pub proof fn law_users_exact(nodes: Seq<Node>, x: NodeId, y: NodeId)
    ensures
        users_in(nodes, x).contains(y) <==> exists|i: int|
            0 <= i < nodes.len() && nodes[i].id == y && spec_dataflow_inputs(#[trigger] nodes[i].kind).contains(x),
    decreases nodes.len(),
{
    if nodes.len() > 0 {
        let d = nodes.drop_last();
        law_users_exact(d, x, y);
        let u = users_in(nodes, x);
        let ud = users_in(d, x);
        if u.contains(y) {
            let a = choose|a: int| 0 <= a < u.len() && u[a] == y;
            if a < ud.len() {
                assert(ud[a] == y);
                assert(ud.contains(y));
                let i = choose|i: int|
                    0 <= i < d.len() && d[i].id == y && spec_dataflow_inputs(#[trigger] d[i].kind).contains(x);
                assert(nodes[i] == d[i]);
            } else {
                let i = nodes.len() - 1;
                assert(nodes[i].id == y && spec_dataflow_inputs(nodes[i].kind).contains(x));
            }
        }
        if exists|i: int| 0 <= i < nodes.len() && nodes[i].id == y && spec_dataflow_inputs(#[trigger] nodes[i].kind).contains(x) {
            let i = choose|i: int|
                0 <= i < nodes.len() && nodes[i].id == y && spec_dataflow_inputs(#[trigger] nodes[i].kind).contains(x);
            if i < nodes.len() - 1 {
                assert(d[i] == nodes[i]);
                assert(spec_dataflow_inputs(d[i].kind).contains(x));
                assert(ud.contains(y));
                let a = choose|a: int| 0 <= a < ud.len() && ud[a] == y;
                assert(u[a] == y);
            } else {
                assert(u[u.len() - 1] == y);
            }
        }
    }
}

/// Reachability along operands is transitive.
pub proof fn law_reaches_transitive(nodes: Seq<Node>, a: NodeId, b: NodeId, c: NodeId)
    requires
        reaches(nodes, a, b),
        reaches(nodes, b, c),
    ensures
        reaches(nodes, a, c),
{
    let p = choose|p: Seq<NodeId>| #[trigger] is_path(nodes, p) && p[0] == a && p.last() == b;
    let q = choose|q: Seq<NodeId>| #[trigger] is_path(nodes, q) && q[0] == b && q.last() == c;
    let r = p + q.drop_first();
    assert forall|i: int| 0 <= i < r.len() - 1 implies inputs_of(nodes, #[trigger] r[i]).contains(r[i + 1]) by {
        if i < p.len() - 1 {
            assert(r[i] == p[i] && r[i + 1] == p[i + 1]);
        } else if i == p.len() - 1 {
            assert(r[i] == b);
            assert(r[i + 1] == q[1]);
            assert(q[0] == b);
        } else {
            let j = i - p.len() + 1;
            assert(r[i] == q[j] && r[i + 1] == q[j + 1]);
        }
    }
    if q.len() == 1 {
        assert(r =~= p);
    } else {
        assert(r.last() == q.last());
    }
    assert(is_path(nodes, r));
}

/// A transitive input is reached; a node reached from a different node is
/// one of its transitive inputs.
pub proof fn law_strict_reach(nodes: Seq<Node>, a: NodeId, b: NodeId)
    ensures
        reaches_strictly(nodes, a, b) ==> reaches(nodes, a, b),
        reaches(nodes, a, b) && a != b ==> reaches_strictly(nodes, a, b),
{
    if reaches(nodes, a, b) && a != b {
        let p = choose|p: Seq<NodeId>| #[trigger] is_path(nodes, p) && p[0] == a && p.last() == b;
        assert(p.len() >= 2);
    }
}

proof fn lemma_insert_sorted_increasing(s: Seq<NodeId>, x: NodeId)
    requires
        strictly_increasing(s),
    ensures
        strictly_increasing(insert_sorted(s, x)),
    decreases s.len(),
{
    let r = insert_sorted(s, x);
    if s.len() == 0 {
    } else if x.id < s[0].id {
        assert forall|i: int, j: int| 0 <= i < j < r.len() implies r[i].id < r[j].id by {
            if i > 0 {
                assert(r[i] == s[i - 1] && r[j] == s[j - 1]);
            } else {
                assert(r[j] == s[j - 1]);
                assert(s[j - 1].id >= s[0].id);
            }
        }
    } else if x.id == s[0].id {
    } else {
        let t = s.drop_first();
        lemma_insert_sorted_increasing(t, x);
        lemma_insert_sorted_members(t, x);
        let rt = insert_sorted(t, x);
        assert forall|i: int, j: int| 0 <= i < j < r.len() implies r[i].id < r[j].id by {
            if i == 0 {
                assert(r[j] == rt[j - 1]);
                assert(rt.contains(rt[j - 1]));
                if t.contains(rt[j - 1]) {
                    let a = choose|a: int| 0 <= a < t.len() && t[a] == rt[j - 1];
                    assert(s[a + 1] == t[a]);
                }
            } else {
                assert(r[i] == rt[i - 1] && r[j] == rt[j - 1]);
            }
        }
    }
}

pub proof fn lemma_sorted_ids(nodes: Seq<Node>)
    ensures
        strictly_increasing(sorted_ids(nodes)),
        forall|y: NodeId| #[trigger] sorted_ids(nodes).contains(y) <==> exists|i: int| 0 <= i < nodes.len() && nodes[i].id == y,
    decreases nodes.len(),
{
    if nodes.len() > 0 {
        let d = nodes.drop_last();
        lemma_sorted_ids(d);
        lemma_insert_sorted_increasing(sorted_ids(d), nodes.last().id);
        lemma_insert_sorted_members(sorted_ids(d), nodes.last().id);
        assert forall|y: NodeId| #[trigger] sorted_ids(nodes).contains(y) <==> exists|i: int|
            0 <= i < nodes.len() && nodes[i].id == y by {
            if sorted_ids(d).contains(y) {
                let i = choose|i: int| 0 <= i < d.len() && d[i].id == y;
                assert(nodes[i] == d[i]);
            }
            if exists|i: int| 0 <= i < nodes.len() && nodes[i].id == y {
                let i = choose|i: int| 0 <= i < nodes.len() && nodes[i].id == y;
                if i < nodes.len() - 1 {
                    assert(d[i] == nodes[i]);
                }
            }
        }
    }
}

proof fn lemma_select_ids(nodes: Seq<Node>, s: Seq<NodeId>, leaf: bool)
    requires
        strictly_increasing(s),
    ensures
        strictly_increasing(select_ids(nodes, s, leaf)),
        forall|y: NodeId| #[trigger] select_ids(nodes, s, leaf).contains(y) <==> (s.contains(y) && is_leaf_id(nodes, y) == leaf),
    decreases s.len(),
{
    if s.len() > 0 {
        let d = s.drop_last();
        lemma_select_ids(nodes, d, leaf);
        let r = select_ids(nodes, s, leaf);
        let rd = select_ids(nodes, d, leaf);
        assert forall|y: NodeId| #[trigger] r.contains(y) <==> (s.contains(y) && is_leaf_id(nodes, y) == leaf) by {
            if rd.contains(y) {
                let a = choose|a: int| 0 <= a < rd.len() && rd[a] == y;
                let b = choose|b: int| 0 <= b < d.len() && d[b] == y;
                assert(s[b] == y);
                if is_leaf_id(nodes, s.last()) == leaf {
                    assert(r[a] == y);
                }
            }
            if r.contains(y) {
                let a = choose|a: int| 0 <= a < r.len() && r[a] == y;
                if a < rd.len() {
                    assert(rd[a] == y);
                } else {
                    assert(y == s.last());
                    assert(s[s.len() - 1] == y);
                }
            }
            if s.contains(y) && is_leaf_id(nodes, y) == leaf {
                let b = choose|b: int| 0 <= b < s.len() && s[b] == y;
                if b < s.len() - 1 {
                    assert(d[b] == y);
                    assert(rd.contains(y));
                    let a = choose|a: int| 0 <= a < rd.len() && rd[a] == y;
                    assert(r[a] == y);
                } else {
                    assert(r[r.len() - 1] == y);
                }
            }
        }
        if is_leaf_id(nodes, s.last()) == leaf {
            assert forall|i: int, j: int| 0 <= i < j < r.len() implies r[i].id < r[j].id by {
                if j == r.len() - 1 {
                    assert(r[i] == rd[i]);
                    assert(rd.contains(rd[i]));
                    let b = choose|b: int| 0 <= b < d.len() && d[b] == rd[i];
                    assert(s[b] == d[b]);
                } else {
                    assert(r[i] == rd[i] && r[j] == rd[j]);
                }
            }
        }
    }
}

proof fn lemma_select_inner(nodes: Seq<Node>, s: Seq<NodeId>, ret: bool)
    requires
        strictly_increasing(s),
    ensures
        strictly_increasing(select_inner(nodes, s, ret)),
        forall|y: NodeId| #[trigger] select_inner(nodes, s, ret).contains(y) <==> (s.contains(y) && (!is_leaf_id(nodes, y) && is_return_id(nodes, y) == ret)),
    decreases s.len(),
{
    if s.len() > 0 {
        let d = s.drop_last();
        lemma_select_inner(nodes, d, ret);
        let r = select_inner(nodes, s, ret);
        let rd = select_inner(nodes, d, ret);
        assert forall|y: NodeId| #[trigger] r.contains(y) <==> (s.contains(y) && (!is_leaf_id(nodes, y) && is_return_id(nodes, y) == ret)) by {
            if rd.contains(y) {
                let a = choose|a: int| 0 <= a < rd.len() && rd[a] == y;
                let b = choose|b: int| 0 <= b < d.len() && d[b] == y;
                assert(s[b] == y);
                if (!is_leaf_id(nodes, s.last()) && is_return_id(nodes, s.last()) == ret) {
                    assert(r[a] == y);
                }
            }
            if r.contains(y) {
                let a = choose|a: int| 0 <= a < r.len() && r[a] == y;
                if a < rd.len() {
                    assert(rd[a] == y);
                } else {
                    assert(y == s.last());
                    assert(s[s.len() - 1] == y);
                }
            }
            if s.contains(y) && (!is_leaf_id(nodes, y) && is_return_id(nodes, y) == ret) {
                let b = choose|b: int| 0 <= b < s.len() && s[b] == y;
                if b < s.len() - 1 {
                    assert(d[b] == y);
                    assert(rd.contains(y));
                    let a = choose|a: int| 0 <= a < rd.len() && rd[a] == y;
                    assert(r[a] == y);
                } else {
                    assert(r[r.len() - 1] == y);
                }
            }
        }
        if (!is_leaf_id(nodes, s.last()) && is_return_id(nodes, s.last()) == ret) {
            assert forall|i: int, j: int| 0 <= i < j < r.len() implies r[i].id < r[j].id by {
                if j == r.len() - 1 {
                    assert(r[i] == rd[i]);
                    assert(rd.contains(rd[i]));
                    let b = choose|b: int| 0 <= b < d.len() && d[b] == rd[i];
                    assert(s[b] == d[b]);
                } else {
                    assert(r[i] == rd[i] && r[j] == rd[j]);
                }
            }
        }
    }
}


proof fn lemma_unplaced(placed: Seq<NodeId>, s: Seq<NodeId>)
    requires
        strictly_increasing(s),
    ensures
        strictly_increasing(unplaced(placed, s)),
        forall|y: NodeId| #[trigger] unplaced(placed, s).contains(y) <==> (s.contains(y) && !placed.contains(y)),
    decreases s.len(),
{
    if s.len() > 0 {
        let d = s.drop_last();
        assert(strictly_increasing(d));
        lemma_unplaced(placed, d);
        let r = unplaced(placed, s);
        let rd = unplaced(placed, d);
        assert forall|y: NodeId| #[trigger] r.contains(y) <==> (s.contains(y) && !placed.contains(y)) by {
            if rd.contains(y) {
                let a = choose|a: int| 0 <= a < rd.len() && rd[a] == y;
                let b = choose|b: int| 0 <= b < d.len() && d[b] == y;
                assert(s[b] == y);
                if !placed.contains(s.last()) {
                    assert(r[a] == y);
                }
            }
            if r.contains(y) {
                let a = choose|a: int| 0 <= a < r.len() && r[a] == y;
                if a < rd.len() {
                    assert(rd[a] == y);
                } else {
                    assert(s[s.len() - 1] == y);
                }
            }
            if s.contains(y) && !placed.contains(y) {
                let b = choose|b: int| 0 <= b < s.len() && s[b] == y;
                if b < s.len() - 1 {
                    assert(d[b] == y);
                    assert(rd.contains(y));
                    let a = choose|a: int| 0 <= a < rd.len() && rd[a] == y;
                    assert(r[a] == y);
                } else {
                    assert(r[r.len() - 1] == y);
                }
            }
        }
        if !placed.contains(s.last()) {
            assert forall|i: int, j: int| 0 <= i < j < r.len() implies r[i].id < r[j].id by {
                if j == r.len() - 1 {
                    assert(r[i] == rd[i]);
                    assert(rd.contains(rd[i]));
                    let b = choose|b: int| 0 <= b < d.len() && d[b] == rd[i];
                    assert(s[b] == d[b]);
                } else {
                    assert(r[i] == rd[i] && r[j] == rd[j]);
                }
            }
        }
    }
}

/// What one pass does: it extends what is placed by candidates not yet
/// placed, each ready when placed; a pass that places nothing leaves every
/// unplaced candidate not ready.
proof fn lemma_pass(nodes: Seq<Node>, placed: Seq<NodeId>, cands: Seq<NodeId>)
    ensures
        pass(nodes, placed, cands).len() >= placed.len(),
        pass(nodes, placed, cands).subrange(0, placed.len() as int) == placed,
        forall|q: int|
            placed.len() <= q < pass(nodes, placed, cands).len() ==> cands.contains(
                #[trigger] pass(nodes, placed, cands)[q],
            ) && !placed.contains(pass(nodes, placed, cands)[q]) && ready(
                nodes,
                pass(nodes, placed, cands).subrange(0, q),
                pass(nodes, placed, cands)[q],
            ),
        placed.no_duplicates() ==> pass(nodes, placed, cands).no_duplicates(),
        pass(nodes, placed, cands).len() == placed.len() ==> forall|i: int|
            0 <= i < cands.len() ==> placed.contains(#[trigger] cands[i]) || !ready(nodes, placed, cands[i]),
    decreases cands.len(),
{
    if cands.len() > 0 {
        let d = cands.drop_last();
        lemma_pass(nodes, placed, d);
        let p = pass(nodes, placed, d);
        let r = pass(nodes, placed, cands);
        let c = cands.last();
        assert forall|q: int| placed.len() <= q < r.len() implies cands.contains(#[trigger] r[q]) && !placed.contains(r[q])
            && ready(nodes, r.subrange(0, q), r[q]) by {
            if q < p.len() {
                assert(r[q] == p[q]);
                assert(r.subrange(0, q) =~= p.subrange(0, q));
                assert(d.contains(p[q]));
                let k = choose|k: int| 0 <= k < d.len() && d[k] == p[q];
                assert(cands[k] == p[q]);
            } else {
                assert(r == p.push(c));
                assert(r.subrange(0, q) =~= p);
                assert(cands[cands.len() - 1] == c);
                if placed.contains(c) {
                    let k = choose|k: int| 0 <= k < placed.len() && placed[k] == c;
                    assert(p.subrange(0, placed.len() as int)[k] == c);
                    assert(p.contains(c));
                }
            }
        }
        assert(r.subrange(0, placed.len() as int) =~= placed) by {
            assert(p.subrange(0, placed.len() as int) == placed);
            if r != p {
                assert(r == p.push(c));
            }
        }
        if placed.no_duplicates() && r != p {
            assert(r == p.push(c));
            assert forall|i: int, j: int| 0 <= i < r.len() && 0 <= j < r.len() && i != j implies r[i] != r[j] by {
                if i == r.len() - 1 {
                    assert(p.contains(p[j]));
                } else if j == r.len() - 1 {
                    assert(p.contains(p[i]));
                } else {
                    assert(r[i] == p[i] && r[j] == p[j]);
                }
            }
        }
        if r.len() == placed.len() {
            assert(p.len() == placed.len());
            assert(p =~= placed) by {
                assert(p.subrange(0, placed.len() as int) == placed);
            }
            assert forall|i: int| 0 <= i < cands.len() implies placed.contains(#[trigger] cands[i]) || !ready(
                nodes,
                placed,
                cands[i],
            ) by {
                if i < cands.len() - 1 {
                    assert(d[i] == cands[i]);
                }
            }
        }
    }
}

/// What the passes do: they extend what is placed by distinct candidates,
/// each ready when placed; they end at a pass that places nothing, or after
/// placing at least `k` candidates.
proof fn lemma_passes(nodes: Seq<Node>, placed: Seq<NodeId>, cands: Seq<NodeId>, k: nat)
    requires
        placed.no_duplicates(),
    ensures
        passes(nodes, placed, cands, k).len() >= placed.len(),
        passes(nodes, placed, cands, k).subrange(0, placed.len() as int) == placed,
        passes(nodes, placed, cands, k).no_duplicates(),
        forall|q: int|
            placed.len() <= q < passes(nodes, placed, cands, k).len() ==> cands.contains(
                #[trigger] passes(nodes, placed, cands, k)[q],
            ) && ready(nodes, passes(nodes, placed, cands, k).subrange(0, q), passes(nodes, placed, cands, k)[q]),
        pass(nodes, passes(nodes, placed, cands, k), cands).len() == passes(nodes, placed, cands, k).len()
            || passes(nodes, placed, cands, k).len() >= placed.len() + k,
    decreases k,
{
    lemma_pass(nodes, placed, cands);
    if k > 0 {
        let p = pass(nodes, placed, cands);
        if p.len() != placed.len() {
            lemma_passes(nodes, p, cands, (k - 1) as nat);
            let r = passes(nodes, placed, cands, k);
            assert(r == passes(nodes, p, cands, (k - 1) as nat));
            assert(r.subrange(0, placed.len() as int) =~= placed) by {
                assert(r.subrange(0, p.len() as int) == p);
                assert(p.subrange(0, placed.len() as int) == placed);
                assert forall|i: int| 0 <= i < placed.len() implies r[i] == placed[i] by {
                    assert(r.subrange(0, p.len() as int)[i] == r[i]);
                    assert(p.subrange(0, placed.len() as int)[i] == p[i]);
                }
            }
            assert forall|q: int| placed.len() <= q < r.len() implies cands.contains(#[trigger] r[q]) && ready(
                nodes,
                r.subrange(0, q),
                r[q],
            ) by {
                if q < p.len() {
                    assert(r.subrange(0, p.len() as int)[q] == r[q]);
                    assert(r[q] == p[q]);
                    assert(r.subrange(0, q) =~= p.subrange(0, q)) by {
                        assert forall|i: int| 0 <= i < q implies r[i] == p[i] by {
                            assert(r.subrange(0, p.len() as int)[i] == r[i]);
                        }
                    }
                }
            }
        }
    }
}

/// A distinct sequence whose elements all lie in `b` is no longer than `b`.
proof fn lemma_distinct_within(a: Seq<NodeId>, b: Seq<NodeId>)
    requires
        a.no_duplicates(),
        forall|i: int| 0 <= i < a.len() ==> b.contains(#[trigger] a[i]),
    ensures
        a.len() <= b.len(),
{
    broadcast use vstd::seq_lib::seq_to_set_is_finite;
    a.unique_seq_to_set();
    b.lemma_cardinality_of_set();
    assert(a.to_set().subset_of(b.to_set())) by {
        assert forall|x: NodeId| a.to_set().contains(x) implies b.to_set().contains(x) by {
            let i = choose|i: int| 0 <= i < a.len() && a[i] == x;
            assert(b.contains(a[i]));
        }
    }
    vstd::set_lib::lemma_len_subset(a.to_set(), b.to_set());
}

/// The three parts of the topological order and where each node lies.
proof fn lemma_topological_parts(nodes: Seq<Node>)
    ensures
        forall|y: NodeId| #[trigger] spec_topological_sort(nodes).contains(y) <==> exists|i: int|
            0 <= i < nodes.len() && nodes[i].id == y,
        forall|a: int, b: int|
            0 <= a < b < spec_topological_sort(nodes).len() ==> spec_topological_sort(nodes)[a]
                != spec_topological_sort(nodes)[b],
        forall|a: int, b: int|
            0 <= a < b < spec_topological_sort(nodes).len() && !is_leaf_id(nodes, spec_topological_sort(nodes)[a])
                ==> !is_leaf_id(nodes, spec_topological_sort(nodes)[b]),
        forall|a: int, b: int|
            0 <= a < b < spec_topological_sort(nodes).len() && is_leaf_id(nodes, spec_topological_sort(nodes)[b])
                ==> spec_topological_sort(nodes)[a].id < spec_topological_sort(nodes)[b].id,
        forall|a: int, b: int|
            0 <= a < b < spec_topological_sort(nodes).len() && is_return_id(nodes, spec_topological_sort(nodes)[a])
                && !is_leaf_id(nodes, spec_topological_sort(nodes)[a]) ==> is_return_id(nodes, spec_topological_sort(nodes)[b]),
{
    let s = sorted_ids(nodes);
    lemma_sorted_ids(nodes);
    let l = select_ids(nodes, s, true);
    let inner = select_inner(nodes, s, false);
    let rets = select_inner(nodes, s, true);
    lemma_select_ids(nodes, s, true);
    lemma_select_inner(nodes, s, false);
    lemma_select_inner(nodes, s, true);
    assert(l.no_duplicates()) by {
        assert forall|i: int, j: int| 0 <= i < l.len() && 0 <= j < l.len() && i != j implies l[i] != l[j] by {
            if i < j {
                assert(l[i].id < l[j].id);
            } else {
                assert(l[j].id < l[i].id);
            }
        }
    }
    let p = passes(nodes, l, inner, inner.len() as nat);
    lemma_passes(nodes, l, inner, inner.len() as nat);
    let u = unplaced(p, inner);
    lemma_unplaced(p, inner);
    let t = spec_topological_sort(nodes);
    assert(t == p + u + rets);
    // Where each position lies.
    assert forall|q: int| 0 <= q < l.len() implies #[trigger] t[q] == l[q] by {
        assert(p.subrange(0, l.len() as int)[q] == p[q]);
    }
    assert forall|q: int| l.len() <= q < p.len() implies inner.contains(#[trigger] t[q]) by {
        assert(t[q] == p[q]);
    }
    assert forall|q: int| p.len() <= q < p.len() + u.len() implies inner.contains(#[trigger] t[q]) && !p.contains(t[q]) by {
        assert(t[q] == u[q - p.len()]);
        assert(u.contains(u[q - p.len()]));
    }
    assert forall|q: int| p.len() + u.len() <= q < t.len() implies rets.contains(#[trigger] t[q]) by {
        assert(t[q] == rets[q - p.len() - u.len()]);
    }
    assert forall|y: NodeId| #[trigger] t.contains(y) <==> exists|i: int| 0 <= i < nodes.len() && nodes[i].id == y by {
        if t.contains(y) {
            let q = choose|q: int| 0 <= q < t.len() && t[q] == y;
            if q < l.len() {
                assert(l.contains(l[q]));
            } else if q < p.len() {
                assert(inner.contains(t[q]));
            } else if q < p.len() + u.len() {
                assert(inner.contains(t[q]));
            } else {
                assert(rets.contains(t[q]));
            }
        }
        if exists|i: int| 0 <= i < nodes.len() && nodes[i].id == y {
            assert(s.contains(y));
            if is_leaf_id(nodes, y) {
                assert(l.contains(y));
                let q = choose|q: int| 0 <= q < l.len() && l[q] == y;
                assert(t[q] == y);
            } else if is_return_id(nodes, y) {
                assert(rets.contains(y));
                let q = choose|q: int| 0 <= q < rets.len() && rets[q] == y;
                assert(t[p.len() + u.len() + q] == y);
            } else if p.contains(y) {
                let q = choose|q: int| 0 <= q < p.len() && p[q] == y;
                assert(t[q] == y);
            } else {
                assert(u.contains(y));
                let q = choose|q: int| 0 <= q < u.len() && u[q] == y;
                assert(t[p.len() + q] == y);
            }
        }
    }
    // Kinds of the parts.
    assert forall|q: int| 0 <= q < t.len() implies (q < l.len() <==> is_leaf_id(nodes, #[trigger] t[q])) && ((
    is_return_id(nodes, t[q]) && !is_leaf_id(nodes, t[q])) <==> q >= p.len() + u.len()) by {
        if q < l.len() {
            assert(l.contains(l[q]));
        } else if q < p.len() + u.len() {
            assert(inner.contains(t[q]));
        } else {
            assert(rets.contains(t[q]));
        }
    }
    assert forall|a: int, b: int| 0 <= a < b < t.len() implies t[a] != t[b] by {
        if b < p.len() {
            assert(t[a] == p[a] && t[b] == p[b]);
        } else if a >= p.len() + u.len() {
            assert(t[a] == rets[a - p.len() - u.len()] && t[b] == rets[b - p.len() - u.len()]);
        } else if a >= p.len() && b < p.len() + u.len() {
            assert(t[a] == u[a - p.len()] && t[b] == u[b - p.len()]);
        } else if a < p.len() && b < p.len() + u.len() {
            assert(t[a] == p[a]);
            assert(p.contains(p[a]));
            assert(!p.contains(t[b]));
        } else {
            assert(is_return_id(nodes, t[b]) && !is_leaf_id(nodes, t[b]));
        }
    }
    assert forall|a: int, b: int| 0 <= a < b < t.len() && is_leaf_id(nodes, t[b]) implies t[a].id < t[b].id by {
        assert(t[a] == l[a] && t[b] == l[b]);
    }
}

/// Whether no node reaches itself through its operands.
pub open spec fn acyclic(nodes: Seq<Node>) -> bool {
    forall|x: NodeId| !reaches_strictly(nodes, x, x)
}

/// Whether every operand of every node of the arena is itself in the arena.
pub open spec fn operands_in_arena(nodes: Seq<Node>) -> bool {
    forall|x: NodeId, y: NodeId|
        #![trigger inputs_of(nodes, x).contains(y)]
        inputs_of(nodes, x).contains(y) ==> exists|k: int| 0 <= k < nodes.len() && nodes[k].id == y
}

/// Whether no node has a `Return` node among its operands.
pub open spec fn no_return_operand(nodes: Seq<Node>) -> bool {
    forall|x: NodeId, y: NodeId| #![trigger inputs_of(nodes, x).contains(y)] inputs_of(nodes, x).contains(y) ==> !is_return_id(nodes, y)
}

/// Whether `z` is an inner node not yet placed.
pub open spec fn stuck(inner: Seq<NodeId>, p: Seq<NodeId>, z: NodeId) -> bool {
    inner.contains(z) && !p.contains(z)
}

proof fn lemma_chain(
    nodes: Seq<Node>,
    inner: Seq<NodeId>,
    p: Seq<NodeId>,
    next: spec_fn(NodeId) -> NodeId,
    x: NodeId,
    n: nat,
) -> (path: Seq<NodeId>)
    requires
        stuck(inner, p, x),
        forall|z: NodeId|
            #![trigger next(z)]
            stuck(inner, p, z) ==> inputs_of(nodes, z).contains(next(z)) && stuck(inner, p, next(z)),
    ensures
        path.len() == n + 1,
        is_path(nodes, path),
        path[0] == x,
        forall|k: int| 0 <= k < path.len() ==> inner.contains(#[trigger] path[k]),
    decreases n,
{
    if n == 0 {
        seq![x]
    } else {
        let y = next(x);
        assert(stuck(inner, p, y));
        let rest = lemma_chain(nodes, inner, p, next, y, (n - 1) as nat);
        let path = seq![x] + rest;
        assert forall|i: int| 0 <= i < path.len() - 1 implies inputs_of(nodes, #[trigger] path[i]).contains(path[i + 1]) by {
            if i == 0 {
                assert(path[0] == x);
                assert(path[1] == rest[0]);
            } else {
                assert(path[i] == rest[i - 1] && path[i + 1] == rest[i]);
                assert(inputs_of(nodes, rest[i - 1]).contains(rest[i]));
            }
        }
        assert forall|k: int| 0 <= k < path.len() implies inner.contains(#[trigger] path[k]) by {
            if k > 0 {
                assert(path[k] == rest[k - 1]);
            } else {
                assert(path[0] == x);
            }
        }
        path
    }
}

/// Without a cycle, when every stuck node has a stuck operand, no node is
/// stuck.
proof fn lemma_stuck_cycle(nodes: Seq<Node>, inner: Seq<NodeId>, p: Seq<NodeId>, next: spec_fn(NodeId) -> NodeId, c: NodeId)
    requires
        acyclic(nodes),
        forall|z: NodeId|
            #![trigger next(z)]
            stuck(inner, p, z) ==> inputs_of(nodes, z).contains(next(z)) && stuck(inner, p, next(z)),
    ensures
        !stuck(inner, p, c),
{
    if !stuck(inner, p, c) {
        return;
    }
    let path = lemma_chain(nodes, inner, p, next, c, inner.len() as nat);
    assert(!path.no_duplicates()) by {
        if path.no_duplicates() {
            lemma_distinct_within(path, inner);
        }
    }
    let (a0, b0) = choose|a: int, b: int| 0 <= a < path.len() && 0 <= b < path.len() && a != b && path[a] == path[b];
    let a = if a0 < b0 { a0 } else { b0 };
    let b = if a0 < b0 { b0 } else { a0 };
    let sub = path.subrange(a, b + 1);
    assert(is_path(nodes, sub)) by {
        assert forall|i: int| 0 <= i < sub.len() - 1 implies inputs_of(nodes, #[trigger] sub[i]).contains(sub[i + 1]) by {
            assert(sub[i] == path[a + i] && sub[i + 1] == path[a + i + 1]);
        }
    }
    assert(sub[0] == path[a] && sub.last() == path[b]);
    assert(reaches_strictly(nodes, path[a], path[a]));
}

/// With every operand in the arena, no `Return` operand and no cycle,
/// every node comes after each of its operands in the topological order.
#[verifier::rlimit(80)]
pub proof fn law_topological_sort_dataflow(nodes: Seq<Node>)
    requires
        acyclic(nodes),
        operands_in_arena(nodes),
        no_return_operand(nodes),
    ensures
        forall|q: int, y: NodeId|
            0 <= q < spec_topological_sort(nodes).len() && #[trigger] inputs_of(nodes, spec_topological_sort(nodes)[q]).contains(
                y,
            ) ==> exists|a: int| 0 <= a < q && spec_topological_sort(nodes)[a] == y,
{
    let s = sorted_ids(nodes);
    lemma_sorted_ids(nodes);
    let l = select_ids(nodes, s, true);
    let inner = select_inner(nodes, s, false);
    let rets = select_inner(nodes, s, true);
    lemma_select_ids(nodes, s, true);
    lemma_select_inner(nodes, s, false);
    lemma_select_inner(nodes, s, true);
    lemma_topological_parts(nodes);
    assert(l.no_duplicates()) by {
        assert forall|i: int, j: int| 0 <= i < l.len() && 0 <= j < l.len() && i != j implies l[i] != l[j] by {
            if i < j {
                assert(l[i].id < l[j].id);
            } else {
                assert(l[j].id < l[i].id);
            }
        }
    }
    let p = passes(nodes, l, inner, inner.len() as nat);
    lemma_passes(nodes, l, inner, inner.len() as nat);
    let u = unplaced(p, inner);
    lemma_unplaced(p, inner);
    let t = spec_topological_sort(nodes);
    assert(t == p + u + rets);
    // Every leaf is placed.
    assert forall|y: NodeId| s.contains(y) && is_leaf_id(nodes, y) implies p.contains(y) by {
        assert(l.contains(y));
        let q = choose|q: int| 0 <= q < l.len() && l[q] == y;
        assert(p.subrange(0, l.len() as int)[q] == p[q]);
    }
    // An operand is a leaf or an inner node.
    assert forall|x: NodeId, y: NodeId| #[trigger] inputs_of(nodes, x).contains(y) implies s.contains(y) && (is_leaf_id(nodes, y) || inner.contains(y)) by {
        let k = choose|k: int| 0 <= k < nodes.len() && nodes[k].id == y;
        assert(s.contains(y));
    }
    // No inner node is left unplaced.
    assert(u.len() == 0) by {
        if u.len() > 0 {
            let c = u[0];
            assert(u.contains(c));
            if pass(nodes, p, inner).len() == p.len() {
                lemma_pass(nodes, p, inner);
                let next = |z: NodeId| choose|y: NodeId| inputs_of(nodes, z).contains(y) && stuck(inner, p, y);
                assert forall|z: NodeId| #![trigger next(z)] stuck(inner, p, z) implies inputs_of(nodes, z).contains(next(z))
                    && stuck(inner, p, next(z)) by {
                    let i = choose|i: int| 0 <= i < inner.len() && inner[i] == z;
                    assert(!ready(nodes, p, inner[i]));
                    let j = choose|j: int| 0 <= j < inputs_of(nodes, z).len() && !p.contains(#[trigger] inputs_of(nodes, z)[j]);
                    let y = inputs_of(nodes, z)[j];
                    assert(inputs_of(nodes, z).contains(y));
                    assert(stuck(inner, p, y));
                }
                lemma_stuck_cycle(nodes, inner, p, next, c);
            } else {
                let e = p.subrange(l.len() as int, p.len() as int);
                let e2 = e.push(c);
                assert(e2.no_duplicates()) by {
                    assert forall|i: int, j: int| 0 <= i < e2.len() && 0 <= j < e2.len() && i != j implies e2[i] != e2[j] by {
                        if i < e.len() && j < e.len() {
                            assert(e2[i] == p[l.len() + i] && e2[j] == p[l.len() + j]);
                        } else if i < e.len() {
                            assert(e2[i] == p[l.len() + i]);
                            assert(p.contains(p[l.len() + i]));
                        } else {
                            assert(e2[j] == p[l.len() + j]);
                            assert(p.contains(p[l.len() + j]));
                        }
                    }
                }
                assert forall|i: int| 0 <= i < e2.len() implies inner.contains(#[trigger] e2[i]) by {
                    if i < e.len() {
                        assert(e2[i] == p[l.len() + i]);
                    }
                }
                lemma_distinct_within(e2, inner);
            }
        }
    }
    assert forall|q: int, y: NodeId|
        0 <= q < t.len() && #[trigger] inputs_of(nodes, t[q]).contains(y) implies exists|a: int| 0 <= a < q && t[a] == y by {
        if q < l.len() {
            assert(p.subrange(0, l.len() as int)[q] == p[q]);
            assert(t[q] == l[q]);
            assert(l.contains(l[q]));
            assert(is_leaf_id(nodes, t[q]));
            assert(inputs_of(nodes, t[q]).len() == 0);
        } else if q < p.len() {
            assert(t[q] == p[q]);
            assert(ready(nodes, p.subrange(0, q), p[q]));
            let j = choose|j: int| 0 <= j < inputs_of(nodes, t[q]).len() && inputs_of(nodes, t[q])[j] == y;
            assert(p.subrange(0, q).contains(inputs_of(nodes, p[q])[j]));
            let a = choose|a: int| 0 <= a < q && p.subrange(0, q)[a] == y;
            assert(t[a] == p[a]);
        } else {
            assert(s.contains(y));
            if is_leaf_id(nodes, y) {
                assert(p.contains(y));
            } else {
                assert(inner.contains(y));
                assert(!u.contains(y));
                assert(p.contains(y));
            }
            let a = choose|a: int| 0 <= a < p.len() && p[a] == y;
            assert(t[a] == p[a]);
        }
    }
}

/// The topological order lists every node of the arena exactly once; no
/// leaf comes after a node that is not a leaf and leaves come by
/// increasing identifier; no node that is not a `Return` comes after a
/// `Return` node.
pub proof fn law_topological_sort_order(nodes: Seq<Node>)
    ensures
        forall|y: NodeId| #[trigger] spec_topological_sort(nodes).contains(y) <==> exists|i: int|
            0 <= i < nodes.len() && nodes[i].id == y,
        forall|a: int, b: int|
            0 <= a < b < spec_topological_sort(nodes).len() ==> spec_topological_sort(nodes)[a]
                != spec_topological_sort(nodes)[b],
        forall|a: int, b: int|
            0 <= a < b < spec_topological_sort(nodes).len() && !is_leaf_id(nodes, spec_topological_sort(nodes)[a])
                ==> !is_leaf_id(nodes, spec_topological_sort(nodes)[b]),
        forall|a: int, b: int|
            0 <= a < b < spec_topological_sort(nodes).len() && is_leaf_id(nodes, spec_topological_sort(nodes)[b])
                ==> spec_topological_sort(nodes)[a].id < spec_topological_sort(nodes)[b].id,
        forall|a: int, b: int|
            0 <= a < b < spec_topological_sort(nodes).len() && is_return_id(nodes, spec_topological_sort(nodes)[a])
                && !is_leaf_id(nodes, spec_topological_sort(nodes)[a]) ==> is_return_id(nodes, spec_topological_sort(nodes)[b]),
{
    lemma_topological_parts(nodes);
}

} // verus!
