//! Vector-plan derivation: recognizing which primitive reduction a loop
//! region computes, from its IR and the semantic truths derived for it,
//! and reading off the buffer, the length and the per-byte predicate.
use vstd::prelude::*;
use crate::ir::{Function, Node, NodeId, NodeKind, distinct_ids, find_node, kind_of, position_of, lemma_position_of, lemma_kind_at};
use crate::graph::{spec_dataflow_inputs, dataflow_inputs, append_ids, lemma_distinct_below};
use crate::text::{decimal, owned, push_usize, push_decimal, chars_of};
use crate::facts::spec_as_u64;
use crate::vector_plan::{PlanView, PredicateView, TailPolicy, VectorOp, VectorPlan, VectorPredicate, plan_view, predicate_view};

verus! {

// ── Semantic truths ─────────────────────────────────────────────────────

/// The semantic concepts a plan derivation reads; every other concept a
/// truth may carry is `Other`.
#[derive(Clone, Copy, Debug, PartialEq, Eq, Structural)]
pub enum SemanticConcept {
    CardinalityReduction,
    ConjunctiveReduction,
    PredicateMap,
    SumReduction,
    Other,
}

/// Where a truth comes from: the physical nodes that carry it, or another
/// source.
#[derive(Clone, Debug)]
pub enum Provenance {
    Physical { nodes: Vec<NodeId> },
    Other,
}

/// A semantic truth derived for a region: its concept and its provenance.
#[derive(Clone, Debug)]
pub struct SemanticTruth {
    pub concept: SemanticConcept,
    pub provenance: Provenance,
}

/// Whether some truth carries concept `c`.
pub open spec fn has_concept(truths: Seq<SemanticTruth>, c: SemanticConcept) -> bool {
    exists|i: int| 0 <= i < truths.len() && #[trigger] truths[i].concept == c
}

/// The position of the first truth at or after `i` that carries `c`.
pub open spec fn first_truth_from(truths: Seq<SemanticTruth>, c: SemanticConcept, i: int) -> Option<int>
    decreases truths.len() - i,
{
    if i < 0 || i >= truths.len() {
        None
    } else if truths[i].concept == c {
        Some(i)
    } else {
        first_truth_from(truths, c, i + 1)
    }
}

proof fn lemma_first_truth_from(truths: Seq<SemanticTruth>, c: SemanticConcept, i: int)
    requires
        0 <= i,
    ensures
        first_truth_from(truths, c, i) matches Some(k) ==> i <= k < truths.len() && truths[k].concept == c,
    decreases truths.len() - i,
{
    if i < truths.len() && truths[i].concept != c {
        lemma_first_truth_from(truths, c, i + 1);
    }
}

fn any_concept(truths: &[SemanticTruth], c: SemanticConcept) -> (r: bool)
    ensures
        r == has_concept(truths@, c),
{
    let mut i: usize = 0;
    while i < truths.len()
        invariant
            i <= truths@.len(),
            forall|k: int| 0 <= k < i ==> #[trigger] truths@[k].concept != c,
        decreases truths@.len() - i,
    {
        if truths[i].concept == c {
            assert(truths@[i as int].concept == c);
            return true;
        }
        i += 1;
    }
    false
}

fn find_concept(truths: &[SemanticTruth], c: SemanticConcept) -> (r: Option<usize>)
    ensures
        match r {
            Some(k) => first_truth_from(truths@, c, 0) == Some(k as int) && k < truths@.len(),
            None => first_truth_from(truths@, c, 0) is None,
        },
{
    proof {
        lemma_first_truth_from(truths@, c, 0);
    }
    let mut i: usize = 0;
    while i < truths.len()
        invariant
            i <= truths@.len(),
            first_truth_from(truths@, c, 0) == first_truth_from(truths@, c, i as int),
        decreases truths@.len() - i,
    {
        if truths[i].concept == c {
            return Some(i);
        }
        i += 1;
    }
    None
}

// ── Parameter names ─────────────────────────────────────────────────────

/// Whether a parameter is an unnamed value (`%N`).
pub open spec fn is_unnamed_param(name: Seq<char>) -> bool {
    name.len() > 0 && name[0] == '%'
}

/// The name the emitters give parameter `i`: `p{i}` for an unnamed value,
/// its own name otherwise.
pub open spec fn emitted_param_name(name: Seq<char>, i: nat) -> Seq<char> {
    if is_unnamed_param(name) {
        "p"@ + decimal(i)
    } else {
        name
    }
}

/// `p{i}`.
pub(crate) fn emitted_index_name(i: usize) -> (s: String)
    ensures
        s@ == "p"@ + decimal(i as nat),
{
    let mut s = owned("p");
    push_usize(&mut s, i);
    s
}

/// Whether `name` is an unnamed value (`%N`).
pub(crate) fn starts_unnamed(name: &str) -> (b: bool)
    ensures
        b == is_unnamed_param(name@),
{
    let v = chars_of(name);
    v.len() > 0 && v[0] == '%'
}

/// The C expression of node `nid` read as a parameter: the emitted name of
/// parameter number `nid` when there is one, `v{nid}` otherwise.
pub open spec fn spec_param_name(func: Function, nid: NodeId) -> Seq<char> {
    if nid.id < func.params@.len() {
        emitted_param_name(func.params@[nid.id as int].name@, nid.id as nat)
    } else {
        "v"@ + decimal(nid.id as nat)
    }
}

/// The C name of the parameter numbered by `nid` (see `spec_param_name`).
pub fn param_name(func: &Function, nid: NodeId) -> (s: String)
    ensures
        s@ == spec_param_name(*func, nid),
{
    let id = nid.as_u64();
    if id < func.params.len() as u64 {
        let idx = id as usize;
        let name = func.params[idx].name.as_str();
        if starts_unnamed(name) {
            emitted_index_name(idx)
        } else {
            owned(name)
        }
    } else {
        let mut s = owned("v");
        push_decimal(&mut s, id);
        s
    }
}

/// The C expression of a value: a constant's unsigned value (`0` when it
/// has none), a parameter's name, `v{nid}` for any other node, `0` for a
/// node the arena lacks.
pub open spec fn spec_resolve_value(func: Function, nid: NodeId) -> Seq<char> {
    match kind_of(func.arena@, nid) {
        Some(NodeKind::Constant(d)) => match spec_as_u64(d) {
            Some(v) => decimal(v as nat),
            None => "0"@,
        },
        Some(NodeKind::Parameter { .. }) => spec_param_name(func, nid),
        Some(_) => "v"@ + decimal(nid.id as nat),
        None => "0"@,
    }
}

fn resolve_value(func: &Function, nid: NodeId) -> (s: String)
    ensures
        s@ == spec_resolve_value(*func, nid),
{
    match func.get_node(nid) {
        Some(node) => match &node.kind {
            NodeKind::Constant(data) => match data.as_u64() {
                Some(v) => {
                    let mut s = String::new();
                    push_decimal(&mut s, v);
                    s
                },
                None => owned("0"),
            },
            NodeKind::Parameter { .. } => param_name(func, nid),
            _ => {
                let mut s = owned("v");
                push_decimal(&mut s, nid.as_u64());
                s
            },
        },
        None => owned("0"),
    }
}

/// The C expression of a traversal value, only when it is genuinely a
/// parameter (by its kind and index, not by its identifier) or a constant
/// with an unsigned value.
pub open spec fn spec_resolve_traversal_value(func: Function, nid: NodeId) -> Option<Seq<char>> {
    match kind_of(func.arena@, nid) {
        Some(NodeKind::Parameter { index }) => if index < func.params@.len() {
            Some(emitted_param_name(func.params@[index as int].name@, index as nat))
        } else {
            None
        },
        Some(NodeKind::Constant(d)) => match spec_as_u64(d) {
            Some(v) => Some(decimal(v as nat)),
            None => None,
        },
        _ => None,
    }
}

fn resolve_traversal_value(func: &Function, nid: NodeId) -> (r: Option<String>)
    ensures
        match r {
            Some(s) => spec_resolve_traversal_value(*func, nid) == Some(s@),
            None => spec_resolve_traversal_value(*func, nid) is None,
        },
{
    let node = match func.get_node(nid) {
        Some(node) => node,
        None => return None,
    };
    match &node.kind {
        NodeKind::Parameter { index } => {
            if *index < func.params.len() {
                let name = func.params[*index].name.as_str();
                if starts_unnamed(name) {
                    Some(emitted_index_name(*index))
                } else {
                    Some(owned(name))
                }
            } else {
                None
            }
        },
        NodeKind::Constant(data) => match data.as_u64() {
            Some(v) => {
                let mut s = String::new();
                push_decimal(&mut s, v);
                Some(s)
            },
            None => None,
        },
        _ => None,
    }
}

// ── The subgraph under a node ───────────────────────────────────────────

/// Every node a node refers to: its dataflow operands and, for a loop, also
/// the nodes it contains (its body and outputs).
pub open spec fn spec_input_nodes(kind: NodeKind) -> Seq<NodeId> {
    match kind {
        NodeKind::Loop { body, termination, outputs, carried_inputs } => seq![termination] + carried_inputs@
            + body@ + outputs@,
        _ => spec_dataflow_inputs(kind),
    }
}

fn input_nodes(kind: &NodeKind) -> (v: Vec<NodeId>)
    ensures
        v@ == spec_input_nodes(*kind),
{
    match kind {
        NodeKind::Loop { body, termination, outputs, carried_inputs } => {
            let mut v = vec![*termination];
            append_ids(&mut v, carried_inputs);
            append_ids(&mut v, body);
            append_ids(&mut v, outputs);
            v
        },
        _ => dataflow_inputs(kind),
    }
}

/// The nodes node `id` refers to (none if the arena lacks it).
pub open spec fn refs_of(nodes: Seq<Node>, id: NodeId) -> Seq<NodeId> {
    match kind_of(nodes, id) {
        Some(k) => spec_input_nodes(k),
        None => Seq::empty(),
    }
}

/// Whether each node of `p` refers to the next.
pub open spec fn is_ref_path(nodes: Seq<Node>, p: Seq<NodeId>) -> bool {
    p.len() >= 1 && forall|i: int| 0 <= i < p.len() - 1 ==> refs_of(nodes, #[trigger] p[i]).contains(p[i + 1])
}

/// Whether `x` lies in the subgraph under `start`: `start` itself and
/// everything it refers to, directly or not.
pub open spec fn in_subgraph(nodes: Seq<Node>, start: NodeId, x: NodeId) -> bool {
    exists|p: Seq<NodeId>| #[trigger] is_ref_path(nodes, p) && p[0] == start && p.last() == x
}

proof fn lemma_ref_path_push(nodes: Seq<Node>, p: Seq<NodeId>, w: NodeId)
    requires
        is_ref_path(nodes, p),
        refs_of(nodes, p.last()).contains(w),
    ensures
        is_ref_path(nodes, p.push(w)),
        p.push(w)[0] == p[0],
        p.push(w).last() == w,
{
    let q = p.push(w);
    assert forall|i: int| 0 <= i < q.len() - 1 implies refs_of(nodes, #[trigger] q[i]).contains(q[i + 1]) by {
        if i < p.len() - 1 {
            assert(q[i] == p[i] && q[i + 1] == p[i + 1]);
        } else {
            assert(q[i] == p.last());
        }
    }
}

/// Whether the nodes at the processed queue positions have everything they
/// refer to marked.
pub open spec fn marks_closed(nodes: Seq<Node>, marks: Seq<bool>, queue: Seq<usize>, head: int) -> bool {
    forall|k: int, j: int|
        0 <= k < head && 0 <= j < spec_input_nodes(nodes[queue[k] as int].kind).len() ==> (position_of(
            nodes,
            #[trigger] spec_input_nodes(nodes[queue[k] as int].kind)[j],
            0,
        ) matches Some(p) ==> 0 <= p < marks.len() && marks[p])
}

proof fn lemma_path_marked(
    nodes: Seq<Node>,
    start: NodeId,
    marks: Seq<bool>,
    queue: Seq<usize>,
    p: Seq<NodeId>,
    i: int,
)
    requires
        distinct_ids(nodes),
        is_ref_path(nodes, p),
        p[0] == start,
        0 <= i < p.len(),
        position_of(nodes, start, 0) matches Some(s) && 0 <= s < marks.len() && marks[s],
        marks_closed(nodes, marks, queue, queue.len() as int),
        forall|k: int| 0 <= k < queue.len() ==> #[trigger] queue[k] < nodes.len(),
        forall|q: int| 0 <= q < marks.len() && marks[q] ==> queue.contains(q as usize),
        marks.len() == nodes.len(),
        nodes.len() <= usize::MAX,
    ensures
        position_of(nodes, p[i], 0) matches Some(q) ==> 0 <= q < marks.len() && marks[q],
    decreases i,
{
    if i > 0 {
        lemma_path_marked(nodes, start, marks, queue, p, i - 1);
        let x = p[i - 1];
        assert(refs_of(nodes, p[i - 1]).contains(p[i]));
        lemma_position_of(nodes, x, 0);
        match position_of(nodes, x, 0) {
            Some(q) => {
                assert(queue.contains(q as usize));
                let k = choose|k: int| 0 <= k < queue.len() && queue[k] == q as usize;
                assert(queue[k] as int == q);
                assert(refs_of(nodes, x) == spec_input_nodes(nodes[queue[k] as int].kind));
                let j = choose|j: int| 0 <= j < refs_of(nodes, x).len() && refs_of(nodes, x)[j] == p[i];
                assert(spec_input_nodes(nodes[queue[k] as int].kind)[j] == p[i]);
            },
            None => {
                assert(refs_of(nodes, x).len() == 0);
            },
        }
    }
}

/// The positions of the subgraph under `start`: `marks[q]` tells whether
/// the node at position `q` lies in it.
fn collect_subgraph(func: &Function, start: NodeId) -> (marks: Vec<bool>)
    requires
        distinct_ids(func.arena@),
    ensures
        marks@.len() == func.arena@.len(),
        forall|q: int| 0 <= q < marks@.len() ==> (marks@[q] <==> in_subgraph(func.arena@, start, func.arena@[q].id)),
{
    let ghost nodes = func.arena@;
    let n = func.arena.len();
    let mut marks: Vec<bool> = Vec::new();
    let mut z: usize = 0;
    while z < n
        invariant
            z <= n,
            marks@.len() == z,
            forall|q: int| 0 <= q < z ==> !marks@[q],
        decreases n - z,
    {
        marks.push(false);
        z += 1;
    }
    let s = match find_node(&func.arena, start) {
        Some(s) => s,
        None => {
            proof {
                lemma_position_of(nodes, start, 0);
                assert forall|q: int| 0 <= q < marks@.len() implies !in_subgraph(nodes, start, nodes[q].id) by {
                    assert forall|p: Seq<NodeId>| #[trigger] is_ref_path(nodes, p) && p[0] == start implies p.last()
                        != nodes[q].id by {
                        if p.len() > 1 {
                            assert(refs_of(nodes, p[0]).contains(p[1]));
                        }
                    }
                }
            }
            return marks;
        },
    };
    let ghost blank = marks@;
    marks.set(s, true);
    let mut queue: Vec<usize> = Vec::new();
    queue.push(s);
    let mut head: usize = 0;
    proof {
        assert forall|r: int| 0 <= r < n && marks@[r] implies queue@.contains(r as usize) by {
            if r != s {
                assert(!blank[r]);
            } else {
                assert(queue@[0] == s);
            }
        }
        assert(is_ref_path(nodes, seq![start]));
    }
    while head < queue.len()
        invariant
            nodes == func.arena@,
            distinct_ids(nodes),
            n == nodes.len(),
            marks@.len() == n,
            position_of(nodes, start, 0) == Some(s as int),
            s < n,
            marks@[s as int],
            head <= queue@.len(),
            queue@.len() <= n,
            forall|k: int| 0 <= k < queue@.len() ==> #[trigger] queue@[k] < n,
            forall|k: int| 0 <= k < queue@.len() ==> marks@[#[trigger] queue@[k] as int],
            forall|k: int| 0 <= k < queue@.len() ==> in_subgraph(nodes, start, nodes[#[trigger] queue@[k] as int].id),
            forall|q: int| 0 <= q < n && marks@[q] ==> queue@.contains(q as usize),
            forall|a: int, b: int| 0 <= a < b < queue@.len() ==> queue@[a] != queue@[b],
            marks_closed(nodes, marks@, queue@, head as int),
        decreases n - head,
    {
        let q = queue[head];
        let ins = input_nodes(&func.arena[q].kind);
        proof {
            lemma_kind_at(nodes, q as int);
        }
        let mut j: usize = 0;
        while j < ins.len()
            invariant
                nodes == func.arena@,
                distinct_ids(nodes),
                n == nodes.len(),
                marks@.len() == n,
                position_of(nodes, start, 0) == Some(s as int),
                s < n,
                marks@[s as int],
                head < queue@.len(),
                queue@.len() <= n,
                q == queue@[head as int],
                ins@ == spec_input_nodes(nodes[q as int].kind),
                refs_of(nodes, nodes[q as int].id) == ins@,
                j <= ins@.len(),
                forall|k: int| 0 <= k < queue@.len() ==> #[trigger] queue@[k] < n,
                forall|k: int| 0 <= k < queue@.len() ==> marks@[#[trigger] queue@[k] as int],
                forall|k: int| 0 <= k < queue@.len() ==> in_subgraph(nodes, start, nodes[#[trigger] queue@[k] as int].id),
                forall|r: int| 0 <= r < n && marks@[r] ==> queue@.contains(r as usize),
                forall|a: int, b: int| 0 <= a < b < queue@.len() ==> queue@[a] != queue@[b],
                marks_closed(nodes, marks@, queue@, head as int),
                forall|jj: int|
                    0 <= jj < j ==> (position_of(nodes, #[trigger] ins@[jj], 0) matches Some(pp) ==> 0 <= pp < n
                        && marks@[pp]),
            decreases ins@.len() - j,
        {
            let w = ins[j];
            proof {
                lemma_position_of(nodes, w, 0);
            }
            match find_node(&func.arena, w) {
                Some(p) => {
                    if !marks[p] {
                        let ghost old_queue = queue@;
                        let ghost old_marks = marks@;
                        marks.set(p, true);
                        queue.push(p);
                        proof {
                            let path = choose|path: Seq<NodeId>| #[trigger] is_ref_path(nodes, path) && path[0] == start
                                && path.last() == nodes[q as int].id;
                            assert(in_subgraph(nodes, start, nodes[queue@[head as int] as int].id));
                            assert(refs_of(nodes, path.last()).contains(w)) by {
                                assert(ins@[j as int] == w);
                            }
                            lemma_ref_path_push(nodes, path, w);
                            assert(nodes[p as int].id == w);
                            assert(in_subgraph(nodes, start, w));
                            assert forall|k: int| 0 <= k < queue@.len() implies in_subgraph(
                                nodes,
                                start,
                                nodes[#[trigger] queue@[k] as int].id,
                            ) by {
                                if k < old_queue.len() {
                                    assert(queue@[k] == old_queue[k]);
                                }
                            }
                            assert forall|r: int| 0 <= r < n && marks@[r] implies queue@.contains(r as usize) by {
                                if r != p {
                                    assert(old_marks[r]);
                                    let k = choose|k: int| 0 <= k < old_queue.len() && old_queue[k] == r as usize;
                                    assert(queue@[k] == old_queue[k]);
                                } else {
                                    assert(queue@[old_queue.len() as int] == p);
                                }
                            }
                            assert forall|a: int, b: int| 0 <= a < b < queue@.len() implies queue@[a] != queue@[b] by {
                                if b == old_queue.len() {
                                    assert(old_marks[old_queue[a] as int]);
                                }
                            }
                            lemma_distinct_below(queue@, n as nat);
                            assert(marks_closed(nodes, marks@, queue@, head as int)) by {
                                assert forall|k: int, jj: int|
                                    0 <= k < head && 0 <= jj < spec_input_nodes(nodes[queue@[k] as int].kind).len()
                                    implies (position_of(nodes, #[trigger] spec_input_nodes(nodes[queue@[k] as int].kind)[jj], 0)
                                    matches Some(pp) ==> 0 <= pp < marks@.len() && marks@[pp]) by {
                                    assert(queue@[k] == old_queue[k]);
                                    if position_of(nodes, spec_input_nodes(nodes[queue@[k] as int].kind)[jj], 0) is Some {
                                        assert(old_marks[position_of(nodes, spec_input_nodes(nodes[queue@[k] as int].kind)[jj], 0)->0]);
                                    }
                                }
                            }
                            assert forall|jj: int| 0 <= jj <= j implies (position_of(nodes, #[trigger] ins@[jj], 0) matches Some(pp)
                                ==> 0 <= pp < n && marks@[pp]) by {
                                if jj < j && position_of(nodes, ins@[jj], 0) is Some {
                                    assert(old_marks[position_of(nodes, ins@[jj], 0)->0]);
                                }
                            }
                        }
                    }
                },
                None => {},
            }
            j += 1;
        }
        head += 1;
        proof {
            assert(marks_closed(nodes, marks@, queue@, head as int)) by {
                assert forall|k: int, jj: int|
                    0 <= k < head && 0 <= jj < spec_input_nodes(nodes[queue@[k] as int].kind).len() implies (position_of(
                    nodes,
                    #[trigger] spec_input_nodes(nodes[queue@[k] as int].kind)[jj],
                    0,
                ) matches Some(pp) ==> 0 <= pp < marks@.len() && marks@[pp]) by {
                    if k == head - 1 {
                        assert(queue@[k] == q);
                        assert(ins@[jj] == spec_input_nodes(nodes[queue@[k] as int].kind)[jj]);
                    }
                }
            }
        }
    }
    proof {
        assert forall|r: int| 0 <= r < marks@.len() implies (marks@[r] <==> in_subgraph(nodes, start, nodes[r].id)) by {
            lemma_kind_at(nodes, r);
            if marks@[r] {
                let k = choose|k: int| 0 <= k < queue@.len() && queue@[k] == r as usize;
                assert(in_subgraph(nodes, start, nodes[queue@[k] as int].id));
            }
            if in_subgraph(nodes, start, nodes[r].id) {
                let p = choose|p: Seq<NodeId>| #[trigger] is_ref_path(nodes, p) && p[0] == start && p.last() == nodes[r].id;
                lemma_path_marked(nodes, start, marks@, queue@, p, p.len() - 1);
            }
        }
    }
    marks
}


// ── Loop patterns ───────────────────────────────────────────────────────

/// Whether a node kind is an equality or inequality comparison.
pub open spec fn is_eq_or_ne(k: NodeKind) -> bool {
    k is Eq || k is Ne
}

/// Whether the subgraph under some body node holds an `Eq` or `Ne` node
/// other than `termination`.
pub open spec fn body_has_comparison(nodes: Seq<Node>, body: Seq<NodeId>, termination: NodeId) -> bool {
    exists|b: int, q: int|
        0 <= b < body.len() && 0 <= q < nodes.len() && #[trigger] in_subgraph(nodes, body[b], nodes[q].id)
            && is_eq_or_ne(nodes[q].kind) && nodes[q].id != termination
}

/// Whether a node kind is a loop whose body compares (besides its
/// termination check).
pub open spec fn loop_with_comparison(nodes: Seq<Node>, k: NodeKind) -> bool {
    match k {
        NodeKind::Loop { body, termination, .. } => body_has_comparison(nodes, body@, termination),
        _ => false,
    }
}

/// Whether some loop of the arena has an `Eq` or `Ne` in its body that is
/// not its termination check.
pub open spec fn spec_find_loop_comparison(nodes: Seq<Node>) -> bool {
    exists|i: int| 0 <= i < nodes.len() && #[trigger] loop_with_comparison(nodes, nodes[i].kind)
}

fn marked_comparison(func: &Function, marks: &Vec<bool>, termination: NodeId) -> (r: bool)
    requires
        marks@.len() == func.arena@.len(),
    ensures
        r == exists|q: int|
            0 <= q < marks@.len() && #[trigger] marks@[q] && is_eq_or_ne(func.arena@[q].kind) && func.arena@[q].id
                != termination,
{
    let mut q: usize = 0;
    while q < marks.len()
        invariant
            marks@.len() == func.arena@.len(),
            q <= marks@.len(),
            forall|r: int|
                0 <= r < q ==> !(#[trigger] marks@[r] && is_eq_or_ne(func.arena@[r].kind) && func.arena@[r].id
                    != termination),
        decreases marks@.len() - q,
    {
        if marks[q] {
            let hit = match &func.arena[q].kind {
                NodeKind::Eq { .. } => true,
                NodeKind::Ne { .. } => true,
                _ => false,
            };
            if hit && func.arena[q].id != termination {
                assert(marks@[q as int]);
                return true;
            }
        }
        q += 1;
    }
    false
}

fn body_comparison(func: &Function, body: &Vec<NodeId>, termination: NodeId) -> (r: bool)
    requires
        distinct_ids(func.arena@),
    ensures
        r == body_has_comparison(func.arena@, body@, termination),
{
    let ghost nodes = func.arena@;
    let mut b: usize = 0;
    while b < body.len()
        invariant
            nodes == func.arena@,
            distinct_ids(nodes),
            b <= body@.len(),
            forall|bb: int, q: int|
                0 <= bb < b && 0 <= q < nodes.len() ==> !(#[trigger] in_subgraph(nodes, body@[bb], nodes[q].id)
                    && is_eq_or_ne(nodes[q].kind) && nodes[q].id != termination),
        decreases body@.len() - b,
    {
        let marks = collect_subgraph(func, body[b]);
        if marked_comparison(func, &marks, termination) {
            proof {
                let q = choose|q: int|
                    0 <= q < marks@.len() && #[trigger] marks@[q] && is_eq_or_ne(nodes[q].kind) && nodes[q].id
                        != termination;
                assert(in_subgraph(nodes, body@[b as int], nodes[q].id));
            }
            return true;
        }
        proof {
            assert forall|bb: int, r: int|
                0 <= bb <= b && 0 <= r < nodes.len() implies !(#[trigger] in_subgraph(nodes, body@[bb], nodes[r].id)
                && is_eq_or_ne(nodes[r].kind) && nodes[r].id != termination) by {
                if bb == b {
                    assert(!(marks@[r] && is_eq_or_ne(nodes[r].kind) && nodes[r].id != termination));
                }
            }
        }
        b += 1;
    }
    false
}

/// Whether some loop of the arena has an `Eq` or `Ne` in the subgraph of
/// its body that is not its termination check.
fn find_loop_comparison(func: &Function) -> (r: bool)
    requires
        distinct_ids(func.arena@),
    ensures
        r == spec_find_loop_comparison(func.arena@),
{
    let mut i: usize = 0;
    while i < func.arena.len()
        invariant
            distinct_ids(func.arena@),
            i <= func.arena@.len(),
            forall|k: int| 0 <= k < i ==> !#[trigger] loop_with_comparison(func.arena@, func.arena@[k].kind),
        decreases func.arena@.len() - i,
    {
        if let NodeKind::Loop { body, termination, .. } = &func.arena[i].kind {
            if body_comparison(func, body, *termination) {
                assert(loop_with_comparison(func.arena@, func.arena@[i as int].kind));
                return true;
            }
        }
        i += 1;
    }
    false
}

/// Whether a node kind is an AND-reduction step: a `Select` whose condition
/// is an `Eq` node and whose false value is the constant 0.
pub open spec fn is_and_select(nodes: Seq<Node>, k: NodeKind) -> bool {
    match k {
        NodeKind::Select { cond, false_val, .. } => (kind_of(nodes, cond) matches Some(NodeKind::Eq { .. }))
            && match kind_of(nodes, false_val) {
            Some(NodeKind::Constant(d)) => spec_as_u64(d) == Some(0u64),
            _ => false,
        },
        _ => false,
    }
}

/// Whether the subgraph under some body node holds an AND-reduction step.
pub open spec fn body_has_and_select(nodes: Seq<Node>, body: Seq<NodeId>) -> bool {
    exists|b: int, q: int|
        0 <= b < body.len() && 0 <= q < nodes.len() && #[trigger] in_subgraph(nodes, body[b], nodes[q].id)
            && is_and_select(nodes, nodes[q].kind)
}

pub open spec fn loop_with_and_select(nodes: Seq<Node>, k: NodeKind) -> bool {
    match k {
        NodeKind::Loop { body, .. } => body_has_and_select(nodes, body@),
        _ => false,
    }
}

/// Whether some loop implements an AND-reduction: a `Select` on an `Eq`
/// condition with false value 0 in the subgraph of its body.
pub open spec fn spec_and_reduction_pattern(nodes: Seq<Node>) -> bool {
    exists|i: int| 0 <= i < nodes.len() && #[trigger] loop_with_and_select(nodes, nodes[i].kind)
}

fn and_select_at(func: &Function, q: usize) -> (r: bool)
    requires
        q < func.arena@.len(),
    ensures
        r == is_and_select(func.arena@, func.arena@[q as int].kind),
{
    if let NodeKind::Select { cond, false_val, .. } = &func.arena[q].kind {
        let cond_is_eq = match func.get_node(*cond) {
            Some(cn) => match &cn.kind {
                NodeKind::Eq { .. } => true,
                _ => false,
            },
            None => false,
        };
        if !cond_is_eq {
            return false;
        }
        match func.get_node(*false_val) {
            Some(fv) => match &fv.kind {
                NodeKind::Constant(data) => match data.as_u64() {
                    Some(v) => v == 0,
                    None => false,
                },
                _ => false,
            },
            None => false,
        }
    } else {
        false
    }
}

fn body_and_select(func: &Function, body: &Vec<NodeId>) -> (r: bool)
    requires
        distinct_ids(func.arena@),
    ensures
        r == body_has_and_select(func.arena@, body@),
{
    let ghost nodes = func.arena@;
    let mut b: usize = 0;
    while b < body.len()
        invariant
            nodes == func.arena@,
            distinct_ids(nodes),
            b <= body@.len(),
            forall|bb: int, q: int|
                0 <= bb < b && 0 <= q < nodes.len() ==> !(#[trigger] in_subgraph(nodes, body@[bb], nodes[q].id)
                    && is_and_select(nodes, nodes[q].kind)),
        decreases body@.len() - b,
    {
        let marks = collect_subgraph(func, body[b]);
        let mut q: usize = 0;
        while q < marks.len()
            invariant
                nodes == func.arena@,
                marks@.len() == nodes.len(),
                b < body@.len(),
                q <= marks@.len(),
                forall|r: int| 0 <= r < marks@.len() ==> (marks@[r] <==> in_subgraph(nodes, body@[b as int], nodes[r].id)),
                forall|r: int| 0 <= r < q ==> !(#[trigger] marks@[r] && is_and_select(nodes, nodes[r].kind)),
            decreases marks@.len() - q,
        {
            if marks[q] && and_select_at(func, q) {
                assert(in_subgraph(nodes, body@[b as int], nodes[q as int].id));
                return true;
            }
            q += 1;
        }
        proof {
            assert forall|bb: int, r: int|
                0 <= bb <= b && 0 <= r < nodes.len() implies !(#[trigger] in_subgraph(nodes, body@[bb], nodes[r].id)
                && is_and_select(nodes, nodes[r].kind)) by {
                if bb == b {
                    assert(!(marks@[r] && is_and_select(nodes, nodes[r].kind)));
                }
            }
        }
        b += 1;
    }
    false
}

/// Whether some loop implements an AND-reduction (see
/// `spec_and_reduction_pattern`).
fn check_and_reduction_pattern(func: &Function) -> (r: bool)
    requires
        distinct_ids(func.arena@),
    ensures
        r == spec_and_reduction_pattern(func.arena@),
{
    let mut i: usize = 0;
    while i < func.arena.len()
        invariant
            distinct_ids(func.arena@),
            i <= func.arena@.len(),
            forall|k: int| 0 <= k < i ==> !#[trigger] loop_with_and_select(func.arena@, func.arena@[k].kind),
        decreases func.arena@.len() - i,
    {
        if let NodeKind::Loop { body, .. } = &func.arena[i].kind {
            if body_and_select(func, body) {
                assert(loop_with_and_select(func.arena@, func.arena@[i as int].kind));
                return true;
            }
        }
        i += 1;
    }
    false
}


// ── Plans ───────────────────────────────────────────────────────────────

/// The predicate read off the first `Eq` node of `ids` from position `i`
/// on: `(x & mask) == target` when its left side is an `And`, `x == target`
/// otherwise.
pub open spec fn predicate_in(func: Function, ids: Seq<NodeId>, i: int) -> Option<PredicateView>
    decreases ids.len() - i,
{
    if i < 0 || i >= ids.len() {
        None
    } else {
        match kind_of(func.arena@, ids[i]) {
            Some(NodeKind::Eq { lhs, rhs }) => match kind_of(func.arena@, lhs) {
                Some(NodeKind::And { rhs: mask, .. }) => Some(
                    PredicateView::MaskedEqual {
                        mask: spec_resolve_value(func, mask),
                        target: spec_resolve_value(func, rhs),
                    },
                ),
                _ => Some(PredicateView::Equal(spec_resolve_value(func, rhs))),
            },
            _ => predicate_in(func, ids, i + 1),
        }
    }
}

/// The predicate a truth's provenance shows: only physical nodes show one.
pub open spec fn spec_extract_predicate(func: Function, p: Provenance) -> Option<PredicateView> {
    match p {
        Provenance::Physical { nodes } => predicate_in(func, nodes@, 0),
        Provenance::Other => None,
    }
}

fn extract_predicate(func: &Function, provenance: &Provenance) -> (r: Option<VectorPredicate>)
    ensures
        predicate_view(r) == spec_extract_predicate(*func, *provenance),
{
    let nodes = match provenance {
        Provenance::Physical { nodes } => nodes,
        Provenance::Other => return None,
    };
    assert(spec_extract_predicate(*func, *provenance) == predicate_in(*func, nodes@, 0));
    let mut i: usize = 0;
    while i < nodes.len()
        invariant
            i <= nodes@.len(),
            spec_extract_predicate(*func, *provenance) == predicate_in(*func, nodes@, 0),
            predicate_in(*func, nodes@, 0) == predicate_in(*func, nodes@, i as int),
        decreases nodes@.len() - i,
    {
        if let Some(node) = func.get_node(nodes[i]) {
            if let NodeKind::Eq { lhs, rhs } = &node.kind {
                if let Some(lhs_node) = func.get_node(*lhs) {
                    if let NodeKind::And { rhs: and_rhs, .. } = &lhs_node.kind {
                        let mask = resolve_value(func, *and_rhs);
                        let target = resolve_value(func, *rhs);
                        return Some(VectorPredicate::MaskedEqual { mask, target });
                    }
                }
                let target = resolve_value(func, *rhs);
                return Some(VectorPredicate::Equal(target));
            }
        }
        i += 1;
    }
    None
}

/// A primitive plan over parameters 0 (the buffer) and 1 (the length),
/// 32-byte vectors with a narrower-vector tail.
pub open spec fn primitive_plan(func: Function, op: VectorOp, predicate: Option<PredicateView>) -> PlanView {
    PlanView {
        operation: op,
        buffer_name: spec_param_name(func, NodeId { id: 0 }),
        length_name: spec_param_name(func, NodeId { id: 1 }),
        predicate,
        vector_width: 32,
        tail: TailPolicy::NarrowerVector,
    }
}

/// A primitive plan whose predicate comes from the first `PredicateMap`
/// truth; none without such a truth.
pub open spec fn predicated_plan(func: Function, truths: Seq<SemanticTruth>, op: VectorOp) -> Option<PlanView> {
    match first_truth_from(truths, SemanticConcept::PredicateMap, 0) {
        Some(i) => Some(primitive_plan(func, op, spec_extract_predicate(func, truths[i].provenance))),
        None => None,
    }
}

fn primitive(func: &Function, operation: VectorOp, predicate: Option<VectorPredicate>) -> (p: VectorPlan)
    ensures
        p@ == primitive_plan(*func, operation, predicate_view(predicate)),
{
    VectorPlan {
        operation,
        buffer_name: param_name(func, NodeId::new(0)),
        length_name: param_name(func, NodeId::new(1)),
        predicate,
        vector_width: 32,
        tail: TailPolicy::NarrowerVector,
    }
}

fn predicated(func: &Function, truths: &[SemanticTruth], operation: VectorOp) -> (r: Option<VectorPlan>)
    ensures
        plan_view(r) == predicated_plan(*func, truths@, operation),
{
    let i = match find_concept(truths, SemanticConcept::PredicateMap) {
        Some(i) => i,
        None => return None,
    };
    let predicate = extract_predicate(func, &truths[i].provenance);
    Some(primitive(func, operation, predicate))
}

/// Cardinality plan: count of the bytes satisfying the predicate of the
/// first `PredicateMap` truth.
fn derive_cardinality_plan(func: &Function, truths: &[SemanticTruth]) -> (r: Option<VectorPlan>)
    ensures
        plan_view(r) == predicated_plan(*func, truths@, VectorOp::Cardinality),
{
    predicated(func, truths, VectorOp::Cardinality)
}

/// Sum plan: the sum of the bytes.
fn derive_sum_plan(func: &Function) -> (r: Option<VectorPlan>)
    ensures
        plan_view(r) == Some(primitive_plan(*func, VectorOp::Sum, Some(PredicateView::Identity))),
{
    Some(primitive(func, VectorOp::Sum, Some(VectorPredicate::Identity)))
}

/// All plan: whether every byte satisfies the predicate of the first
/// `PredicateMap` truth.
fn derive_all_plan(func: &Function, truths: &[SemanticTruth]) -> (r: Option<VectorPlan>)
    ensures
        plan_view(r) == predicated_plan(*func, truths@, VectorOp::All),
{
    predicated(func, truths, VectorOp::All)
}

/// The primitive plan recognized for a function from its truths:
/// - a cardinality reduction with a comparison inside a loop body counts;
/// - a sum reduction, or a cardinality reduction with no comparison inside
///   a loop body (a sum misread as a count), sums;
/// - a conjunctive reduction, or a predicate map over a loop that
///   implements an AND-reduction, tests all bytes;
/// - anything else has no plan.
pub open spec fn spec_derive_vector_plan(func: Function, truths: Seq<SemanticTruth>) -> Option<PlanView> {
    let cardinality = has_concept(truths, SemanticConcept::CardinalityReduction);
    let comparison = spec_find_loop_comparison(func.arena@);
    if cardinality && comparison {
        predicated_plan(func, truths, VectorOp::Cardinality)
    } else if has_concept(truths, SemanticConcept::SumReduction) || cardinality {
        Some(primitive_plan(func, VectorOp::Sum, Some(PredicateView::Identity)))
    } else if has_concept(truths, SemanticConcept::ConjunctiveReduction) {
        predicated_plan(func, truths, VectorOp::All)
    } else if has_concept(truths, SemanticConcept::PredicateMap) && spec_and_reduction_pattern(func.arena@) {
        predicated_plan(func, truths, VectorOp::All)
    } else {
        None
    }
}

/// The primitive vector plan of a single-loop function, from the truths
/// derived for it (see `spec_derive_vector_plan`).
pub fn derive_vector_plan(func: &Function, truths: &[SemanticTruth]) -> (r: Option<VectorPlan>)
    requires
        distinct_ids(func.arena@),
    ensures
        plan_view(r) == spec_derive_vector_plan(*func, truths@),
{
    let has_cardinality = any_concept(truths, SemanticConcept::CardinalityReduction);
    let has_conjunctive = any_concept(truths, SemanticConcept::ConjunctiveReduction);
    let has_predicate_map = any_concept(truths, SemanticConcept::PredicateMap);
    let has_sum = any_concept(truths, SemanticConcept::SumReduction);
    let loop_body_has_comparison = find_loop_comparison(func);
    if has_cardinality && loop_body_has_comparison {
        return derive_cardinality_plan(func, truths);
    }
    if has_sum {
        return derive_sum_plan(func);
    }
    if has_cardinality && !loop_body_has_comparison {
        return derive_sum_plan(func);
    }
    if has_conjunctive {
        return derive_all_plan(func, truths);
    }
    if has_predicate_map {
        if check_and_reduction_pattern(func) {
            return derive_all_plan(func, truths);
        }
    }
    None
}


// ── The traversal of a loop region ──────────────────────────────────────

/// One step of the buffer search: an array access makes its base the
/// buffer; a load makes its pointer the buffer when none is set yet.
pub open spec fn buffer_step(buffer: Option<NodeId>, k: NodeKind) -> Option<NodeId> {
    match k {
        NodeKind::ArrayAccess { base, .. } => Some(base),
        NodeKind::Load { ptr } => if buffer is None {
            Some(ptr)
        } else {
            buffer
        },
        _ => buffer,
    }
}

/// The buffer after visiting, in arena order, the nodes below position `q`
/// of the subgraph under `start`.
pub open spec fn scan_subgraph(nodes: Seq<Node>, start: NodeId, buffer: Option<NodeId>, q: int) -> Option<NodeId>
    decreases q,
{
    if q <= 0 {
        buffer
    } else {
        let before = scan_subgraph(nodes, start, buffer, q - 1);
        if in_subgraph(nodes, start, nodes[q - 1].id) {
            buffer_step(before, nodes[q - 1].kind)
        } else {
            before
        }
    }
}

/// The buffer after visiting the subgraphs under the first `b` body nodes,
/// one after the other.
pub open spec fn scan_body(nodes: Seq<Node>, body: Seq<NodeId>, b: int) -> Option<NodeId>
    decreases b,
{
    if b <= 0 {
        None
    } else {
        scan_subgraph(nodes, body[b - 1], scan_body(nodes, body, b - 1), nodes.len() as int)
    }
}

/// The buffer a loop body traverses.
pub open spec fn body_buffer(nodes: Seq<Node>, body: Seq<NodeId>) -> Option<NodeId> {
    scan_body(nodes, body, body.len() as int)
}

fn scan_buffer(func: &Function, body: &Vec<NodeId>) -> (r: Option<NodeId>)
    requires
        distinct_ids(func.arena@),
    ensures
        r == body_buffer(func.arena@, body@),
{
    let ghost nodes = func.arena@;
    let mut buffer: Option<NodeId> = None;
    let mut b: usize = 0;
    while b < body.len()
        invariant
            nodes == func.arena@,
            distinct_ids(nodes),
            b <= body@.len(),
            buffer == scan_body(nodes, body@, b as int),
        decreases body@.len() - b,
    {
        let marks = collect_subgraph(func, body[b]);
        let ghost before = buffer;
        let mut q: usize = 0;
        while q < marks.len()
            invariant
                nodes == func.arena@,
                marks@.len() == nodes.len(),
                b < body@.len(),
                q <= marks@.len(),
                before == scan_body(nodes, body@, b as int),
                forall|r: int| 0 <= r < marks@.len() ==> (marks@[r] <==> in_subgraph(nodes, body@[b as int], nodes[r].id)),
                buffer == scan_subgraph(nodes, body@[b as int], before, q as int),
            decreases marks@.len() - q,
        {
            if marks[q] {
                match &func.arena[q].kind {
                    NodeKind::ArrayAccess { base, .. } => {
                        buffer = Some(*base);
                    },
                    NodeKind::Load { ptr } => {
                        if buffer.is_none() {
                            buffer = Some(*ptr);
                        }
                    },
                    _ => {},
                }
            }
            q += 1;
        }
        b += 1;
    }
    buffer
}

/// The traversal (buffer and length expressions) of the first loop, at or
/// after position `i`, whose termination is a `Lt`: the buffer its body
/// traverses and the bound of the `Lt`, both resolved as traversal values.
/// A loop whose termination node the arena lacks ends the search with none.
pub open spec fn traversal_from(func: Function, i: int) -> Option<(Seq<char>, Seq<char>)>
    decreases func.arena@.len() - i,
{
    if i < 0 || i >= func.arena@.len() {
        None
    } else {
        match func.arena@[i].kind {
            NodeKind::Loop { body, termination, .. } => match kind_of(func.arena@, termination) {
                None => None,
                Some(NodeKind::Lt { rhs, .. }) => match body_buffer(func.arena@, body@) {
                    None => None,
                    Some(buf) => match (spec_resolve_traversal_value(func, buf), spec_resolve_traversal_value(func, rhs)) {
                        (Some(b), Some(l)) => Some((b, l)),
                        _ => None,
                    },
                },
                Some(_) => traversal_from(func, i + 1),
            },
            _ => traversal_from(func, i + 1),
        }
    }
}

/// The buffer and length expressions of the loop region, read from its own
/// structure (see `traversal_from`).
fn region_traversal(func: &Function) -> (r: Option<(String, String)>)
    requires
        distinct_ids(func.arena@),
    ensures
        match r {
            Some((b, l)) => traversal_from(*func, 0) == Some((b@, l@)),
            None => traversal_from(*func, 0) is None,
        },
{
    let mut i: usize = 0;
    while i < func.arena.len()
        invariant
            distinct_ids(func.arena@),
            i <= func.arena@.len(),
            traversal_from(*func, 0) == traversal_from(*func, i as int),
        decreases func.arena@.len() - i,
    {
        if let NodeKind::Loop { body, termination, .. } = &func.arena[i].kind {
            let term = match func.get_node(*termination) {
                Some(t) => t,
                None => return None,
            };
            if let NodeKind::Lt { rhs, .. } = &term.kind {
                let len_node = *rhs;
                let buffer = match scan_buffer(func, body) {
                    Some(b) => b,
                    None => return None,
                };
                let buffer = match resolve_traversal_value(func, buffer) {
                    Some(s) => s,
                    None => return None,
                };
                let length = match resolve_traversal_value(func, len_node) {
                    Some(s) => s,
                    None => return None,
                };
                return Some((buffer, length));
            }
        }
        i += 1;
    }
    None
}

/// The plan for a loop region: the primitive plan, with its buffer and
/// length read from the region's own loop where they can be.
pub open spec fn spec_derive_vector_plan_for_region(func: Function, truths: Seq<SemanticTruth>) -> Option<PlanView> {
    match spec_derive_vector_plan(func, truths) {
        None => None,
        Some(p) => match traversal_from(func, 0) {
            Some((b, l)) => Some(
                PlanView {
                    operation: p.operation,
                    buffer_name: b,
                    length_name: l,
                    predicate: p.predicate,
                    vector_width: p.vector_width,
                    tail: p.tail,
                },
            ),
            None => Some(p),
        },
    }
}

/// The primitive plan of a loop region, with the buffer and length
/// resolved from the region itself rather than from parameter positions 0
/// and 1 (see `spec_derive_vector_plan_for_region`).
pub fn derive_vector_plan_for_region(func: &Function, truths: &[SemanticTruth]) -> (r: Option<VectorPlan>)
    requires
        distinct_ids(func.arena@),
    ensures
        plan_view(r) == spec_derive_vector_plan_for_region(*func, truths@),
{
    let mut plan = match derive_vector_plan(func, truths) {
        Some(p) => p,
        None => return None,
    };
    if let Some((buffer, length)) = region_traversal(func) {
        plan.buffer_name = buffer;
        plan.length_name = length;
    }
    Some(plan)
}


// ── What the buffer search finds ────────────────────────────────────────

/// Whether a node of kind `k` can make `x` the buffer: an array access with
/// base `x`, or a load through `x`.
pub open spec fn feeds_buffer(k: NodeKind, x: NodeId) -> bool {
    (k matches NodeKind::ArrayAccess { base, .. } && base == x) || (k matches NodeKind::Load { ptr } && ptr == x)
}

/// Whether `k` is an array access with base `x`.
pub open spec fn access_base(k: NodeKind, x: NodeId) -> bool {
    k matches NodeKind::ArrayAccess { base, .. } && base == x
}

proof fn lemma_scan_subgraph(nodes: Seq<Node>, start: NodeId, buf: Option<NodeId>, q: int)
    requires
        0 <= q <= nodes.len(),
    ensures
        scan_subgraph(nodes, start, buf, q) matches Some(x) ==> scan_subgraph(nodes, start, buf, q) == buf
            || exists|p: int|
            0 <= p < q && #[trigger] in_subgraph(nodes, start, nodes[p].id) && feeds_buffer(nodes[p].kind, x),
        (exists|p: int| 0 <= p < q && #[trigger] in_subgraph(nodes, start, nodes[p].id) && nodes[p].kind is ArrayAccess)
            ==> (scan_subgraph(nodes, start, buf, q) matches Some(x) && exists|p: int|
            0 <= p < q && #[trigger] in_subgraph(nodes, start, nodes[p].id) && access_base(nodes[p].kind, x)),
        !(exists|p: int| 0 <= p < q && #[trigger] in_subgraph(nodes, start, nodes[p].id) && nodes[p].kind is ArrayAccess)
            ==> (buf is Some ==> scan_subgraph(nodes, start, buf, q) == buf),
        (buf is Some || exists|p: int|
            0 <= p < q && #[trigger] in_subgraph(nodes, start, nodes[p].id) && (nodes[p].kind is ArrayAccess
                || nodes[p].kind is Load)) ==> scan_subgraph(nodes, start, buf, q) is Some,
    decreases q,
{
    if q > 0 {
        lemma_scan_subgraph(nodes, start, buf, q - 1);
        let before = scan_subgraph(nodes, start, buf, q - 1);
        let r = scan_subgraph(nodes, start, buf, q);
        let k = nodes[q - 1].kind;
        if in_subgraph(nodes, start, nodes[q - 1].id) {
            if k is ArrayAccess {
                assert(access_base(k, r->0));
                assert(feeds_buffer(k, r->0));
            } else if k is Load && before is None {
                assert(feeds_buffer(k, r->0));
            }
        }
        if r is Some && r != buf {
            if r != before {
                assert(in_subgraph(nodes, start, nodes[q - 1].id) && feeds_buffer(k, r->0));
            }
        }
        if exists|p: int| 0 <= p < q && #[trigger] in_subgraph(nodes, start, nodes[p].id) && nodes[p].kind is ArrayAccess {
            if !(in_subgraph(nodes, start, nodes[q - 1].id) && k is ArrayAccess) {
                let p = choose|p: int| 0 <= p < q && #[trigger] in_subgraph(nodes, start, nodes[p].id) && nodes[p].kind is ArrayAccess;
                assert(p < q - 1);
            }
        }
        if exists|p: int|
            0 <= p < q && #[trigger] in_subgraph(nodes, start, nodes[p].id) && (nodes[p].kind is ArrayAccess
                || nodes[p].kind is Load) {
            let p = choose|p: int|
                0 <= p < q && #[trigger] in_subgraph(nodes, start, nodes[p].id) && (nodes[p].kind is ArrayAccess
                    || nodes[p].kind is Load);
            if p < q - 1 {
                assert(before is Some);
            }
        }
    }
}

proof fn lemma_scan_body(nodes: Seq<Node>, body: Seq<NodeId>, b: int)
    requires
        0 <= b <= body.len(),
    ensures
        scan_body(nodes, body, b) matches Some(x) ==> exists|bb: int, p: int|
            0 <= bb < b && 0 <= p < nodes.len() && #[trigger] in_subgraph(nodes, body[bb], nodes[p].id)
                && feeds_buffer(nodes[p].kind, x),
        (exists|bb: int, p: int|
            0 <= bb < b && 0 <= p < nodes.len() && #[trigger] in_subgraph(nodes, body[bb], nodes[p].id)
                && nodes[p].kind is ArrayAccess) ==> (scan_body(nodes, body, b) matches Some(x) && exists|bb: int, p: int|
            0 <= bb < b && 0 <= p < nodes.len() && #[trigger] in_subgraph(nodes, body[bb], nodes[p].id)
                && access_base(nodes[p].kind, x)),
        (exists|bb: int, p: int|
            0 <= bb < b && 0 <= p < nodes.len() && #[trigger] in_subgraph(nodes, body[bb], nodes[p].id)
                && (nodes[p].kind is ArrayAccess || nodes[p].kind is Load)) ==> scan_body(nodes, body, b) is Some,
    decreases b,
{
    if b > 0 {
        lemma_scan_body(nodes, body, b - 1);
        let before = scan_body(nodes, body, b - 1);
        let start = body[b - 1];
        let n = nodes.len() as int;
        lemma_scan_subgraph(nodes, start, before, n);
        let r = scan_body(nodes, body, b);
        assert(r == scan_subgraph(nodes, start, before, n));
        if r is Some {
            if r == before {
                let (bb, p) = choose|bb: int, p: int|
                    0 <= bb < b - 1 && 0 <= p < nodes.len() && #[trigger] in_subgraph(nodes, body[bb], nodes[p].id)
                        && feeds_buffer(nodes[p].kind, r->0);
                assert(in_subgraph(nodes, body[bb], nodes[p].id));
            } else {
                let p = choose|p: int| 0 <= p < n && #[trigger] in_subgraph(nodes, start, nodes[p].id) && feeds_buffer(nodes[p].kind, r->0);
                assert(in_subgraph(nodes, body[b - 1], nodes[p].id));
            }
        }
        if exists|p: int| 0 <= p < n && #[trigger] in_subgraph(nodes, start, nodes[p].id) && nodes[p].kind is ArrayAccess {
            let p = choose|p: int| 0 <= p < n && #[trigger] in_subgraph(nodes, start, nodes[p].id) && access_base(nodes[p].kind, r->0);
            assert(in_subgraph(nodes, body[b - 1], nodes[p].id));
        } else if exists|bb: int, p: int|
            0 <= bb < b && 0 <= p < nodes.len() && #[trigger] in_subgraph(nodes, body[bb], nodes[p].id)
                && nodes[p].kind is ArrayAccess {
            let (bb, p) = choose|bb: int, p: int|
                0 <= bb < b && 0 <= p < nodes.len() && #[trigger] in_subgraph(nodes, body[bb], nodes[p].id)
                    && nodes[p].kind is ArrayAccess;
            if bb == b - 1 {
                assert(in_subgraph(nodes, start, nodes[p].id));
            }
            assert(bb < b - 1);
            assert(r == before);
        }
        if exists|bb: int, p: int|
            0 <= bb < b && 0 <= p < nodes.len() && #[trigger] in_subgraph(nodes, body[bb], nodes[p].id)
                && (nodes[p].kind is ArrayAccess || nodes[p].kind is Load) {
            let (bb, p) = choose|bb: int, p: int|
                0 <= bb < b && 0 <= p < nodes.len() && #[trigger] in_subgraph(nodes, body[bb], nodes[p].id)
                    && (nodes[p].kind is ArrayAccess || nodes[p].kind is Load);
            if bb == b - 1 {
                assert(in_subgraph(nodes, start, nodes[p].id));
            } else {
                assert(before is Some);
            }
        }
    }
}

/// The buffer a loop body traverses is the base of an array access or
/// the pointer of a load in the subgraph under one of its body nodes; the
/// base of an array access whenever such a subgraph holds one; and there is
/// one whenever such a subgraph holds an array access or a load.
pub proof fn law_body_buffer_found(nodes: Seq<Node>, body: Seq<NodeId>)
    ensures
        body_buffer(nodes, body) matches Some(x) ==> exists|b: int, q: int|
            0 <= b < body.len() && 0 <= q < nodes.len() && #[trigger] in_subgraph(nodes, body[b], nodes[q].id)
                && feeds_buffer(nodes[q].kind, x),
        (exists|b: int, q: int|
            0 <= b < body.len() && 0 <= q < nodes.len() && #[trigger] in_subgraph(nodes, body[b], nodes[q].id)
                && nodes[q].kind is ArrayAccess) ==> (body_buffer(nodes, body) matches Some(x) && exists|b: int, q: int|
            0 <= b < body.len() && 0 <= q < nodes.len() && #[trigger] in_subgraph(nodes, body[b], nodes[q].id)
                && access_base(nodes[q].kind, x)),
        (exists|b: int, q: int|
            0 <= b < body.len() && 0 <= q < nodes.len() && #[trigger] in_subgraph(nodes, body[b], nodes[q].id)
                && (nodes[q].kind is ArrayAccess || nodes[q].kind is Load)) ==> body_buffer(nodes, body) is Some,
{
    lemma_scan_body(nodes, body, body.len() as int);
}


/// A region's plan is the primitive plan with, at most, another buffer and
/// length: there is one exactly when there is a primitive plan, and it
/// computes the same reduction with the same predicate, vector width and
/// tail.
pub proof fn law_region_plan_same_primitive(func: Function, truths: Seq<SemanticTruth>)
    ensures
        spec_derive_vector_plan_for_region(func, truths) is Some <==> spec_derive_vector_plan(func, truths) is Some,
        spec_derive_vector_plan_for_region(func, truths) matches Some(r) ==> ({
            let p = spec_derive_vector_plan(func, truths)->0;
            &&& r.operation == p.operation
            &&& r.predicate == p.predicate
            &&& r.vector_width == p.vector_width
            &&& r.tail == p.tail
        }),
{
}

} // verus!
