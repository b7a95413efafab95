//! Escape analysis helpers.
use vstd::prelude::*;
use crate::facts::{EscapeKind, EscapeFact};
use crate::ir::{Function, Node, NodeId, NodeKind, distinct_ids, position_of, find_node};
use crate::graph::{spec_dataflow_inputs, dataflow_inputs, reaches, is_path, inputs_of};
use crate::factmap::{FactMap, assoc_map, distinct_keys, lemma_assoc_update, lemma_assoc_dom, lemma_assoc_at};

verus! {

/// Severity order of escape kinds: never < captured < stored globally <
/// passed externally < returned.
pub open spec fn severity(k: EscapeKind) -> nat {
    match k {
        EscapeKind::NeverEscapes => 0,
        EscapeKind::Captured => 1,
        EscapeKind::StoredGlobally => 2,
        EscapeKind::PassedExternally => 3,
        EscapeKind::Returned => 4,
    }
}

/// The more severe of two escape kinds (the first on a tie).
pub open spec fn spec_merge_escape(a: EscapeKind, b: EscapeKind) -> EscapeKind {
    if severity(a) >= severity(b) {
        a
    } else {
        b
    }
}

fn severity_of(k: &EscapeKind) -> (s: u8)
    ensures
        s as nat == severity(*k),
{
    match k {
        EscapeKind::NeverEscapes => 0,
        EscapeKind::Captured => 1,
        EscapeKind::StoredGlobally => 2,
        EscapeKind::PassedExternally => 3,
        EscapeKind::Returned => 4,
    }
}

/// Merges two escape kinds, taking the more severe one.
pub fn merge_escape(a: EscapeKind, b: EscapeKind) -> (r: EscapeKind)
    ensures
        r == spec_merge_escape(a, b),
{
    if severity_of(&a) >= severity_of(&b) {
        a
    } else {
        b
    }
}

/// Merging escape kinds is a join: commutative, associative, idempotent,
/// with `NeverEscapes` as identity and `Returned` absorbing; the result is
/// one of the inputs and is at least as severe as both.
pub proof fn law_merge_escape_join(a: EscapeKind, b: EscapeKind, c: EscapeKind)
    ensures
        spec_merge_escape(a, b) == spec_merge_escape(b, a),
        spec_merge_escape(spec_merge_escape(a, b), c) == spec_merge_escape(a, spec_merge_escape(b, c)),
        spec_merge_escape(a, a) == a,
        spec_merge_escape(EscapeKind::NeverEscapes, a) == a,
        spec_merge_escape(EscapeKind::Returned, a) == EscapeKind::Returned,
        spec_merge_escape(a, b) == a || spec_merge_escape(a, b) == b,
        severity(spec_merge_escape(a, b)) >= severity(a),
        severity(spec_merge_escape(a, b)) >= severity(b),
{
}

} // verus!

verus! {

// ── Escape analysis ─────────────────────────────────────────────────────

/// The escape points a node kind sets directly: a returned value is
/// returned, a stored value is stored globally, arguments of external
/// calls and intrinsics are passed externally, carried loop inputs are
/// captured.
pub open spec fn escape_marks(kind: NodeKind) -> Seq<(NodeId, EscapeKind)> {
    match kind {
        NodeKind::Return { value } => seq![(value, EscapeKind::Returned)],
        NodeKind::Store { value, .. } => seq![(value, EscapeKind::StoredGlobally)],
        NodeKind::ExternalCall { args, .. } => args@.map_values(|a: NodeId| (a, EscapeKind::PassedExternally)),
        NodeKind::Intrinsic { args, .. } => args@.map_values(|a: NodeId| (a, EscapeKind::PassedExternally)),
        NodeKind::Loop { carried_inputs, .. } => carried_inputs@.map_values(|a: NodeId| (a, EscapeKind::Captured)),
        _ => Seq::empty(),
    }
}

/// The escape points of `nodes`, in order.
pub open spec fn all_marks(nodes: Seq<Node>) -> Seq<(NodeId, EscapeKind)>
    decreases nodes.len(),
{
    if nodes.len() == 0 {
        Seq::empty()
    } else {
        all_marks(nodes.drop_last()) + escape_marks(nodes.last().kind)
    }
}

/// The escape kinds before propagation: every node never escapes, then
/// each escape point, in arena order, sets its value's kind (a later one
/// overriding an earlier one).
#[verifier::opaque]
pub open spec fn initial_escapes(nodes: Seq<Node>) -> Map<NodeId, EscapeKind> {
    assoc_map(nodes.map_values(|n: Node| (n.id, EscapeKind::NeverEscapes)) + all_marks(nodes))
}

/// Whether every operand of every node is a node of the arena.
pub open spec fn closed_arena(nodes: Seq<Node>) -> bool {
    forall|i: int, j: int|
        0 <= i < nodes.len() && 0 <= j < spec_dataflow_inputs(nodes[i].kind).len() ==> exists|k: int|
            0 <= k < nodes.len() && nodes[k].id == #[trigger] spec_dataflow_inputs(nodes[i].kind)[j]
}

/// Sum of the remaining severity headroom of `s`.
pub open spec fn headroom(s: Seq<EscapeKind>) -> nat
    decreases s.len(),
{
    if s.len() == 0 {
        0
    } else {
        headroom(s.drop_last()) + (4 - severity(s.last())) as nat
    }
}

proof fn lemma_headroom_update(s: Seq<EscapeKind>, k: int, v: EscapeKind)
    requires
        0 <= k < s.len(),
    ensures
        headroom(s.update(k, v)) + severity(v) == headroom(s) + severity(s[k]),
    decreases s.len(),
{
    let t = s.update(k, v);
    if k == s.len() - 1 {
        assert(t.drop_last() =~= s.drop_last());
    } else {
        assert(t.drop_last() =~= s.drop_last().update(k, v));
        lemma_headroom_update(s.drop_last(), k, v);
    }
}

pub open spec fn zip_facts(keys: Seq<NodeId>, kinds: Seq<EscapeKind>) -> Seq<(NodeId, EscapeKind)> {
    Seq::new(keys.len(), |i: int| (keys[i], kinds[i]))
}

pub open spec fn distinct_node_ids(s: Seq<NodeId>) -> bool {
    forall|i: int, j: int| 0 <= i < j < s.len() ==> s[i] != s[j]
}

fn index_of_key(keys: &Vec<NodeId>, x: NodeId) -> (r: Option<usize>)
    ensures
        match r {
            Some(k) => k < keys@.len() && keys@[k as int] == x,
            None => !keys@.contains(x),
        },
{
    let mut i: usize = 0;
    while i < keys.len()
        invariant
            i <= keys@.len(),
            forall|k: int| 0 <= k < i ==> keys@[k] != x,
        decreases keys@.len() - i,
    {
        if keys[i] == x {
            return Some(i);
        }
        i += 1;
    }
    None
}

/// Sets the kind of arena node `x`.
fn set_kind(ids: &Vec<NodeId>, kinds: &mut Vec<EscapeKind>, x: NodeId, v: EscapeKind)
    requires
        ids@.len() == old(kinds)@.len(),
        distinct_node_ids(ids@),
        ids@.contains(x),
    ensures
        final(kinds)@.len() == old(kinds)@.len(),
        keyed_map(ids@, final(kinds)@) == keyed_map(ids@, old(kinds)@).insert(x, v),
{
    reveal(keyed_map);
    let ghost z0 = zip_facts(ids@, kinds@);
    match index_of_key(ids, x) {
        Some(k) => {
            proof {
                assert(distinct_keys(z0));
                lemma_assoc_update(z0, k as int, v);
            }
            kinds.set(k, v);
            assert(zip_facts(ids@, kinds@) =~= z0.update(k as int, (z0[k as int].0, v)));
        },
        None => {
            assert(false);
        },
    }
}

} // verus!

verus! {

fn marks_of(kind: &NodeKind) -> (m: Vec<(NodeId, EscapeKind)>)
    ensures
        m@ == escape_marks(*kind),
{
    let mut m: Vec<(NodeId, EscapeKind)> = Vec::new();
    match kind {
        NodeKind::Return { value } => {
            m.push((*value, EscapeKind::Returned));
            assert(m@ =~= escape_marks(*kind));
        },
        NodeKind::Store { value, .. } => {
            m.push((*value, EscapeKind::StoredGlobally));
            assert(m@ =~= escape_marks(*kind));
        },
        NodeKind::ExternalCall { args, .. } | NodeKind::Intrinsic { args, .. } => {
            let mut i: usize = 0;
            while i < args.len()
                invariant
                    i <= args@.len(),
                    m@ == args@.subrange(0, i as int).map_values(|a: NodeId| (a, EscapeKind::PassedExternally)),
                decreases args@.len() - i,
            {
                m.push((args[i], EscapeKind::PassedExternally));
                i += 1;
                assert(m@ =~= args@.subrange(0, i as int).map_values(|a: NodeId| (a, EscapeKind::PassedExternally)));
            }
            assert(args@.subrange(0, args@.len() as int) =~= args@);
        },
        NodeKind::Loop { carried_inputs, .. } => {
            let mut i: usize = 0;
            while i < carried_inputs.len()
                invariant
                    i <= carried_inputs@.len(),
                    m@ == carried_inputs@.subrange(0, i as int).map_values(|a: NodeId| (a, EscapeKind::Captured)),
                decreases carried_inputs@.len() - i,
            {
                m.push((carried_inputs[i], EscapeKind::Captured));
                i += 1;
                assert(m@ =~= carried_inputs@.subrange(0, i as int).map_values(|a: NodeId| (a, EscapeKind::Captured)));
            }
            assert(carried_inputs@.subrange(0, carried_inputs@.len() as int) =~= carried_inputs@);
        },
        _ => {},
    }
    m
}

#[verifier::opaque]
pub open spec fn keyed_map(keys: Seq<NodeId>, kinds: Seq<EscapeKind>) -> Map<NodeId, EscapeKind> {
    assoc_map(zip_facts(keys, kinds))
}

proof fn lemma_keyed(keys: Seq<NodeId>, kinds: Seq<EscapeKind>)
    requires
        keys.len() == kinds.len(),
        distinct_node_ids(keys),
    ensures
        forall|y: NodeId| #[trigger] keyed_map(keys, kinds).dom().contains(y) <==> keys.contains(y),
        forall|k: int| 0 <= k < keys.len() ==> keyed_map(keys, kinds)[#[trigger] keys[k]] == kinds[k],
{
    reveal(keyed_map);
    let z = zip_facts(keys, kinds);
    assert(distinct_keys(z));
    assert forall|y: NodeId| #[trigger] keyed_map(keys, kinds).dom().contains(y) <==> keys.contains(y) by {
        lemma_assoc_dom(z, y);
        if keys.contains(y) {
            let a = choose|a: int| 0 <= a < keys.len() && keys[a] == y;
            assert(z[a].0 == y);
        }
        if exists|i: int| 0 <= i < z.len() && z[i].0 == y {
            let i = choose|i: int| 0 <= i < z.len() && z[i].0 == y;
            assert(keys[i] == y);
        }
    }
    assert forall|k: int| 0 <= k < keys.len() implies keyed_map(keys, kinds)[#[trigger] keys[k]] == kinds[k] by {
        lemma_assoc_at(z, k);
    }
}

/// The operands a node's escape points mark are among its dataflow inputs.
proof fn lemma_marks_are_inputs(kind: NodeKind, e: int)
    requires
        0 <= e < escape_marks(kind).len(),
    ensures
        spec_dataflow_inputs(kind).contains(escape_marks(kind)[e].0),
{
    reveal(crate::graph::spec_dataflow_inputs);
    match kind {
        NodeKind::Return { value } => {
            assert(spec_dataflow_inputs(kind)[0] == value);
        },
        NodeKind::Store { ptr, value } => {
            assert(spec_dataflow_inputs(kind)[1] == value);
        },
        NodeKind::ExternalCall { args, .. } => {
            assert(spec_dataflow_inputs(kind)[e] == args@[e]);
        },
        NodeKind::Intrinsic { args, .. } => {
            assert(spec_dataflow_inputs(kind)[e] == args@[e]);
        },
        NodeKind::Loop { termination, carried_inputs, .. } => {
            assert(spec_dataflow_inputs(kind)[e + 1] == carried_inputs@[e]);
        },
        _ => {},
    }
}

/// The node identifiers and their escape kinds before propagation.
fn initial_kinds(func: &Function) -> (r: (Vec<NodeId>, Vec<EscapeKind>))
    requires
        distinct_ids(func.arena@),
        closed_arena(func.arena@),
    ensures
        r.0@.len() == func.arena@.len(),
        r.1@.len() == func.arena@.len(),
        forall|k: int| 0 <= k < func.arena@.len() ==> r.0@[k] == #[trigger] func.arena@[k].id,
        distinct_node_ids(r.0@),
        keyed_map(r.0@, r.1@) == initial_escapes(func.arena@),
{
    reveal(keyed_map);
    reveal(initial_escapes);
    let ghost nodes = func.arena@;
    let ghost init = nodes.map_values(|n: Node| (n.id, EscapeKind::NeverEscapes));
    let mut ids: Vec<NodeId> = Vec::new();
    let mut kinds: Vec<EscapeKind> = Vec::new();
    let mut i: usize = 0;
    while i < func.arena.len()
        invariant
            nodes == func.arena@,
            distinct_ids(nodes),
            i <= nodes.len(),
            init == nodes.map_values(|n: Node| (n.id, EscapeKind::NeverEscapes)),
            ids@.len() == i,
            kinds@.len() == i,
            zip_facts(ids@, kinds@) == init.subrange(0, i as int),
            forall|k: int| 0 <= k < i ==> ids@[k] == nodes[k].id,
        decreases nodes.len() - i,
    {
        ids.push(func.arena[i].id);
        kinds.push(EscapeKind::NeverEscapes);
        i += 1;
        assert(zip_facts(ids@, kinds@) =~= init.subrange(0, i as int));
    }
    assert(init.subrange(0, nodes.len() as int) =~= init);
    assert(distinct_node_ids(ids@)) by {
        assert forall|a: int, b: int| 0 <= a < b < ids@.len() implies ids@[a] != ids@[b] by {
            assert(nodes[a].id != nodes[b].id);
        }
    }
    let mut n: usize = 0;
    assert(nodes.subrange(0, 0) =~= Seq::<Node>::empty());
    assert(init + all_marks(nodes.subrange(0, 0)) =~= init);
    while n < func.arena.len()
        invariant
            nodes == func.arena@,
            closed_arena(nodes),
            n <= nodes.len(),
            ids@.len() == nodes.len(),
            kinds@.len() == nodes.len(),
            forall|k: int| 0 <= k < nodes.len() ==> ids@[k] == #[trigger] nodes[k].id,
            distinct_node_ids(ids@),
            keyed_map(ids@, kinds@) == assoc_map(init + all_marks(nodes.subrange(0, n as int))),
        decreases nodes.len() - n,
    {
        let ghost pre = nodes.subrange(0, n as int + 1);
        assert(pre.drop_last() =~= nodes.subrange(0, n as int));
        let ghost base = init + all_marks(nodes.subrange(0, n as int));
        let m = marks_of(&func.arena[n].kind);
        let mut j: usize = 0;
        assert(base + m@.subrange(0, 0) =~= base);
        while j < m.len()
            invariant
                nodes == func.arena@,
                closed_arena(nodes),
                n < nodes.len(),
                m@ == escape_marks(nodes[n as int].kind),
                j <= m@.len(),
                ids@.len() == nodes.len(),
                kinds@.len() == nodes.len(),
                forall|k: int| 0 <= k < nodes.len() ==> ids@[k] == #[trigger] nodes[k].id,
                distinct_node_ids(ids@),
                keyed_map(ids@, kinds@) == assoc_map(base + m@.subrange(0, j as int)),
            decreases m@.len() - j,
        {
            let (x, v) = m[j];
            proof {
                lemma_marks_are_inputs(nodes[n as int].kind, j as int);
                let jj = choose|jj: int| 0 <= jj < spec_dataflow_inputs(nodes[n as int].kind).len()
                    && spec_dataflow_inputs(nodes[n as int].kind)[jj] == x;
                let q = choose|q: int| 0 <= q < nodes.len() && nodes[q].id == #[trigger] spec_dataflow_inputs(nodes[n as int].kind)[jj];
                assert(ids@[q] == x);
            }
            set_kind(&ids, &mut kinds, x, v);
            proof {
                reveal(keyed_map);
            }
            assert((base + m@.subrange(0, j as int + 1)).drop_last() =~= base + m@.subrange(0, j as int));
            j += 1;
        }
        assert(m@.subrange(0, m@.len() as int) =~= m@);
        assert(init + all_marks(pre) =~= base + m@);
        n += 1;
    }
    assert(nodes.subrange(0, nodes.len() as int) =~= nodes);
    (ids, kinds)
}

/// Whether kind `v` is the initial kind of some node whose dataflow reaches
/// node `k`.
pub open spec fn witnessed(nodes: Seq<Node>, kinds0: Seq<EscapeKind>, k: int, v: EscapeKind) -> bool {
    exists|j: int| 0 <= j < nodes.len() && reaches(nodes, nodes[j].id, nodes[k].id) && v == kinds0[j]
}

/// Each current kind is the initial kind of a node reaching its node.
#[verifier::opaque]
pub open spec fn sound_kinds(nodes: Seq<Node>, kinds0: Seq<EscapeKind>, kinds: Seq<EscapeKind>) -> bool {
    forall|k: int| 0 <= k < kinds.len() ==> witnessed(nodes, kinds0, k, #[trigger] kinds[k])
}

/// No current kind is less severe than the node's initial kind.
#[verifier::opaque]
pub open spec fn mono_kinds(kinds0: Seq<EscapeKind>, kinds: Seq<EscapeKind>) -> bool {
    forall|k: int| 0 <= k < kinds.len() ==> severity(#[trigger] kinds[k]) >= severity(kinds0[k])
}

/// Whether every arena operand of each of the first `upto` nodes escapes
/// at least as severely as the node using it.
#[verifier::opaque]
pub open spec fn escape_closed(nodes: Seq<Node>, kinds: Seq<EscapeKind>, upto: int) -> bool {
    forall|i: int, jj: int|
        0 <= i < upto && 0 <= jj < spec_dataflow_inputs(nodes[i].kind).len() ==> (position_of(
            nodes,
            #[trigger] spec_dataflow_inputs(nodes[i].kind)[jj],
            0,
        ) matches Some(q) ==> 0 <= q < kinds.len() && severity(kinds[q]) >= severity(kinds[i]))
}

proof fn lemma_raise_kind(nodes: Seq<Node>, kinds0: Seq<EscapeKind>, before: Seq<EscapeKind>, q: int, ue: EscapeKind, i: int)
    requires
        before.len() == nodes.len(),
        kinds0.len() == nodes.len(),
        sound_kinds(nodes, kinds0, before),
        mono_kinds(kinds0, before),
        0 <= q < nodes.len(),
        0 <= i < nodes.len(),
        severity(ue) >= severity(before[q]),
        witnessed(nodes, kinds0, i, ue),
        inputs_of(nodes, nodes[i].id).contains(nodes[q].id),
    ensures
        sound_kinds(nodes, kinds0, before.update(q, ue)),
        mono_kinds(kinds0, before.update(q, ue)),
{
    reveal(sound_kinds);
    reveal(mono_kinds);
    let after = before.update(q, ue);
    let j = choose|j: int| 0 <= j < nodes.len() && reaches(nodes, nodes[j].id, nodes[i].id) && ue == kinds0[j];
    crate::graph::lemma_reaches_step(nodes, nodes[j].id, nodes[i].id, nodes[q].id);
    assert(witnessed(nodes, kinds0, q, ue));
    assert forall|k: int| 0 <= k < after.len() implies witnessed(nodes, kinds0, k, #[trigger] after[k]) by {
        if k != q {
            assert(after[k] == before[k]);
        }
    }
    assert forall|k: int| 0 <= k < after.len() implies severity(#[trigger] after[k]) >= severity(kinds0[k]) by {
        if k != q {
            assert(after[k] == before[k]);
        } else {
            assert(severity(before[k]) >= severity(kinds0[k]));
        }
    }
}

/// Propagates the kind of arena node `i` to its operands; reports whether
/// any operand's kind changed.
fn propagate_node(func: &Function, kinds: &mut Vec<EscapeKind>, i: usize, kinds0: Ghost<Seq<EscapeKind>>) -> (changed: bool)
    requires
        i < func.arena@.len(),
        distinct_ids(func.arena@),
        closed_arena(func.arena@),
        old(kinds)@.len() == func.arena@.len(),
        kinds0@.len() == func.arena@.len(),
        sound_kinds(func.arena@, kinds0@, old(kinds)@),
        mono_kinds(kinds0@, old(kinds)@),
    ensures
        final(kinds)@.len() == func.arena@.len(),
        sound_kinds(func.arena@, kinds0@, final(kinds)@),
        mono_kinds(kinds0@, final(kinds)@),
        headroom(final(kinds)@) <= headroom(old(kinds)@),
        changed ==> headroom(final(kinds)@) < headroom(old(kinds)@),
        !changed ==> final(kinds)@ == old(kinds)@,
        !changed ==> forall|jj: int|
            0 <= jj < spec_dataflow_inputs(func.arena@[i as int].kind).len() ==> (position_of(
                func.arena@,
                #[trigger] spec_dataflow_inputs(func.arena@[i as int].kind)[jj],
                0,
            ) matches Some(q) ==> 0 <= q < final(kinds)@.len() && severity(final(kinds)@[q]) >= severity(
                final(kinds)@[i as int],
            )),
{
    reveal(sound_kinds);
    reveal(mono_kinds);
    let ghost nodes = func.arena@;
    let ghost k0 = kinds0@;
    let u = func.arena[i].id;
    proof {
        crate::ir::lemma_kind_at(nodes, i as int);
    }
    let ue = kinds[i];
    assert(witnessed(nodes, k0, i as int, kinds@[i as int]));
    let mut changed = false;
    if ue == EscapeKind::NeverEscapes {
        proof {
            assert forall|jj: int|
                0 <= jj < spec_dataflow_inputs(nodes[i as int].kind).len() implies (position_of(
                nodes,
                #[trigger] spec_dataflow_inputs(nodes[i as int].kind)[jj],
                0,
            ) matches Some(q) ==> 0 <= q < kinds@.len() && severity(kinds@[q]) >= severity(kinds@[i as int])) by {
                crate::ir::lemma_position_of(nodes, spec_dataflow_inputs(nodes[i as int].kind)[jj], 0);
            }
        }
        return false;
    }
    let ins = dataflow_inputs(&func.arena[i].kind);
    assert(inputs_of(nodes, u) == ins@);
    let mut j: usize = 0;
    while j < ins.len()
        invariant
            nodes == func.arena@,
            closed_arena(nodes),
            i < nodes.len(),
            u == nodes[i as int].id,
            ins@ == spec_dataflow_inputs(nodes[i as int].kind),
            inputs_of(nodes, u) == ins@,
            j <= ins@.len(),
            kinds@.len() == nodes.len(),
            k0.len() == nodes.len(),
            witnessed(nodes, k0, i as int, ue),
            sound_kinds(nodes, k0, kinds@),
            mono_kinds(k0, kinds@),
            headroom(kinds@) <= headroom(old(kinds)@),
            !changed ==> kinds@ == old(kinds)@,
            !changed ==> kinds@[i as int] == ue,
            changed ==> headroom(kinds@) < headroom(old(kinds)@),
            !changed ==> forall|jjj: int|
                0 <= jjj < j ==> (position_of(nodes, #[trigger] ins@[jjj], 0) matches Some(q) ==> 0 <= q
                    < kinds@.len() && severity(kinds@[q]) >= severity(ue)),
        decreases ins@.len() - j,
    {
        let w = ins[j];
        let q = match find_node(&func.arena, w) {
            Some(q) => q,
            None => {
                proof {
                    assert(spec_dataflow_inputs(nodes[i as int].kind)[j as int] == w);
                    let k = choose|k: int| 0 <= k < nodes.len() && nodes[k].id == #[trigger] spec_dataflow_inputs(nodes[i as int].kind)[j as int];
                    crate::ir::lemma_position_of(nodes, w, 0);
                }
                assert(false);
                0
            },
        };
        let cur = kinds[q];
        let merged = merge_escape(cur, ue);
        if merged != cur {
            let ghost before = kinds@;
            proof {
                lemma_headroom_update(before, q as int, merged);
                assert(ins@[j as int] == w);
                assert(ins@.contains(w));
                lemma_raise_kind(nodes, k0, before, q as int, ue, i as int);
            }
            kinds.set(q, merged);
            changed = true;
        }
        j += 1;
    }
    changed
}

proof fn lemma_path_severity(nodes: Seq<Node>, kinds: Seq<EscapeKind>, p: Seq<NodeId>, i: int, q0: int)
    requires
        is_path(nodes, p),
        0 <= i < p.len(),
        0 <= q0 < nodes.len(),
        kinds.len() == nodes.len(),
        position_of(nodes, p[0], 0) == Some(q0),
        closed_arena(nodes),
        escape_closed(nodes, kinds, nodes.len() as int),
    ensures
        position_of(nodes, p[i], 0) matches Some(q) && 0 <= q < nodes.len() && severity(kinds[q]) >= severity(kinds[q0]),
    decreases i,
{
    reveal(escape_closed);
    crate::ir::lemma_position_of(nodes, p[0], 0);
    if i > 0 {
        lemma_path_severity(nodes, kinds, p, i - 1, q0);
        let x = p[i - 1];
        let qx = position_of(nodes, x, 0)->0;
        crate::ir::lemma_position_of(nodes, x, 0);
        assert(inputs_of(nodes, p[i - 1]).contains(p[i]));
        assert(nodes[qx].id == x);
        let jj = choose|jj: int| 0 <= jj < inputs_of(nodes, x).len() && inputs_of(nodes, x)[jj] == p[i];
        assert(spec_dataflow_inputs(nodes[qx].kind)[jj] == p[i]);
        let k = choose|k: int| 0 <= k < nodes.len() && nodes[k].id == #[trigger] spec_dataflow_inputs(nodes[qx].kind)[jj];
        crate::ir::lemma_position_of(nodes, p[i], 0);
    }
}

fn build_facts(func: &Function, kinds: &Vec<EscapeKind>) -> (facts: FactMap<EscapeFact>)
    requires
        kinds@.len() == func.arena@.len(),
        distinct_ids(func.arena@),
    ensures
        facts.wf(),
        forall|x: NodeId| facts@.dom().contains(x) <==> exists|k: int| 0 <= k < func.arena@.len() && func.arena@[k].id == x,
        forall|a: int| 0 <= a < func.arena@.len() ==> facts@[#[trigger] func.arena@[a].id].kind == kinds@[a],
{
    let ghost nodes = func.arena@;
    let mut facts: FactMap<EscapeFact> = FactMap::new();
    let mut k: usize = 0;
    while k < func.arena.len()
        invariant
            nodes == func.arena@,
            k <= nodes.len(),
            kinds@.len() == nodes.len(),
            distinct_ids(nodes),
            facts.wf(),
            forall|x: NodeId| facts@.dom().contains(x) <==> exists|a: int| 0 <= a < k && nodes[a].id == x,
            forall|a: int| 0 <= a < k ==> facts@[#[trigger] nodes[a].id].kind == kinds@[a],
        decreases nodes.len() - k,
    {
        facts.insert(func.arena[k].id, EscapeFact { kind: kinds[k] });
        proof {
            assert forall|x: NodeId| facts@.dom().contains(x) <==> exists|a: int| 0 <= a < k + 1 && nodes[a].id == x by {
                if x == nodes[k as int].id {
                    assert(nodes[k as int].id == x);
                }
            }
            assert forall|a: int| 0 <= a < k + 1 implies facts@[#[trigger] nodes[a].id].kind == kinds@[a] by {
                if a < k {
                    assert(nodes[a].id != nodes[k as int].id);
                }
            }
        }
        k += 1;
    }
    facts
}

proof fn lemma_initial_at(nodes: Seq<Node>, ids: Seq<NodeId>, k0: Seq<EscapeKind>)
    requires
        ids.len() == nodes.len(),
        k0.len() == nodes.len(),
        forall|k: int| 0 <= k < nodes.len() ==> ids[k] == #[trigger] nodes[k].id,
        distinct_node_ids(ids),
        keyed_map(ids, k0) == initial_escapes(nodes),
    ensures
        forall|y: NodeId| #[trigger] initial_escapes(nodes).dom().contains(y) <==> exists|k: int|
            0 <= k < nodes.len() && nodes[k].id == y,
        forall|k: int| 0 <= k < nodes.len() ==> initial_escapes(nodes)[#[trigger] nodes[k].id] == k0[k],
{
    lemma_keyed(ids, k0);
    let p1 = initial_escapes(nodes);
    assert forall|y: NodeId| #[trigger] p1.dom().contains(y) <==> exists|k: int| 0 <= k < nodes.len() && nodes[k].id == y by {
        if p1.dom().contains(y) {
            assert(ids.contains(y));
            let a = choose|a: int| 0 <= a < ids.len() && ids[a] == y;
            assert(nodes[a].id == y);
        }
        if exists|k: int| 0 <= k < nodes.len() && nodes[k].id == y {
            let k = choose|k: int| 0 <= k < nodes.len() && nodes[k].id == y;
            assert(ids[k] == y);
        }
    }
    assert forall|k: int| 0 <= k < nodes.len() implies p1[#[trigger] nodes[k].id] == k0[k] by {
        assert(ids[k] == nodes[k].id);
    }
}

proof fn lemma_complete_at(nodes: Seq<Node>, k0: Seq<EscapeKind>, kinds: Seq<EscapeKind>, a: int, b: int)
    requires
        distinct_ids(nodes),
        closed_arena(nodes),
        k0.len() == nodes.len(),
        kinds.len() == nodes.len(),
        mono_kinds(k0, kinds),
        escape_closed(nodes, kinds, nodes.len() as int),
        0 <= a < nodes.len(),
        0 <= b < nodes.len(),
        reaches(nodes, nodes[b].id, nodes[a].id),
    ensures
        severity(kinds[a]) >= severity(k0[b]),
{
    reveal(mono_kinds);
    assert(severity(kinds[b]) >= severity(k0[b]));
    crate::ir::lemma_kind_at(nodes, b);
    crate::ir::lemma_kind_at(nodes, a);
    let p = choose|p: Seq<NodeId>| #[trigger] is_path(nodes, p) && p[0] == nodes[b].id && p.last() == nodes[a].id;
    lemma_path_severity(nodes, kinds, p, p.len() - 1, b);
}

proof fn lemma_escape_final(
    nodes: Seq<Node>,
    ids: Seq<NodeId>,
    k0: Seq<EscapeKind>,
    kinds: Seq<EscapeKind>,
    fm: Map<NodeId, EscapeFact>,
)
    requires
        distinct_ids(nodes),
        closed_arena(nodes),
        ids.len() == nodes.len(),
        k0.len() == nodes.len(),
        kinds.len() == nodes.len(),
        forall|k: int| 0 <= k < nodes.len() ==> ids[k] == #[trigger] nodes[k].id,
        distinct_node_ids(ids),
        keyed_map(ids, k0) == initial_escapes(nodes),
        sound_kinds(nodes, k0, kinds),
        mono_kinds(k0, kinds),
        escape_closed(nodes, kinds, nodes.len() as int),
        forall|x: NodeId| fm.dom().contains(x) <==> exists|k: int| 0 <= k < nodes.len() && nodes[k].id == x,
        forall|a: int| 0 <= a < nodes.len() ==> fm[#[trigger] nodes[a].id].kind == kinds[a],
    ensures
        fm.dom() == initial_escapes(nodes).dom(),
        forall|x: NodeId|
            #![trigger fm[x]]
            fm.dom().contains(x) ==> exists|y: NodeId|
                initial_escapes(nodes).dom().contains(y) && reaches(nodes, y, x) && fm[x].kind == initial_escapes(nodes)[y],
        forall|x: NodeId, y: NodeId|
            #![trigger fm[x], initial_escapes(nodes)[y]]
            fm.dom().contains(x) && initial_escapes(nodes).dom().contains(y) && reaches(nodes, y, x)
                ==> severity(fm[x].kind) >= severity(initial_escapes(nodes)[y]),
{
    reveal(sound_kinds);
    let p1 = initial_escapes(nodes);
    lemma_initial_at(nodes, ids, k0);
    assert(fm.dom() =~= p1.dom());
    assert forall|x: NodeId| #![trigger fm[x]] fm.dom().contains(x) implies exists|y: NodeId|
        p1.dom().contains(y) && reaches(nodes, y, x) && fm[x].kind == p1[y] by {
        let a = choose|a: int| 0 <= a < nodes.len() && nodes[a].id == x;
        assert(fm[nodes[a].id].kind == kinds[a]);
        assert(witnessed(nodes, k0, a, kinds[a]));
        let j = choose|j: int| 0 <= j < nodes.len() && reaches(nodes, nodes[j].id, nodes[a].id) && kinds[a] == k0[j];
        assert(p1[nodes[j].id] == k0[j]);
        assert(p1.dom().contains(nodes[j].id));
    }
    assert forall|x: NodeId, y: NodeId|
        #![trigger fm[x], p1[y]]
        fm.dom().contains(x) && p1.dom().contains(y) && reaches(nodes, y, x) implies severity(fm[x].kind)
        >= severity(p1[y]) by {
        let a = choose|a: int| 0 <= a < nodes.len() && nodes[a].id == x;
        assert(fm[nodes[a].id].kind == kinds[a]);
        let b = choose|b: int| 0 <= b < nodes.len() && nodes[b].id == y;
        assert(p1[nodes[b].id] == k0[b]);
        lemma_complete_at(nodes, k0, kinds, a, b);
    }
}

/// Runs escape analysis: each escape point marks its value (returned,
/// stored globally, passed externally or captured; a later point in arena
/// order overriding an earlier one), then escape propagates from users to
/// their operands, the more severe kind winning, until nothing changes.
/// A node's final kind is the most severe initial kind among the nodes
/// whose dataflow reaches it (itself included).
#[verifier::rlimit(30)]
pub fn run_escape(func: &Function) -> (facts: FactMap<EscapeFact>)
    requires
        distinct_ids(func.arena@),
        closed_arena(func.arena@),
    ensures
        facts.wf(),
        facts@.dom() == initial_escapes(func.arena@).dom(),
        forall|x: NodeId|
            #![trigger facts@[x]]
            facts@.dom().contains(x) ==> exists|y: NodeId|
                initial_escapes(func.arena@).dom().contains(y) && reaches(func.arena@, y, x) && facts@[x].kind
                    == initial_escapes(func.arena@)[y],
        forall|x: NodeId, y: NodeId|
            #![trigger facts@[x], initial_escapes(func.arena@)[y]]
            facts@.dom().contains(x) && initial_escapes(func.arena@).dom().contains(y) && reaches(func.arena@, y, x)
                ==> severity(facts@[x].kind) >= severity(initial_escapes(func.arena@)[y]),
{
    let ghost nodes = func.arena@;
    let (ids, mut kinds) = initial_kinds(func);
    let ghost k0 = kinds@;
    proof {
        reveal(sound_kinds);
        reveal(mono_kinds);
        assert forall|k: int| 0 <= k < kinds@.len() implies witnessed(nodes, k0, k, #[trigger] kinds@[k]) by {
            assert(is_path(nodes, seq![nodes[k].id]));
            assert(reaches(nodes, nodes[k].id, nodes[k].id));
        }
        assert(sound_kinds(nodes, k0, kinds@));
        assert(mono_kinds(k0, kinds@));
    }
    let mut changed = true;
    while changed
        invariant
            nodes == func.arena@,
            distinct_ids(nodes),
            closed_arena(nodes),
            kinds@.len() == nodes.len(),
            k0.len() == nodes.len(),
            sound_kinds(nodes, k0, kinds@),
            mono_kinds(k0, kinds@),
            !changed ==> escape_closed(nodes, kinds@, nodes.len() as int),
        decreases headroom(kinds@), if changed {
            1int
        } else {
            0int
        },
    {
        let ghost start = kinds@;
        changed = false;
        let mut i: usize = 0;
        proof {
            reveal(escape_closed);
            assert(escape_closed(nodes, kinds@, 0));
        }
        while i < func.arena.len()
            invariant
                nodes == func.arena@,
                distinct_ids(nodes),
                closed_arena(nodes),
                i <= nodes.len(),
                kinds@.len() == nodes.len(),
                k0.len() == nodes.len(),
                sound_kinds(nodes, k0, kinds@),
                mono_kinds(k0, kinds@),
                headroom(kinds@) <= headroom(start),
                !changed ==> kinds@ == start,
                changed ==> headroom(kinds@) < headroom(start),
                !changed ==> escape_closed(nodes, kinds@, i as int),
            decreases nodes.len() - i,
        {
            let ghost before = kinds@;
            let c = propagate_node(func, &mut kinds, i, Ghost(k0));
            if c {
                changed = true;
            }
            proof {
                reveal(escape_closed);
            }
            i += 1;
        }
    }
    let facts = build_facts(func, &kinds);
    proof {
        lemma_escape_final(nodes, ids@, k0, kinds@, facts@);
    }
    facts
}


/// The value that the arena's last node returns escapes as `Returned`: no
/// later escape point overrides its mark, and only `Returned` is at least
/// as severe, so propagation keeps it.
pub proof fn law_returned_value_escapes(nodes: Seq<Node>, x: NodeId)
    requires
        nodes.len() > 0,
        nodes.last().kind == (NodeKind::Return { value: x }),
    ensures
        initial_escapes(nodes).dom().contains(x),
        initial_escapes(nodes)[x] == EscapeKind::Returned,
        forall|k: EscapeKind| #[trigger] severity(k) >= severity(initial_escapes(nodes)[x]) ==> k == EscapeKind::Returned,
{
    reveal(initial_escapes);
    let a = nodes.map_values(|n: Node| (n.id, EscapeKind::NeverEscapes));
    let s = a + all_marks(nodes);
    assert(all_marks(nodes) == all_marks(nodes.drop_last()) + seq![(x, EscapeKind::Returned)]);
    assert(s.last() == (x, EscapeKind::Returned));
    assert(s.len() > 0);
    assert(assoc_map(s) == assoc_map(s.drop_last()).insert(x, EscapeKind::Returned));
}

} // verus!
