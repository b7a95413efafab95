//! Loop analysis: trip count, finiteness, nesting, carried variables and
//! reduction patterns of each loop node.
use vstd::prelude::*;
use crate::facts::{ConstantData, LoopFact, ReductionVar, spec_as_u64};
use crate::ir::{Function, Node, NodeId, NodeKind, distinct_ids, kind_of, lemma_kind_at};
use crate::factmap::FactMap;
use crate::text::owned;

verus! {

// ── Trip counts ─────────────────────────────────────────────────────────

/// The value of node `id` when it is a constant with a `u64` value.
pub open spec fn constant_u64(nodes: Seq<Node>, id: NodeId) -> Option<u64> {
    match kind_of(nodes, id) {
        Some(NodeKind::Constant(d)) => spec_as_u64(d),
        _ => None,
    }
}

/// The bound a comparison `lhs ? rhs` sets on the carried variable
/// `carried`: the constant on the other side.
pub open spec fn bound_against(nodes: Seq<Node>, carried: NodeId, lhs: NodeId, rhs: NodeId) -> Option<u64> {
    if lhs == carried {
        constant_u64(nodes, rhs)
    } else if rhs == carried {
        constant_u64(nodes, lhs)
    } else {
        None
    }
}

/// The bound of the first carried variable that has one.
pub open spec fn first_bound(nodes: Seq<Node>, carried: Seq<NodeId>, lhs: NodeId, rhs: NodeId) -> Option<u64>
    decreases carried.len(),
{
    if carried.len() == 0 {
        None
    } else {
        match bound_against(nodes, carried[0], lhs, rhs) {
            Some(b) => Some(b),
            None => first_bound(nodes, carried.drop_first(), lhs, rhs),
        }
    }
}

/// The operands of a comparison.
pub open spec fn comparison_operands(kind: NodeKind) -> Option<(NodeId, NodeId)> {
    match kind {
        NodeKind::Lt { lhs, rhs } => Some((lhs, rhs)),
        NodeKind::Le { lhs, rhs } => Some((lhs, rhs)),
        NodeKind::Gt { lhs, rhs } => Some((lhs, rhs)),
        NodeKind::Ge { lhs, rhs } => Some((lhs, rhs)),
        NodeKind::Eq { lhs, rhs } => Some((lhs, rhs)),
        NodeKind::Ne { lhs, rhs } => Some((lhs, rhs)),
        _ => None,
    }
}

/// The trip count of a loop: when its termination condition compares a
/// carried variable with a constant, that constant.
pub open spec fn spec_trip_count(nodes: Seq<Node>, termination: NodeId, carried: Seq<NodeId>) -> Option<u64> {
    match kind_of(nodes, termination) {
        Some(k) => match comparison_operands(k) {
            Some((lhs, rhs)) => first_bound(nodes, carried, lhs, rhs),
            None => None,
        },
        None => None,
    }
}

fn get_constant_u64(func: &Function, id: NodeId) -> (r: Option<u64>)
    ensures
        r == constant_u64(func.arena@, id),
{
    match func.get_node(id) {
        Some(node) => match &node.kind {
            NodeKind::Constant(data) => data.as_u64(),
            _ => None,
        },
        None => None,
    }
}

fn try_count_loop(func: &Function, carried: NodeId, lhs: NodeId, rhs: NodeId) -> (r: Option<u64>)
    ensures
        r == bound_against(func.arena@, carried, lhs, rhs),
{
    let bound_side = if lhs == carried {
        rhs
    } else if rhs == carried {
        lhs
    } else {
        return None;
    };
    get_constant_u64(func, bound_side)
}

fn first_count(func: &Function, carried_inputs: &Vec<NodeId>, lhs: NodeId, rhs: NodeId) -> (r: Option<u64>)
    ensures
        r == first_bound(func.arena@, carried_inputs@, lhs, rhs),
{
    let mut t: usize = 0;
    assert(carried_inputs@.subrange(0, carried_inputs@.len() as int) =~= carried_inputs@);
    while t < carried_inputs.len()
        invariant
            t <= carried_inputs@.len(),
            first_bound(func.arena@, carried_inputs@, lhs, rhs) == first_bound(
                func.arena@,
                carried_inputs@.subrange(t as int, carried_inputs@.len() as int),
                lhs,
                rhs,
            ),
        decreases carried_inputs@.len() - t,
    {
        let ghost rest = carried_inputs@.subrange(t as int, carried_inputs@.len() as int);
        assert(rest[0] == carried_inputs@[t as int]);
        assert(rest.drop_first() =~= carried_inputs@.subrange(t + 1, carried_inputs@.len() as int));
        if let Some(trip) = try_count_loop(func, carried_inputs[t], lhs, rhs) {
            return Some(trip);
        }
        t += 1;
    }
    None
}

/// Estimates the trip count of a counted loop.
fn estimate_trip_count(func: &Function, termination: NodeId, carried_inputs: &Vec<NodeId>) -> (r: Option<u64>)
    ensures
        r == spec_trip_count(func.arena@, termination, carried_inputs@),
{
    let term_node = match func.get_node(termination) {
        Some(n) => n,
        None => {
            return None;
        },
    };
    match &term_node.kind {
        NodeKind::Lt { lhs, rhs } | NodeKind::Le { lhs, rhs } | NodeKind::Gt { lhs, rhs } | NodeKind::Ge {
            lhs,
            rhs,
        } => first_count(func, carried_inputs, *lhs, *rhs),
        NodeKind::Eq { lhs, rhs } | NodeKind::Ne { lhs, rhs } => first_count(func, carried_inputs, *lhs, *rhs),
        _ => None,
    }
}

// ── Nesting ─────────────────────────────────────────────────────────────

/// Whether node `id` is a loop.
pub open spec fn is_loop_node(nodes: Seq<Node>, id: NodeId) -> bool {
    match kind_of(nodes, id) {
        Some(k) => k is Loop,
        None => false,
    }
}

/// Whether some node of `body` is a loop.
pub open spec fn body_has_loop(nodes: Seq<Node>, body: Seq<NodeId>) -> bool {
    exists|t: int| 0 <= t < body.len() && #[trigger] is_loop_node(nodes, body[t])
}

fn is_nested_loop(func: &Function, body: &Vec<NodeId>) -> (b: bool)
    ensures
        b == body_has_loop(func.arena@, body@),
{
    let mut t: usize = 0;
    while t < body.len()
        invariant
            t <= body@.len(),
            forall|u: int| 0 <= u < t ==> !#[trigger] is_loop_node(func.arena@, body@[u]),
        decreases body@.len() - t,
    {
        if let Some(node) = func.get_node(body[t]) {
            if matches!(node.kind, NodeKind::Loop { .. }) {
                assert(is_loop_node(func.arena@, body@[t as int]));
                return true;
            }
        }
        t += 1;
    }
    false
}

// ── Reductions ──────────────────────────────────────────────────────────

/// A reduction variable with its kind as text.
pub struct ReductionView {
    pub variable: NodeId,
    pub reduction_kind: Seq<char>,
    pub invariant_value: NodeId,
}

pub open spec fn reduction_view(r: ReductionVar) -> ReductionView {
    ReductionView { variable: r.variable, reduction_kind: r.reduction_kind@, invariant_value: r.invariant_value }
}

pub open spec fn reductions_view(v: Seq<ReductionVar>) -> Seq<ReductionView> {
    v.map_values(|r: ReductionVar| reduction_view(r))
}

/// The reduction an associative operation stands for.
pub open spec fn reduction_name(kind: NodeKind) -> Option<Seq<char>> {
    match kind {
        NodeKind::Add { .. } => Some("sum"@),
        NodeKind::Mul { .. } => Some("product"@),
        NodeKind::And { .. } => Some("bitwise_and"@),
        NodeKind::BoolAnd { .. } => Some("bitwise_and"@),
        NodeKind::Or { .. } => Some("bitwise_or"@),
        NodeKind::BoolOr { .. } => Some("bitwise_or"@),
        NodeKind::Xor { .. } => Some("bitwise_xor"@),
        NodeKind::Ne { .. } => Some("bitwise_xor"@),
        _ => None,
    }
}

/// The operands of a binary operation.
pub open spec fn binary_operands(kind: NodeKind) -> Option<(NodeId, NodeId)> {
    match kind {
        NodeKind::Add { lhs, rhs } => Some((lhs, rhs)),
        NodeKind::Mul { lhs, rhs } => Some((lhs, rhs)),
        NodeKind::And { lhs, rhs } => Some((lhs, rhs)),
        NodeKind::BoolAnd { lhs, rhs } => Some((lhs, rhs)),
        NodeKind::Or { lhs, rhs } => Some((lhs, rhs)),
        NodeKind::BoolOr { lhs, rhs } => Some((lhs, rhs)),
        NodeKind::Xor { lhs, rhs } => Some((lhs, rhs)),
        NodeKind::Ne { lhs, rhs } => Some((lhs, rhs)),
        _ => None,
    }
}

/// The reduction of carried variable `carry` whose next value is an
/// operation of kind `kind`: an associative operation of `carry` with
/// another value.
pub open spec fn spec_reduction_of(kind: NodeKind, carry: NodeId) -> Option<ReductionView> {
    match (reduction_name(kind), binary_operands(kind)) {
        (Some(name), Some((lhs, rhs))) => if lhs == carry || rhs == carry {
            Some(
                ReductionView {
                    variable: carry,
                    reduction_kind: name,
                    invariant_value: if lhs == carry {
                        rhs
                    } else {
                        lhs
                    },
                },
            )
        } else {
            None
        },
        _ => None,
    }
}

/// The reduction of carried variable `carry` whose next value is node
/// `output`.
pub open spec fn reduction_at(nodes: Seq<Node>, carry: NodeId, output: NodeId) -> Option<ReductionView> {
    match kind_of(nodes, output) {
        Some(k) => spec_reduction_of(k, carry),
        None => None,
    }
}

/// The reductions among the first `k` pairs of carried variable and
/// output.
pub open spec fn reductions_upto(nodes: Seq<Node>, carried: Seq<NodeId>, outputs: Seq<NodeId>, k: nat) -> Seq<
    ReductionView,
>
    decreases k,
{
    if k == 0 {
        Seq::empty()
    } else {
        let r = reductions_upto(nodes, carried, outputs, (k - 1) as nat);
        match reduction_at(nodes, carried[k - 1], outputs[k - 1]) {
            Some(v) => r.push(v),
            None => r,
        }
    }
}

/// The reductions of a loop, pairing carried variables with outputs.
pub open spec fn spec_reductions(nodes: Seq<Node>, carried: Seq<NodeId>, outputs: Seq<NodeId>) -> Seq<ReductionView> {
    reductions_upto(
        nodes,
        carried,
        outputs,
        if carried.len() <= outputs.len() {
            carried.len()
        } else {
            outputs.len()
        },
    )
}

fn reduction_of(node: &Node, carry: NodeId) -> (r: Option<ReductionVar>)
    ensures
        match r {
            Some(v) => spec_reduction_of(node.kind, carry) == Some(reduction_view(v)),
            None => spec_reduction_of(node.kind, carry) is None,
        },
{
    let (name, lhs, rhs) = match &node.kind {
        NodeKind::Add { lhs, rhs } => ("sum", *lhs, *rhs),
        NodeKind::Mul { lhs, rhs } => ("product", *lhs, *rhs),
        NodeKind::And { lhs, rhs } => ("bitwise_and", *lhs, *rhs),
        NodeKind::BoolAnd { lhs, rhs } => ("bitwise_and", *lhs, *rhs),
        NodeKind::Or { lhs, rhs } => ("bitwise_or", *lhs, *rhs),
        NodeKind::BoolOr { lhs, rhs } => ("bitwise_or", *lhs, *rhs),
        NodeKind::Xor { lhs, rhs } => ("bitwise_xor", *lhs, *rhs),
        NodeKind::Ne { lhs, rhs } => ("bitwise_xor", *lhs, *rhs),
        _ => {
            return None;
        },
    };
    if lhs == carry || rhs == carry {
        let other = if lhs == carry {
            rhs
        } else {
            lhs
        };
        Some(ReductionVar { variable: carry, reduction_kind: owned(name), invariant_value: other })
    } else {
        None
    }
}

/// Detects reduction variables: a carried variable whose next value is
/// an associative operation of itself with another value.
fn detect_reductions(func: &Function, carried_inputs: &Vec<NodeId>, outputs: &Vec<NodeId>) -> (r: Vec<ReductionVar>)
    ensures
        reductions_view(r@) == spec_reductions(func.arena@, carried_inputs@, outputs@),
{
    let len = if carried_inputs.len() <= outputs.len() {
        carried_inputs.len()
    } else {
        outputs.len()
    };
    let mut reductions: Vec<ReductionVar> = Vec::new();
    let mut t: usize = 0;
    while t < len
        invariant
            len <= carried_inputs@.len(),
            len <= outputs@.len(),
            len == (if carried_inputs@.len() <= outputs@.len() {
                carried_inputs@.len()
            } else {
                outputs@.len()
            }),
            t <= len,
            reductions_view(reductions@) == reductions_upto(func.arena@, carried_inputs@, outputs@, t as nat),
        decreases len - t,
    {
        let carry = carried_inputs[t];
        let output = outputs[t];
        let ghost before = reductions@;
        match func.get_node(output) {
            Some(output_node) => {
                if let Some(red) = reduction_of(output_node, carry) {
                    reductions.push(red);
                    proof {
                        assert(reductions_view(reductions@) =~= reductions_view(before).push(reduction_view(red)));
                    }
                }
            },
            None => {},
        }
        t += 1;
    }
    reductions
}

// ── The analysis ────────────────────────────────────────────────────────

/// The fact a loop node's analysis gives.
pub open spec fn loop_fact_holds(nodes: Seq<Node>, kind: NodeKind, f: LoopFact) -> bool {
    match kind {
        NodeKind::Loop { body, termination, outputs, carried_inputs } => {
            &&& f.trip_count == spec_trip_count(nodes, termination, carried_inputs@)
            &&& f.is_finite == f.trip_count is Some
            &&& f.is_nested == body_has_loop(nodes, body@)
            &&& f.carried@ == carried_inputs@
            &&& reductions_view(f.reductions@) == spec_reductions(nodes, carried_inputs@, outputs@)
        },
        _ => false,
    }
}

fn copy_ids(v: &Vec<NodeId>) -> (r: Vec<NodeId>)
    ensures
        r@ == v@,
{
    let mut r: Vec<NodeId> = Vec::new();
    let mut i: usize = 0;
    while i < v.len()
        invariant
            i <= v@.len(),
            r@ == v@.subrange(0, i as int),
        decreases v@.len() - i,
    {
        r.push(v[i]);
        i += 1;
        assert(r@ =~= v@.subrange(0, i as int));
    }
    assert(v@.subrange(0, v@.len() as int) =~= v@);
    r
}

/// Runs loop analysis: a fact for each loop node.
pub fn run_loops(func: &Function) -> (facts: FactMap<LoopFact>)
    requires
        distinct_ids(func.arena@),
    ensures
        facts.wf(),
        forall|x: NodeId|
            facts@.dom().contains(x) <==> exists|i: int|
                0 <= i < func.arena@.len() && func.arena@[i].id == x && func.arena@[i].kind is Loop,
        forall|i: int|
            0 <= i < func.arena@.len() && (#[trigger] func.arena@[i]).kind is Loop ==> loop_fact_holds(
                func.arena@,
                func.arena@[i].kind,
                facts@[func.arena@[i].id],
            ),
{
    let ghost nodes = func.arena@;
    let mut facts: FactMap<LoopFact> = FactMap::new();
    let mut i: usize = 0;
    while i < func.arena.len()
        invariant
            nodes == func.arena@,
            distinct_ids(nodes),
            i <= nodes.len(),
            facts.wf(),
            forall|x: NodeId|
                facts@.dom().contains(x) <==> exists|k: int| 0 <= k < i && nodes[k].id == x && nodes[k].kind is Loop,
            forall|k: int|
                0 <= k < i && (#[trigger] nodes[k]).kind is Loop ==> loop_fact_holds(
                    nodes,
                    nodes[k].kind,
                    facts@[nodes[k].id],
                ),
        decreases nodes.len() - i,
    {
        let node = &func.arena[i];
        if let NodeKind::Loop { body, termination, outputs, carried_inputs } = &node.kind {
            let trip_count = estimate_trip_count(func, *termination, carried_inputs);
            let is_nested = is_nested_loop(func, body);
            let carried = copy_ids(carried_inputs);
            let reductions = detect_reductions(func, carried_inputs, outputs);
            let fact = LoopFact { is_finite: trip_count.is_some(), trip_count, is_nested, carried, reductions };
            let ghost before = facts@;
            facts.insert(node.id, fact);
            proof {
                assert forall|k: int| 0 <= k < i + 1 && (#[trigger] nodes[k]).kind is Loop implies loop_fact_holds(
                    nodes,
                    nodes[k].kind,
                    facts@[nodes[k].id],
                ) by {
                    if k < i {
                        assert(nodes[k].id != nodes[i as int].id);
                    }
                }
                assert forall|x: NodeId| facts@.dom().contains(x) <==> exists|k: int|
                    0 <= k < i + 1 && nodes[k].id == x && nodes[k].kind is Loop by {
                    if facts@.dom().contains(x) && x != nodes[i as int].id {
                        let k = choose|k: int| 0 <= k < i && nodes[k].id == x && nodes[k].kind is Loop;
                    }
                }
            }
        } else {
            proof {
                assert forall|x: NodeId| facts@.dom().contains(x) <==> exists|k: int|
                    0 <= k < i + 1 && nodes[k].id == x && nodes[k].kind is Loop by {
                    if exists|k: int| 0 <= k < i + 1 && nodes[k].id == x && nodes[k].kind is Loop {
                        let k = choose|k: int| 0 <= k < i + 1 && nodes[k].id == x && nodes[k].kind is Loop;
                        assert(k != i);
                    }
                }
            }
        }
        i += 1;
    }
    facts
}

// ── Laws ────────────────────────────────────────────────────────────────

/// Every detected reduction is of a carried variable.
pub proof fn law_reductions_of_carried(nodes: Seq<Node>, carried: Seq<NodeId>, outputs: Seq<NodeId>, k: nat)
    requires
        k <= carried.len(),
        k <= outputs.len(),
    ensures
        forall|r: int|
            0 <= r < reductions_upto(nodes, carried, outputs, k).len() ==> carried.subrange(0, k as int).contains(
                #[trigger] reductions_upto(nodes, carried, outputs, k)[r].variable,
            ),
    decreases k,
{
    if k > 0 {
        law_reductions_of_carried(nodes, carried, outputs, (k - 1) as nat);
        let prev = reductions_upto(nodes, carried, outputs, (k - 1) as nat);
        let cur = reductions_upto(nodes, carried, outputs, k);
        assert forall|r: int| 0 <= r < cur.len() implies carried.subrange(0, k as int).contains(
            #[trigger] cur[r].variable,
        ) by {
            if r < prev.len() {
                assert(cur[r] == prev[r]);
                let pre = carried.subrange(0, k - 1);
                let w = choose|w: int| 0 <= w < pre.len() && pre[w] == prev[r].variable;
                assert(carried.subrange(0, k as int)[w] == prev[r].variable);
            } else {
                assert(carried.subrange(0, k as int)[k - 1] == carried[k - 1]);
            }
        }
    }
}


/// A loop whose termination condition compares its first carried variable
/// with a `u64` constant (on either side) runs that constant's number of
/// times.
pub proof fn law_trip_count_of_counted_loop(
    nodes: Seq<Node>,
    termination: NodeId,
    carried: Seq<NodeId>,
    k: NodeKind,
    c: u64,
)
    requires
        carried.len() > 0,
        kind_of(nodes, termination) == Some(k),
        comparison_operands(k) matches Some((lhs, rhs)) && ((lhs == carried[0] && constant_u64(nodes, rhs)
            == Some(c)) || (rhs == carried[0] && lhs != carried[0] && constant_u64(nodes, lhs) == Some(c))),
    ensures
        spec_trip_count(nodes, termination, carried) == Some(c),
        k is Lt || k is Le || k is Gt || k is Ge || k is Eq || k is Ne,
{
}

/// A carried variable updated by an associative operation with another
/// value (on either side) is a reduction of that operation's kind, with
/// the other value as its invariant operand: `sum` for `+`, `product` for
/// `*`, `bitwise_and`, `bitwise_or` and `bitwise_xor` for the bitwise and
/// boolean operations (`!=` on booleans being exclusive or).
pub proof fn law_reduction_kinds(carry: NodeId, other: NodeId)
    requires
        carry != other,
    ensures
        spec_reduction_of(NodeKind::Add { lhs: carry, rhs: other }, carry) == Some(
            ReductionView { variable: carry, reduction_kind: "sum"@, invariant_value: other },
        ),
        spec_reduction_of(NodeKind::Add { lhs: other, rhs: carry }, carry) == Some(
            ReductionView { variable: carry, reduction_kind: "sum"@, invariant_value: other },
        ),
        spec_reduction_of(NodeKind::Mul { lhs: carry, rhs: other }, carry) == Some(
            ReductionView { variable: carry, reduction_kind: "product"@, invariant_value: other },
        ),
        spec_reduction_of(NodeKind::Mul { lhs: other, rhs: carry }, carry) == Some(
            ReductionView { variable: carry, reduction_kind: "product"@, invariant_value: other },
        ),
        spec_reduction_of(NodeKind::And { lhs: carry, rhs: other }, carry) == Some(
            ReductionView { variable: carry, reduction_kind: "bitwise_and"@, invariant_value: other },
        ),
        spec_reduction_of(NodeKind::And { lhs: other, rhs: carry }, carry) == Some(
            ReductionView { variable: carry, reduction_kind: "bitwise_and"@, invariant_value: other },
        ),
        spec_reduction_of(NodeKind::BoolAnd { lhs: carry, rhs: other }, carry) == Some(
            ReductionView { variable: carry, reduction_kind: "bitwise_and"@, invariant_value: other },
        ),
        spec_reduction_of(NodeKind::BoolAnd { lhs: other, rhs: carry }, carry) == Some(
            ReductionView { variable: carry, reduction_kind: "bitwise_and"@, invariant_value: other },
        ),
        spec_reduction_of(NodeKind::Or { lhs: carry, rhs: other }, carry) == Some(
            ReductionView { variable: carry, reduction_kind: "bitwise_or"@, invariant_value: other },
        ),
        spec_reduction_of(NodeKind::Or { lhs: other, rhs: carry }, carry) == Some(
            ReductionView { variable: carry, reduction_kind: "bitwise_or"@, invariant_value: other },
        ),
        spec_reduction_of(NodeKind::BoolOr { lhs: carry, rhs: other }, carry) == Some(
            ReductionView { variable: carry, reduction_kind: "bitwise_or"@, invariant_value: other },
        ),
        spec_reduction_of(NodeKind::BoolOr { lhs: other, rhs: carry }, carry) == Some(
            ReductionView { variable: carry, reduction_kind: "bitwise_or"@, invariant_value: other },
        ),
        spec_reduction_of(NodeKind::Xor { lhs: carry, rhs: other }, carry) == Some(
            ReductionView { variable: carry, reduction_kind: "bitwise_xor"@, invariant_value: other },
        ),
        spec_reduction_of(NodeKind::Xor { lhs: other, rhs: carry }, carry) == Some(
            ReductionView { variable: carry, reduction_kind: "bitwise_xor"@, invariant_value: other },
        ),
        spec_reduction_of(NodeKind::Ne { lhs: carry, rhs: other }, carry) == Some(
            ReductionView { variable: carry, reduction_kind: "bitwise_xor"@, invariant_value: other },
        ),
        spec_reduction_of(NodeKind::Ne { lhs: other, rhs: carry }, carry) == Some(
            ReductionView { variable: carry, reduction_kind: "bitwise_xor"@, invariant_value: other },
        ),
        spec_reduction_of(NodeKind::Sub { lhs: carry, rhs: other }, carry) is None,
{
}

} // verus!
