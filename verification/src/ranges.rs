//! Range analysis: interval bounds of integer values, with the special
//! properties non-zero, power of two and alignment.
//!
//! Nodes are visited in the topological order; each node's range is
//! computed from its operation and the ranges already computed for its
//! operands (an operand without a range yet is left out).
use vstd::prelude::*;
use vstd::arithmetic::power2::{pow2, is_pow2, lemma_pow2_unfold};
use crate::facts::{ConstantData, RangeFact, integer_value, fits_i128, integer_of_bits, lemma_pow2_values, lemma_pow2_monotone};
use crate::ir::{Function, Node, NodeId, NodeKind, kind_of};
use crate::graph::{spec_dataflow_inputs, dataflow_inputs, spec_topological_sort, topological_sort};
use crate::factmap::FactMap;
use crate::visit::{facts_over, node_of, lemma_topological_facts_dom, lemma_topological_facts_fixed};

verus! {

// ── Constants ───────────────────────────────────────────────────────────

/// The value of a constant as an `i128`, where it has one.
pub open spec fn constant_int(d: ConstantData) -> Option<i128> {
    match d {
        ConstantData::Integer { bits, signed, width } => {
            let v = integer_value(bits, signed, width);
            if fits_i128(v) {
                Some(v as i128)
            } else {
                None
            }
        },
        ConstantData::Bool(b) => Some(if b { 1i128 } else { 0i128 }),
        ConstantData::Unit => None,
    }
}

/// The number of times 2 divides `n` (0 for 0).
pub open spec fn twos(n: nat) -> nat
    decreases n,
{
    if n == 0 || n % 2 == 1 {
        0
    } else {
        1 + twos(n / 2)
    }
}

pub open spec fn magnitude(v: i128) -> nat {
    if v < 0 {
        (-v) as nat
    } else {
        v as nat
    }
}

/// The range of a constant: exactly its value, with the value's
/// properties; nothing is known of a constant without an integer value.
pub open spec fn spec_constant_range(d: ConstantData) -> RangeFact {
    let v = constant_int(d);
    RangeFact {
        lower: v,
        upper: v,
        is_nonzero: v matches Some(x) && x != 0,
        is_power_of_two: v matches Some(x) && is_pow2(x as int),
        alignment: match v {
            Some(x) => byte_alignment(x),
            None => None,
        },
    }
}

/// The largest power-of-two byte boundary a non-zero value is aligned to:
/// `2^k` for the largest `k` with `2^k` dividing it; none for 0, and none
/// where that boundary does not fit in a `u64`.
#[verifier::opaque]
pub open spec fn byte_alignment(x: i128) -> Option<u64> {
    if x == 0 || twos(magnitude(x)) >= 64 {
        None
    } else {
        Some(pow2(twos(magnitude(x))) as u64)
    }
}

/// Whether `v` is a power of two.
fn is_power_of_two(v: i128) -> (b: bool)
    ensures
        b == is_pow2(v as int),
{
    reveal(is_pow2);
    if v <= 0 {
        return false;
    }
    let mut m: u128 = v as u128;
    while m > 1 && m % 2 == 0
        invariant
            m > 0,
            is_pow2(v as int) == is_pow2(m as int),
        decreases m,
    {
        proof {
            reveal(is_pow2);
        }
        m = m / 2;
    }
    m == 1
}

proof fn lemma_twos_bound(n: nat)
    requires
        n > 0,
    ensures
        pow2(twos(n)) <= n,
    decreases n,
{
    if n % 2 == 0 {
        lemma_twos_bound(n / 2);
        lemma_pow2_unfold(twos(n));
    } else {
        lemma_pow2_values();
    }
}

/// The number of trailing zero bits of a non-zero `v`.
fn trailing_zeros_of(v: i128) -> (k: u64)
    requires
        v != 0,
    ensures
        k == twos(magnitude(v)),
{
    let mag: u128 = if v > 0 {
        v as u128
    } else if v == i128::MIN {
        0x8000_0000_0000_0000_0000_0000_0000_0000u128
    } else {
        (-v) as u128
    };
    proof {
        lemma_twos_bound(mag as nat);
        lemma_pow2_values();
        if twos(mag as nat) >= 128 {
            lemma_pow2_monotone(128, twos(mag as nat));
        }
    }
    let mut m: u128 = mag;
    let mut k: u64 = 0;
    while m % 2 == 0
        invariant
            m > 0,
            twos(mag as nat) == k + twos(m as nat),
            twos(mag as nat) < 128,
        decreases m,
    {
        m = m / 2;
        k = k + 1;
    }
    k
}

/// The byte boundary a value is aligned to (see `byte_alignment`).
fn alignment_of(x: i128) -> (a: Option<u64>)
    ensures
        a == byte_alignment(x),
{
    reveal(byte_alignment);
    if x == 0 {
        return None;
    }
    let k = trailing_zeros_of(x);
    if k >= 64 {
        return None;
    }
    let mut p: u64 = 1;
    let mut i: u64 = 0;
    proof {
        lemma_pow2_values();
    }
    while i < k
        invariant
            i <= k,
            k < 64,
            p as nat == pow2(i as nat),
        decreases k - i,
    {
        proof {
            lemma_pow2_unfold((i + 1) as nat);
            lemma_pow2_monotone((i + 1) as nat, 63);
            vstd::arithmetic::power2::lemma2_to64();
            lemma_pow2_unfold(64);
        }
        p = p * 2;
        i = i + 1;
    }
    Some(p)
}

/// The range of a constant.
fn range_of_constant(data: &ConstantData) -> (r: RangeFact)
    ensures
        r == spec_constant_range(*data),
{
    let v: Option<i128> = match data {
        ConstantData::Integer { bits, signed, width } => integer_of_bits(*bits, *signed, *width),
        ConstantData::Bool(b) => Some(if *b { 1i128 } else { 0i128 }),
        ConstantData::Unit => None,
    };
    match v {
        Some(x) => RangeFact {
            lower: Some(x),
            upper: Some(x),
            is_nonzero: x != 0,
            is_power_of_two: is_power_of_two(x),
            alignment: alignment_of(x),
        },
        None => RangeFact {
            lower: None,
            upper: None,
            is_nonzero: false,
            is_power_of_two: false,
            alignment: None,
        },
    }
}

// ── Operations ──────────────────────────────────────────────────────────

/// `x` saturated to the `i128` range.
pub open spec fn saturate(x: int) -> i128 {
    if x > i128::MAX {
        i128::MAX
    } else if x < i128::MIN {
        i128::MIN
    } else {
        x as i128
    }
}

/// Nothing known.
pub open spec fn unknown_range() -> RangeFact {
    RangeFact { lower: None, upper: None, is_nonzero: false, is_power_of_two: false, alignment: None }
}

/// Exactly the bounds `[lo, hi]`, nothing else known.
pub open spec fn bounds_range(lo: Option<i128>, hi: Option<i128>) -> RangeFact {
    RangeFact { lower: lo, upper: hi, is_nonzero: false, is_power_of_two: false, alignment: None }
}

/// The ranges of the given operands that have one, in order.
pub open spec fn present_ranges(ids: Seq<NodeId>, m: Map<NodeId, RangeFact>) -> Seq<RangeFact>
    decreases ids.len(),
{
    if ids.len() == 0 {
        Seq::empty()
    } else {
        let r = present_ranges(ids.drop_last(), m);
        if m.dom().contains(ids.last()) {
            r.push(m[ids.last()])
        } else {
            r
        }
    }
}

/// Saturating sum of two bounds, when both are known.
pub open spec fn sum_bound(a: Option<i128>, b: Option<i128>) -> Option<i128> {
    match (a, b) {
        (Some(x), Some(y)) => Some(saturate(x + y)),
        _ => None,
    }
}

/// Saturating product of two bounds, when both are known.
pub open spec fn product_bound(a: Option<i128>, b: Option<i128>) -> Option<i128> {
    match (a, b) {
        (Some(x), Some(y)) => Some(saturate(x * y)),
        _ => None,
    }
}

/// The smaller of the known values, if any is known.
pub open spec fn min_known(a: Option<i128>, b: Option<i128>) -> Option<i128> {
    match (a, b) {
        (Some(x), Some(y)) => Some(if x <= y { x } else { y }),
        (Some(x), None) => Some(x),
        (None, y) => y,
    }
}

/// The larger of the known values, if any is known.
pub open spec fn max_known(a: Option<i128>, b: Option<i128>) -> Option<i128> {
    match (a, b) {
        (Some(x), Some(y)) => Some(if x >= y { x } else { y }),
        (Some(x), None) => Some(x),
        (None, y) => y,
    }
}

pub open spec fn positive(lo: Option<i128>) -> bool {
    lo matches Some(v) && v > 0
}

/// `a + b`: saturating sums of the bounds.
pub open spec fn add_range(a: RangeFact, b: RangeFact) -> RangeFact {
    let lo = sum_bound(a.lower, b.lower);
    RangeFact {
        lower: lo,
        upper: sum_bound(a.upper, b.upper),
        is_nonzero: positive(lo),
        is_power_of_two: false,
        alignment: None,
    }
}

/// `a * b`: the least and greatest of the known products of bounds.
pub open spec fn mul_range(a: RangeFact, b: RangeFact) -> RangeFact {
    let c1 = product_bound(a.lower, b.lower);
    let c2 = product_bound(a.lower, b.upper);
    let c3 = product_bound(a.upper, b.lower);
    let c4 = product_bound(a.upper, b.upper);
    let lo = min_known(min_known(min_known(c1, c2), c3), c4);
    RangeFact {
        lower: lo,
        upper: max_known(max_known(max_known(c1, c2), c3), c4),
        is_nonzero: positive(lo),
        is_power_of_two: false,
        alignment: None,
    }
}

/// `a & b`: from 0 to the upper bound of `b`.
pub open spec fn and_range(b: RangeFact) -> RangeFact {
    bounds_range(Some(0i128), b.upper)
}

pub open spec fn shift_in_range(v: i128) -> bool {
    0 <= v < 128
}

/// `a << b`, known when both lower bounds are and the shift is below 128.
pub open spec fn shl_range(a: RangeFact, b: RangeFact) -> RangeFact {
    match (a.lower, b.lower) {
        (Some(av), Some(bv)) => if shift_in_range(bv) {
            let shifted = av << (bv as u32);
            RangeFact {
                lower: Some(shifted),
                upper: match (a.upper, b.upper) {
                    (Some(au), Some(bu)) => Some(
                        if shift_in_range(bu) {
                            au << (bu as u32)
                        } else {
                            au
                        },
                    ),
                    _ => None,
                },
                is_nonzero: shifted != 0,
                is_power_of_two: bv == 1 && av == 1,
                alignment: None,
            }
        } else {
            unknown_range()
        },
        _ => unknown_range(),
    }
}

/// Whether the node kind is a comparison or a boolean operation.
pub open spec fn is_boolean_kind(kind: NodeKind) -> bool {
    match kind {
        NodeKind::Eq { .. } | NodeKind::Ne { .. } | NodeKind::Lt { .. } | NodeKind::Le { .. }
        | NodeKind::Gt { .. } | NodeKind::Ge { .. } | NodeKind::BoolAnd { .. } | NodeKind::BoolOr { .. }
        | NodeKind::BoolNot { .. } => true,
        _ => false,
    }
}

/// The range of a non-constant node, given the ranges computed so far.
pub open spec fn spec_compute_range(kind: NodeKind, m: Map<NodeId, RangeFact>) -> RangeFact {
    if kind is ArrayCmpMask {
        bounds_range(Some(0i128), None)
    } else if kind is Popcount {
        bounds_range(Some(0i128), Some(64i128))
    } else if is_boolean_kind(kind) {
        bounds_range(Some(0i128), Some(1i128))
    } else {
        let rs = present_ranges(spec_dataflow_inputs(kind), m);
        if rs.len() != 2 {
            unknown_range()
        } else {
            match kind {
                NodeKind::Add { .. } => add_range(rs[0], rs[1]),
                NodeKind::Mul { .. } => mul_range(rs[0], rs[1]),
                NodeKind::And { .. } => and_range(rs[1]),
                NodeKind::Shl { .. } => shl_range(rs[0], rs[1]),
                _ => unknown_range(),
            }
        }
    }
}

fn saturating_sum(a: i128, b: i128) -> (r: i128)
    ensures
        r == saturate(a + b),
{
    match a.checked_add(b) {
        Some(v) => v,
        None => if a > 0 {
            i128::MAX
        } else {
            i128::MIN
        },
    }
}

fn saturating_product(a: i128, b: i128) -> (r: i128)
    ensures
        r == saturate(a * b),
{
    match a.checked_mul(b) {
        Some(v) => v,
        None => {
            proof {
                if a > 0 && b < 0 {
                    assert(a * b < 0) by (nonlinear_arith)
                        requires
                            a > 0,
                            b < 0,
                    ;
                }
                if a < 0 && b > 0 {
                    assert(a * b < 0) by (nonlinear_arith)
                        requires
                            a < 0,
                            b > 0,
                    ;
                }
                if a > 0 && b > 0 {
                    assert(a * b > 0) by (nonlinear_arith)
                        requires
                            a > 0,
                            b > 0,
                    ;
                }
                if a < 0 && b < 0 {
                    assert(a * b > 0) by (nonlinear_arith)
                        requires
                            a < 0,
                            b < 0,
                    ;
                }
            }
            if (a > 0) == (b > 0) {
                i128::MAX
            } else {
                i128::MIN
            }
        },
    }
}

fn exec_sum_bound(a: Option<i128>, b: Option<i128>) -> (r: Option<i128>)
    ensures
        r == sum_bound(a, b),
{
    match (a, b) {
        (Some(x), Some(y)) => Some(saturating_sum(x, y)),
        _ => None,
    }
}

fn exec_product_bound(a: Option<i128>, b: Option<i128>) -> (r: Option<i128>)
    ensures
        r == product_bound(a, b),
{
    match (a, b) {
        (Some(x), Some(y)) => Some(saturating_product(x, y)),
        _ => None,
    }
}

fn exec_min_known(a: Option<i128>, b: Option<i128>) -> (r: Option<i128>)
    ensures
        r == min_known(a, b),
{
    match (a, b) {
        (Some(x), Some(y)) => Some(if x <= y { x } else { y }),
        (Some(x), None) => Some(x),
        (None, y) => y,
    }
}

fn exec_max_known(a: Option<i128>, b: Option<i128>) -> (r: Option<i128>)
    ensures
        r == max_known(a, b),
{
    match (a, b) {
        (Some(x), Some(y)) => Some(if x >= y { x } else { y }),
        (Some(x), None) => Some(x),
        (None, y) => y,
    }
}

fn exec_shl(v: i128, s: i128) -> (r: i128)
    requires
        shift_in_range(s),
    ensures
        r == v << (s as u32),
{
    v.wrapping_shl(s as u32)
}

fn exec_shl_range(a: &RangeFact, b: &RangeFact) -> (r: RangeFact)
    ensures
        r == shl_range(*a, *b),
{
    match (a.lower, b.lower) {
        (Some(av), Some(bv)) => {
            if bv >= 0 && bv < 128 {
                let shifted = exec_shl(av, bv);
                let upper = match (a.upper, b.upper) {
                    (Some(au), Some(bu)) => Some(
                        if bu >= 0 && bu < 128 {
                            exec_shl(au, bu)
                        } else {
                            au
                        },
                    ),
                    _ => None,
                };
                RangeFact {
                    lower: Some(shifted),
                    upper,
                    is_nonzero: shifted != 0,
                    is_power_of_two: bv == 1 && av == 1,
                    alignment: None,
                }
            } else {
                RangeFact { lower: None, upper: None, is_nonzero: false, is_power_of_two: false, alignment: None }
            }
        },
        _ => RangeFact { lower: None, upper: None, is_nonzero: false, is_power_of_two: false, alignment: None },
    }
}

/// The ranges of `ids` present in `facts`, in order.
fn collect_ranges(ids: &Vec<NodeId>, facts: &FactMap<RangeFact>) -> (r: Vec<RangeFact>)
    requires
        facts.wf(),
    ensures
        r@ == present_ranges(ids@, facts@),
{
    let mut r: Vec<RangeFact> = Vec::new();
    let mut i: usize = 0;
    while i < ids.len()
        invariant
            i <= ids@.len(),
            facts.wf(),
            r@ == present_ranges(ids@.subrange(0, i as int), facts@),
        decreases ids@.len() - i,
    {
        proof {
            assert(ids@.subrange(0, i + 1).drop_last() =~= ids@.subrange(0, i as int));
        }
        match facts.get(ids[i]) {
            Some(f) => r.push(*f),
            None => {},
        }
        i += 1;
    }
    proof {
        assert(ids@.subrange(0, ids@.len() as int) =~= ids@);
    }
    r
}

/// The range of a non-constant node from its operation and the ranges
/// computed so far for its operands.
fn compute_range(kind: &NodeKind, facts: &FactMap<RangeFact>) -> (r: RangeFact)
    requires
        facts.wf(),
    ensures
        r == spec_compute_range(*kind, facts@),
{
    let unknown = RangeFact { lower: None, upper: None, is_nonzero: false, is_power_of_two: false, alignment: None };
    match kind {
        NodeKind::ArrayCmpMask { .. } => {
            return RangeFact {
                lower: Some(0),
                upper: None,
                is_nonzero: false,
                is_power_of_two: false,
                alignment: None,
            };
        },
        NodeKind::Popcount { .. } => {
            return RangeFact {
                lower: Some(0),
                upper: Some(64),
                is_nonzero: false,
                is_power_of_two: false,
                alignment: None,
            };
        },
        NodeKind::Eq { .. } | NodeKind::Ne { .. } | NodeKind::Lt { .. } | NodeKind::Le { .. }
        | NodeKind::Gt { .. } | NodeKind::Ge { .. } | NodeKind::BoolAnd { .. } | NodeKind::BoolOr { .. }
        | NodeKind::BoolNot { .. } => {
            return RangeFact {
                lower: Some(0),
                upper: Some(1),
                is_nonzero: false,
                is_power_of_two: false,
                alignment: None,
            };
        },
        _ => {},
    }
    let inputs = dataflow_inputs(kind);
    let input_ranges = collect_ranges(&inputs, facts);
    if input_ranges.len() == 0 {
        return unknown;
    }
    match kind {
        NodeKind::Add { .. } => {
            if input_ranges.len() == 2 {
                let a = input_ranges[0];
                let b = input_ranges[1];
                let lo = exec_sum_bound(a.lower, b.lower);
                let hi = exec_sum_bound(a.upper, b.upper);
                RangeFact {
                    lower: lo,
                    upper: hi,
                    is_nonzero: match lo {
                        Some(v) => v > 0,
                        None => false,
                    },
                    is_power_of_two: false,
                    alignment: None,
                }
            } else {
                unknown
            }
        },
        NodeKind::Mul { .. } => {
            if input_ranges.len() == 2 {
                let a = input_ranges[0];
                let b = input_ranges[1];
                let c1 = exec_product_bound(a.lower, b.lower);
                let c2 = exec_product_bound(a.lower, b.upper);
                let c3 = exec_product_bound(a.upper, b.lower);
                let c4 = exec_product_bound(a.upper, b.upper);
                let lo = exec_min_known(exec_min_known(exec_min_known(c1, c2), c3), c4);
                let hi = exec_max_known(exec_max_known(exec_max_known(c1, c2), c3), c4);
                RangeFact {
                    lower: lo,
                    upper: hi,
                    is_nonzero: match lo {
                        Some(v) => v > 0,
                        None => false,
                    },
                    is_power_of_two: false,
                    alignment: None,
                }
            } else {
                unknown
            }
        },
        NodeKind::And { .. } => {
            if input_ranges.len() == 2 {
                let b = input_ranges[1];
                RangeFact {
                    lower: Some(0),
                    upper: b.upper,
                    is_nonzero: false,
                    is_power_of_two: false,
                    alignment: None,
                }
            } else {
                unknown
            }
        },
        NodeKind::Shl { .. } => {
            if input_ranges.len() == 2 {
                exec_shl_range(&input_ranges[0], &input_ranges[1])
            } else {
                unknown
            }
        },
        _ => unknown,
    }
}

// ── The analysis ────────────────────────────────────────────────────────

/// The range of a node of kind `kind`, given the ranges computed so far.
pub open spec fn node_range(kind: NodeKind, m: Map<NodeId, RangeFact>) -> RangeFact {
    match kind {
        NodeKind::Constant(d) => spec_constant_range(d),
        _ => spec_compute_range(kind, m),
    }
}

/// The range step of the visit: a node's range from its kind.
pub open spec fn range_step() -> spec_fn(Node, Map<NodeId, RangeFact>) -> RangeFact {
    |n: Node, m: Map<NodeId, RangeFact>| node_range(n.kind, m)
}

/// The ranges after visiting the nodes of `order` in turn.
pub open spec fn ranges_over(nodes: Seq<Node>, order: Seq<NodeId>) -> Map<NodeId, RangeFact> {
    facts_over(nodes, order, range_step())
}

/// Runs range analysis: visits the nodes in the topological order and
/// records each node's range.
pub fn run_ranges(func: &Function) -> (facts: FactMap<RangeFact>)
    ensures
        facts.wf(),
        facts@ == ranges_over(func.arena@, spec_topological_sort(func.arena@)),
{
    let order = topological_sort(func);
    let mut facts: FactMap<RangeFact> = FactMap::new();
    let mut i: usize = 0;
    while i < order.len()
        invariant
            i <= order@.len(),
            facts.wf(),
            facts@ == ranges_over(func.arena@, order@.subrange(0, i as int)),
        decreases order@.len() - i,
    {
        let id = order[i];
        proof {
            assert(order@.subrange(0, i + 1).drop_last() =~= order@.subrange(0, i as int));
        }
        match func.get_node(id) {
            Some(node) => {
                let range = match &node.kind {
                    NodeKind::Constant(data) => range_of_constant(data),
                    _ => compute_range(&node.kind, &facts),
                };
                facts.insert(id, range);
            },
            None => {},
        }
        i += 1;
    }
    proof {
        assert(order@.subrange(0, order@.len() as int) =~= order@);
    }
    facts
}

/// Range analysis gives a range to exactly the nodes of the arena.
pub proof fn law_ranges_cover_arena(nodes: Seq<Node>, x: NodeId)
    ensures
        ranges_over(nodes, spec_topological_sort(nodes)).dom().contains(x) <==> exists|i: int|
            0 <= i < nodes.len() && nodes[i].id == x,
{
    lemma_topological_facts_dom(nodes, range_step(), x);
}

/// A constant node's range is exactly its value, whatever the rest of the
/// function.
pub proof fn law_constant_range_exact(nodes: Seq<Node>, x: NodeId, d: ConstantData)
    requires
        kind_of(nodes, x) == Some(NodeKind::Constant(d)),
    ensures
        ranges_over(nodes, spec_topological_sort(nodes)).dom().contains(x),
        ranges_over(nodes, spec_topological_sort(nodes))[x] == spec_constant_range(d),
{
    let n = node_of(nodes, x)->0;
    assert forall|m: Map<NodeId, RangeFact>| #[trigger] range_step()(n, m) == spec_constant_range(d) by {}
    lemma_topological_facts_fixed(nodes, range_step(), x, n, spec_constant_range(d));
}

/// Comparisons and boolean operations range over `[0, 1]`, and a popcount
/// over `[0, 64]`, whatever their operands.
pub proof fn law_bounded_results(nodes: Seq<Node>, x: NodeId, k: NodeKind)
    requires
        kind_of(nodes, x) == Some(k),
        is_boolean_kind(k) || k is Popcount,
    ensures
        ranges_over(nodes, spec_topological_sort(nodes)).dom().contains(x),
        ranges_over(nodes, spec_topological_sort(nodes))[x].lower == Some(0i128),
        ranges_over(nodes, spec_topological_sort(nodes))[x].upper == Some(
            if k is Popcount {
                64i128
            } else {
                1i128
            },
        ),
{
    let v = if k is Popcount {
        bounds_range(Some(0i128), Some(64i128))
    } else {
        bounds_range(Some(0i128), Some(1i128))
    };
    let n = node_of(nodes, x)->0;
    assert forall|m: Map<NodeId, RangeFact>| #[trigger] range_step()(n, m) == v by {}
    lemma_topological_facts_fixed(nodes, range_step(), x, n, v);
}

/// The range rules per operation: comparisons and boolean operations give
/// `[0, 1]`, a popcount `[0, 64]`, a mask comparison `[0, unbounded)`; an
/// addition of two operands with ranges adds the bounds (saturating) and is
/// non-zero when its lower bound is positive; a multiplication takes the
/// least and greatest products of the bounds; a left shift shifts the
/// bounds.
pub proof fn law_range_rules(kind: NodeKind, m: Map<NodeId, RangeFact>)
    ensures
        is_boolean_kind(kind) ==> spec_compute_range(kind, m).lower == Some(0i128) && spec_compute_range(
            kind,
            m,
        ).upper == Some(1i128),
        kind is Popcount ==> spec_compute_range(kind, m).lower == Some(0i128) && spec_compute_range(kind, m).upper
            == Some(64i128),
        kind is ArrayCmpMask ==> spec_compute_range(kind, m).lower == Some(0i128) && spec_compute_range(
            kind,
            m,
        ).upper is None,
        kind matches NodeKind::Add { lhs, rhs } ==> (m.dom().contains(lhs) && m.dom().contains(rhs)
            ==> spec_compute_range(kind, m) == add_range(m[lhs], m[rhs])),
        kind matches NodeKind::Mul { lhs, rhs } ==> (m.dom().contains(lhs) && m.dom().contains(rhs)
            ==> spec_compute_range(kind, m) == mul_range(m[lhs], m[rhs])),
        kind matches NodeKind::Shl { lhs, rhs } ==> (m.dom().contains(lhs) && m.dom().contains(rhs)
            ==> spec_compute_range(kind, m) == shl_range(m[lhs], m[rhs])),
{
    match kind {
        NodeKind::Add { lhs, rhs } => {
            reveal(spec_dataflow_inputs);
            assert(spec_dataflow_inputs(kind) =~= seq![lhs, rhs]);
            reveal_with_fuel(present_ranges, 3);
            assert(seq![lhs, rhs].drop_last() =~= seq![lhs]);
            assert(seq![lhs].drop_last() =~= Seq::<NodeId>::empty());
        },
        NodeKind::Mul { lhs, rhs } | NodeKind::Shl { lhs, rhs } => {
            reveal(spec_dataflow_inputs);
            assert(spec_dataflow_inputs(kind) =~= seq![lhs, rhs]);
            reveal_with_fuel(present_ranges, 3);
            assert(seq![lhs, rhs].drop_last() =~= seq![lhs]);
            assert(seq![lhs].drop_last() =~= Seq::<NodeId>::empty());
        },
        _ => {},
    }
}


/// Shifting a non-negative `x` left by `s` multiplies it by `2^s` while the
/// product fits.
proof fn lemma_shl_is_mul(x: i128, s: u32)
    requires
        0 <= x,
        s < 128,
        x * pow2(s as nat) <= i128::MAX,
    ensures
        x << s == x * pow2(s as nat),
    decreases s,
{
    if s == 0 {
        assert(x << 0u32 == x) by (bit_vector);
        lemma_pow2_values();
    } else {
        let t: u32 = (s - 1) as u32;
        assert(x << s == (x << t) << 1u32) by (bit_vector)
            requires
                0 < s < 128,
                t == s - 1,
        ;
        lemma_pow2_unfold(s as nat);
        vstd::arithmetic::power2::lemma_pow2_pos(t as nat);
        assert(x * pow2(t as nat) <= x * pow2(s as nat)) by (nonlinear_arith)
            requires
                0 <= x,
                pow2(s as nat) == 2 * pow2(t as nat),
                pow2(t as nat) > 0,
        ;
        lemma_shl_is_mul(x, t);
        let y: i128 = x << t;
        assert(y * 2 == x * pow2(s as nat)) by (nonlinear_arith)
            requires
                y == x * pow2(t as nat),
                pow2(s as nat) == 2 * pow2(t as nat),
        ;
        assert(0 <= y <= 0x3fff_ffff_ffff_ffff_ffff_ffff_ffff_ffff);
        assert(y << 1u32 == y + y) by (bit_vector)
            requires
                0 <= y <= 0x3fff_ffff_ffff_ffff_ffff_ffff_ffff_ffff,
        ;
    }
}


/// The range of `a << b` is sound for non-negative values: for every `x` in
/// `a` and every shift `s` in `b` (shifts from 0 to 127), when the greatest
/// product fits, the range is `[a.lower * 2^b.lower, a.upper * 2^b.upper]`
/// and holds `x << s = x * 2^s`; and `x << s` is non-zero where the range
/// says so.
pub proof fn law_shl_range_sound(a: RangeFact, b: RangeFact, x: i128, s: i128)
    requires
        a.lower is Some,
        a.upper is Some,
        b.lower is Some,
        b.upper is Some,
        0 <= a.lower->0 <= x <= a.upper->0,
        0 <= b.lower->0 <= s <= b.upper->0 < 128,
        a.upper->0 * pow2(b.upper->0 as nat) <= i128::MAX,
    ensures
        x << (s as u32) == x * pow2(s as nat),
        shl_range(a, b).lower == Some((a.lower->0 * pow2(b.lower->0 as nat)) as i128),
        shl_range(a, b).upper == Some((a.upper->0 * pow2(b.upper->0 as nat)) as i128),
        shl_range(a, b).lower->0 <= x << (s as u32) <= shl_range(a, b).upper->0,
        shl_range(a, b).is_nonzero ==> x << (s as u32) != 0,
{
    let al = a.lower->0;
    let au = a.upper->0;
    let bl = b.lower->0;
    let bu = b.upper->0;
    lemma_pow2_monotone(bl as nat, s as nat);
    lemma_pow2_monotone(s as nat, bu as nat);
    vstd::arithmetic::power2::lemma_pow2_pos(bl as nat);
    let pl = pow2(bl as nat);
    let ps = pow2(s as nat);
    let pu = pow2(bu as nat);
    assert(al * pl <= x * ps) by (nonlinear_arith)
        requires
            0 <= al <= x,
            0 < pl <= ps,
    ;
    assert(x * ps <= au * pu) by (nonlinear_arith)
        requires
            0 <= x <= au,
            0 < ps <= pu,
    ;
    assert(0 <= al * pl) by (nonlinear_arith)
        requires
            0 <= al,
            0 < pl,
    ;
    lemma_shl_is_mul(al, bl as u32);
    lemma_shl_is_mul(x, s as u32);
    lemma_shl_is_mul(au, bu as u32);
}


/// `x` lies within the known bounds of `r`.
pub open spec fn within(r: RangeFact, x: int) -> bool {
    &&& match r.lower {
        Some(l) => l <= x,
        None => true,
    }
    &&& match r.upper {
        Some(u) => x <= u,
        None => true,
    }
}

/// The range of `a + b` is sound: for every `x` within `a` and `y` within
/// `b` whose sum fits in an `i128`, the sum lies within the range, and is
/// non-zero where the range says so.
pub proof fn law_add_range_sound(a: RangeFact, b: RangeFact, x: int, y: int)
    requires
        within(a, x),
        within(b, y),
        i128::MIN <= x + y <= i128::MAX,
    ensures
        within(add_range(a, b), x + y),
        add_range(a, b).is_nonzero ==> x + y != 0,
{
}

/// `x * y` for `x` in `[al, au]` lies between the least and greatest of
/// `al * y` and `au * y`.
proof fn lemma_product_between(al: int, au: int, x: int, y: int)
    requires
        al <= x <= au,
    ensures
        (al * y <= x * y <= au * y) || (au * y <= x * y <= al * y),
{
    if y >= 0 {
        assert(al * y <= x * y <= au * y) by (nonlinear_arith)
            requires
                al <= x <= au,
                y >= 0,
        ;
    } else {
        assert(au * y <= x * y <= al * y) by (nonlinear_arith)
            requires
                al <= x <= au,
                y < 0,
        ;
    }
}

/// The range of `a * b` is sound when both operands have both bounds: for
/// every `x` within `a` and `y` within `b` whose product fits in an `i128`,
/// the product lies within the range, and is non-zero where the range says
/// so.
pub proof fn law_mul_range_sound(a: RangeFact, b: RangeFact, x: int, y: int)
    requires
        a.lower is Some,
        a.upper is Some,
        b.lower is Some,
        b.upper is Some,
        within(a, x),
        within(b, y),
        i128::MIN <= x * y <= i128::MAX,
    ensures
        within(mul_range(a, b), x * y),
        mul_range(a, b).is_nonzero ==> x * y != 0,
{
    let al = a.lower->0 as int;
    let au = a.upper->0 as int;
    let bl = b.lower->0 as int;
    let bu = b.upper->0 as int;
    lemma_product_between(al, au, x, y);
    lemma_product_between(bl, bu, y, al);
    lemma_product_between(bl, bu, y, au);
    assert(y * al == al * y && y * au == au * y && bl * al == al * bl && bu * al == al * bu && bl * au == au * bl
        && bu * au == au * bu) by (nonlinear_arith);
}

/// The range of `x & y` is sound for a non-negative `y`: the result lies
/// within `[0, b.upper]` for every `y` within `b`.
pub proof fn law_and_range_sound(b: RangeFact, x: i128, y: i128)
    requires
        within(b, y as int),
        0 <= y,
    ensures
        within(and_range(b), (x & y) as int),
{
    assert(0 <= (x & y) && (x & y) <= y) by (bit_vector)
        requires
            0 <= y,
    ;
}


/// `n` is `2^twos(n)` times an odd number.
proof fn lemma_twos_odd_part(n: nat)
    requires
        n > 0,
    ensures
        n == pow2(twos(n)) * (n / pow2(twos(n))),
        (n / pow2(twos(n))) % 2 == 1,
    decreases n,
{
    if n % 2 == 1 {
        lemma_pow2_values();
        assert(twos(n) == 0);
        assert(n / pow2(0) == n);
    } else {
        let m = n / 2;
        assert(n == 2 * m);
        lemma_twos_odd_part(m);
        let t = twos(m);
        let q = m / pow2(t);
        lemma_pow2_unfold(t + 1);
        vstd::arithmetic::power2::lemma_pow2_pos(t + 1);
        assert(twos(n) == t + 1);
        assert(n == pow2(t + 1) * q) by (nonlinear_arith)
            requires
                n == 2 * m,
                m == pow2(t) * q,
                pow2(t + 1) == 2 * pow2(t),
        ;
        vstd::arithmetic::div_mod::lemma_div_multiples_vanish(q as int, pow2(t + 1) as int);
        assert(n / pow2(twos(n)) == q);
    }
}

/// `2^k` is a power of two.
proof fn lemma_pow2_is_pow2(k: nat)
    ensures
        is_pow2(pow2(k) as int),
{
    vstd::arithmetic::power2::lemma_pow2(k);
    vstd::arithmetic::power2::is_pow2_equiv(pow2(k) as int);
    assert(vstd::arithmetic::power2::is_pow2_exists(pow2(k) as int));
}

/// A value's alignment is the largest power of two dividing it: a power
/// of two `a` that divides `|x|` with an odd quotient. Zero has none, and
/// neither has a value divisible by `2^64`; every other value has one.
pub proof fn law_alignment_largest_power(x: i128)
    ensures
        byte_alignment(x) matches Some(a) ==> (a > 0 && is_pow2(a as int) && magnitude(x) % (a as nat) == 0 && (
        magnitude(x) / (a as nat)) % 2 == 1),
        x == 0 ==> byte_alignment(x) is None,
        x != 0 && magnitude(x) % pow2(64) != 0 ==> byte_alignment(x) is Some,
{
    reveal(byte_alignment);
    if x != 0 {
        let m = magnitude(x);
        let t = twos(m);
        lemma_twos_odd_part(m);
        vstd::arithmetic::power2::lemma_pow2_pos(t);
        let q = m / pow2(t);
        if t < 64 {
            crate::facts::lemma_pow2_monotone(t, 64);
            vstd::arithmetic::power2::lemma2_to64();
            lemma_pow2_is_pow2(t);
            assert(pow2(t) < 0x1_0000_0000_0000_0000) by {
                crate::facts::lemma_pow2_monotone(t, 63);
                vstd::arithmetic::power2::lemma2_to64_rest();
            }
            vstd::arithmetic::div_mod::lemma_mod_multiples_basic(q as int, pow2(t) as int);
            assert(m % pow2(t) == 0) by (nonlinear_arith)
                requires
                    m == pow2(t) * q,
                    (q * pow2(t)) % pow2(t) == 0,
            ;
        } else {
            vstd::arithmetic::power2::lemma_pow2_adds(64, (t - 64) as nat);
            let r = pow2((t - 64) as nat) * q;
            assert(m == pow2(64) * r) by (nonlinear_arith)
                requires
                    m == pow2(t) * q,
                    pow2(t) == pow2(64) * pow2((t - 64) as nat),
                    r == pow2((t - 64) as nat) * q,
            ;
            vstd::arithmetic::power2::lemma_pow2_pos(64);
            vstd::arithmetic::div_mod::lemma_mod_multiples_basic(r as int, pow2(64) as int);
            assert(m % pow2(64) == 0) by (nonlinear_arith)
                requires
                    m == pow2(64) * r,
                    (r * pow2(64)) % pow2(64) == 0,
            ;
        }
    }
}

/// A constant with a value `v` has the range `[v, v]`, is non-zero exactly
/// when `v` is, a power of two exactly when `v` is, and has `v`'s
/// alignment.
pub proof fn law_constant_range_properties(d: ConstantData, v: i128)
    requires
        constant_int(d) == Some(v),
    ensures
        spec_constant_range(d).lower == Some(v),
        spec_constant_range(d).upper == Some(v),
        spec_constant_range(d).is_nonzero == (v != 0),
        spec_constant_range(d).is_power_of_two == is_pow2(v as int),
        spec_constant_range(d).alignment == byte_alignment(v),
{
}

} // verus!
