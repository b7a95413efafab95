//! Constant propagation: a three-level lattice per node,
//! `Top` (unknown) above `Constant(v)` above `Bottom` (overdefined),
//! solved by a worklist iteration.
//!
//! Folded arithmetic wraps on overflow, as the machine's two's-complement
//! arithmetic does.
use vstd::prelude::*;
use vstd::arithmetic::power2::pow2;
use vstd::wrapping::{i64_specs, u64_specs};
use crate::facts::{ConstantData, ConstantLattice, ConstantFact, UseDefFact, spec_as_i64, spec_as_u64};
use crate::popcount::low_bits_set;
use crate::ir::{Function, Node, NodeId, NodeKind, distinct_ids, position_of, find_node, lemma_kind_at};
use crate::graph::{spec_dataflow_inputs, dataflow_inputs};
use crate::dominance::{is_pred, operand_positions};
use crate::use_def::{uses_of, count_of};
use crate::factmap::FactMap;

verus! {

// ── Folding ─────────────────────────────────────────────────────────────

/// The 64-bit signed constant `v`.
pub open spec fn signed_constant(v: i64) -> ConstantData {
    ConstantData::Integer {
        bits: (if v >= 0 { v as int } else { v + 0x1_0000_0000_0000_0000 }) as u128,
        signed: true,
        width: 64,
    }
}

/// The 64-bit unsigned constant `v`.
pub open spec fn unsigned_constant(v: u64) -> ConstantData {
    ConstantData::Integer { bits: v as u128, signed: false, width: 64 }
}

pub open spec fn abs(a: int) -> nat {
    if a < 0 {
        (-a) as nat
    } else {
        a as nat
    }
}

/// Division rounding toward zero.
pub open spec fn trunc_div(a: int, b: int) -> int {
    let q = abs(a) / abs(b);
    if (a < 0) == (b < 0) {
        q as int
    } else {
        -q
    }
}

/// The remainder of division rounding toward zero: the sign of `a`.
pub open spec fn trunc_rem(a: int, b: int) -> int {
    let r = abs(a) % abs(b);
    if a < 0 {
        -r
    } else {
        r as int
    }
}

/// A quotient wrapped into the `i64` range (only `i64::MIN / -1` leaves it).
pub open spec fn wrap_quotient(x: int) -> i64 {
    if x > i64::MAX {
        (x - 0x1_0000_0000_0000_0000) as i64
    } else {
        x as i64
    }
}

/// `a op b` on `i64`, wrapping.
pub open spec fn signed_arith(kind: NodeKind, a: i64, b: i64) -> i64 {
    match kind {
        NodeKind::Add { .. } => i64_specs::wrapping_add(a, b),
        NodeKind::Sub { .. } => i64_specs::wrapping_sub(a, b),
        NodeKind::Mul { .. } => i64_specs::wrapping_mul(a, b),
        NodeKind::Div { .. } => wrap_quotient(trunc_div(a as int, b as int)),
        _ => trunc_rem(a as int, b as int) as i64,
    }
}

/// `a op b` on `u64`, wrapping.
pub open spec fn unsigned_arith(kind: NodeKind, a: u64, b: u64) -> u64 {
    match kind {
        NodeKind::Add { .. } => u64_specs::wrapping_add(a, b),
        NodeKind::Sub { .. } => u64_specs::wrapping_sub(a, b),
        NodeKind::Mul { .. } => u64_specs::wrapping_mul(a, b),
        NodeKind::Div { .. } => (a / b) as u64,
        _ => (a % b) as u64,
    }
}

/// An arithmetic operation on two constants: on their `i64` values when
/// both have one, else on their `u64` values when both have one.
pub open spec fn fold_arith(kind: NodeKind, x: ConstantData, y: ConstantData) -> ConstantLattice {
    match (spec_as_i64(x), spec_as_i64(y)) {
        (Some(a), Some(b)) => ConstantLattice::Constant(signed_constant(signed_arith(kind, a, b))),
        _ => match (spec_as_u64(x), spec_as_u64(y)) {
            (Some(a), Some(b)) => ConstantLattice::Constant(unsigned_constant(unsigned_arith(kind, a, b))),
            _ => ConstantLattice::Bottom,
        },
    }
}

/// Whether a constant is zero.
pub open spec fn is_zero(c: ConstantData) -> bool {
    spec_as_i64(c) == Some(0i64) || spec_as_u64(c) == Some(0u64)
}

/// A bitwise operation on `u64`; shifts by the amount modulo 64.
pub open spec fn bitwise(kind: NodeKind, a: u64, b: u64) -> u64 {
    match kind {
        NodeKind::And { .. } => a & b,
        NodeKind::Or { .. } => a | b,
        NodeKind::Xor { .. } => a ^ b,
        NodeKind::Shl { .. } => u64_specs::wrapping_shl(a, (b % 64) as u32),
        _ => u64_specs::wrapping_shr(a, (b % 64) as u32),
    }
}

/// A comparison on `i64`.
pub open spec fn compare(kind: NodeKind, a: i64, b: i64) -> bool {
    match kind {
        NodeKind::Eq { .. } => a == b,
        NodeKind::Ne { .. } => a != b,
        NodeKind::Lt { .. } => a < b,
        NodeKind::Le { .. } => a <= b,
        NodeKind::Gt { .. } => a > b,
        _ => a >= b,
    }
}

pub open spec fn first_i64(c: Seq<ConstantData>) -> Option<i64> {
    if c.len() > 0 {
        spec_as_i64(c[0])
    } else {
        None
    }
}

pub open spec fn first_u64(c: Seq<ConstantData>) -> Option<u64> {
    if c.len() > 0 {
        spec_as_u64(c[0])
    } else {
        None
    }
}

/// The value of an operation on constant operands: the folded constant,
/// or `Bottom` where it cannot be folded (wrong operands, division by
/// zero, an operation that does not fold).
pub open spec fn spec_fold(kind: NodeKind, c: Seq<ConstantData>) -> ConstantLattice {
    match kind {
        NodeKind::Add { .. } | NodeKind::Sub { .. } | NodeKind::Mul { .. } => if c.len() == 2 {
            fold_arith(kind, c[0], c[1])
        } else {
            ConstantLattice::Bottom
        },
        NodeKind::Div { .. } | NodeKind::Rem { .. } => if c.len() == 2 && !is_zero(c[1]) {
            fold_arith(kind, c[0], c[1])
        } else {
            ConstantLattice::Bottom
        },
        NodeKind::Neg { .. } => match first_i64(c) {
            Some(v) => ConstantLattice::Constant(signed_constant(i64_specs::wrapping_sub(0, v))),
            None => ConstantLattice::Bottom,
        },
        NodeKind::Not { .. } => match first_i64(c) {
            Some(v) => ConstantLattice::Constant(signed_constant(!v)),
            None => ConstantLattice::Bottom,
        },
        NodeKind::And { .. } | NodeKind::Or { .. } | NodeKind::Xor { .. } | NodeKind::Shl { .. }
        | NodeKind::Shr { .. } => if c.len() == 2 {
            match (spec_as_u64(c[0]), spec_as_u64(c[1])) {
                (Some(a), Some(b)) => ConstantLattice::Constant(unsigned_constant(bitwise(kind, a, b))),
                _ => ConstantLattice::Bottom,
            }
        } else {
            ConstantLattice::Bottom
        },
        NodeKind::Popcount { .. } => match first_u64(c) {
            Some(v) => ConstantLattice::Constant(unsigned_constant(low_bits_set(v as nat, 64) as u64)),
            None => ConstantLattice::Bottom,
        },
        NodeKind::Eq { .. } | NodeKind::Ne { .. } | NodeKind::Lt { .. } | NodeKind::Le { .. }
        | NodeKind::Gt { .. } | NodeKind::Ge { .. } => if c.len() == 2 {
            match (spec_as_i64(c[0]), spec_as_i64(c[1])) {
                (Some(a), Some(b)) => ConstantLattice::Constant(ConstantData::Bool(compare(kind, a, b))),
                _ => ConstantLattice::Bottom,
            }
        } else {
            ConstantLattice::Bottom
        },
        NodeKind::BoolAnd { .. } | NodeKind::BoolOr { .. } => if c.len() == 2 {
            match (c[0], c[1]) {
                (ConstantData::Bool(a), ConstantData::Bool(b)) => ConstantLattice::Constant(
                    ConstantData::Bool(
                        if kind is BoolAnd {
                            a && b
                        } else {
                            a || b
                        },
                    ),
                ),
                _ => ConstantLattice::Bottom,
            }
        } else {
            ConstantLattice::Bottom
        },
        NodeKind::BoolNot { .. } => if c.len() > 0 && c[0] is Bool {
            ConstantLattice::Constant(ConstantData::Bool(!c[0]->Bool_0))
        } else {
            ConstantLattice::Bottom
        },
        NodeKind::Select { .. } => if c.len() == 3 && c[0] is Bool {
            ConstantLattice::Constant(
                if c[0]->Bool_0 {
                    c[1]
                } else {
                    c[2]
                },
            )
        } else {
            ConstantLattice::Bottom
        },
        _ => ConstantLattice::Bottom,
    }
}

/// Whether an operation folds on constant operands.
pub open spec fn spec_is_foldable(kind: NodeKind) -> bool {
    match kind {
        NodeKind::Add { .. } | NodeKind::Sub { .. } | NodeKind::Mul { .. } | NodeKind::Div { .. }
        | NodeKind::Rem { .. } | NodeKind::Neg { .. } | NodeKind::And { .. } | NodeKind::Or { .. }
        | NodeKind::Xor { .. } | NodeKind::Shl { .. } | NodeKind::Shr { .. } | NodeKind::Not { .. }
        | NodeKind::Popcount { .. } | NodeKind::Eq { .. } | NodeKind::Ne { .. } | NodeKind::Lt { .. }
        | NodeKind::Le { .. } | NodeKind::Gt { .. } | NodeKind::Ge { .. } | NodeKind::BoolAnd { .. }
        | NodeKind::BoolOr { .. } | NodeKind::BoolNot { .. } | NodeKind::Select { .. } => true,
        _ => false,
    }
}

fn is_foldable(kind: &NodeKind) -> (b: bool)
    ensures
        b == spec_is_foldable(*kind),
{
    matches!(
        kind,
        NodeKind::Add { .. } | NodeKind::Sub { .. } | NodeKind::Mul { .. } | NodeKind::Div { .. }
            | NodeKind::Rem { .. } | NodeKind::Neg { .. } | NodeKind::And { .. } | NodeKind::Or { .. }
            | NodeKind::Xor { .. } | NodeKind::Shl { .. } | NodeKind::Shr { .. } | NodeKind::Not { .. }
            | NodeKind::Popcount { .. } | NodeKind::Eq { .. } | NodeKind::Ne { .. } | NodeKind::Lt { .. }
            | NodeKind::Le { .. } | NodeKind::Gt { .. } | NodeKind::Ge { .. } | NodeKind::BoolAnd { .. }
            | NodeKind::BoolOr { .. } | NodeKind::BoolNot { .. } | NodeKind::Select { .. }
    )
}

fn magnitude_i64(a: i64) -> (m: u64)
    ensures
        m == abs(a as int),
{
    if a >= 0 {
        a as u64
    } else if a == i64::MIN {
        0x8000_0000_0000_0000u64
    } else {
        (-a) as u64
    }
}

fn div_i64(a: i64, b: i64) -> (r: i64)
    requires
        b != 0,
    ensures
        r == wrap_quotient(trunc_div(a as int, b as int)),
{
    let q = magnitude_i64(a) / magnitude_i64(b);
    if (a < 0) == (b < 0) {
        if q == 0x8000_0000_0000_0000u64 {
            i64::MIN
        } else {
            q as i64
        }
    } else {
        proof {
            assert(q <= abs(a as int)) by (nonlinear_arith)
                requires
                    q == abs(a as int) / abs(b as int),
                    abs(b as int) >= 1,
            ;
        }
        if q == 0x8000_0000_0000_0000u64 {
            i64::MIN
        } else {
            -(q as i64)
        }
    }
}

fn rem_i64(a: i64, b: i64) -> (r: i64)
    requires
        b != 0,
    ensures
        r == trunc_rem(a as int, b as int) as i64,
{
    let m = magnitude_i64(a) % magnitude_i64(b);
    proof {
        assert(m < abs(b as int));
    }
    if a < 0 {
        -(m as i64)
    } else {
        m as i64
    }
}

fn count_ones_u64(v: u64) -> (c: u64)
    ensures
        c == low_bits_set(v as nat, 64),
{
    let mut c: u64 = 0;
    let mut t: u64 = v;
    let mut i: u64 = 0;
    while i < 64
        invariant
            i <= 64,
            c <= i,
            c + low_bits_set(t as nat, (64 - i) as nat) == low_bits_set(v as nat, 64),
        decreases 64 - i,
    {
        proof {
            lemma_low_bits_bound((t / 2) as nat, (64 - i - 1) as nat);
        }
        if t % 2 == 1 {
            c += 1;
        }
        t = t / 2;
        i += 1;
    }
    c
}

proof fn lemma_low_bits_bound(x: nat, k: nat)
    ensures
        low_bits_set(x, k) <= k,
    decreases k,
{
    if k > 0 {
        lemma_low_bits_bound(x / 2, (k - 1) as nat);
    }
}

fn signed_arith_exec(kind: &NodeKind, a: i64, b: i64) -> (r: i64)
    requires
        !(kind is Add || kind is Sub || kind is Mul) ==> b != 0,
    ensures
        r == signed_arith(*kind, a, b),
{
    match kind {
        NodeKind::Add { .. } => a.wrapping_add(b),
        NodeKind::Sub { .. } => a.wrapping_sub(b),
        NodeKind::Mul { .. } => a.wrapping_mul(b),
        NodeKind::Div { .. } => div_i64(a, b),
        _ => rem_i64(a, b),
    }
}

fn unsigned_arith_exec(kind: &NodeKind, a: u64, b: u64) -> (r: u64)
    requires
        !(kind is Add || kind is Sub || kind is Mul) ==> b != 0,
    ensures
        r == unsigned_arith(*kind, a, b),
{
    match kind {
        NodeKind::Add { .. } => a.wrapping_add(b),
        NodeKind::Sub { .. } => a.wrapping_sub(b),
        NodeKind::Mul { .. } => a.wrapping_mul(b),
        NodeKind::Div { .. } => a / b,
        _ => a % b,
    }
}

fn signed(v: i64) -> (c: ConstantData)
    ensures
        c == signed_constant(v),
{
    ConstantData::i64(v)
}

fn unsigned(v: u64) -> (c: ConstantData)
    ensures
        c == unsigned_constant(v),
{
    ConstantData::u64(v)
}

fn fold_binary_arith(kind: &NodeKind, inputs: &Vec<ConstantData>) -> (r: ConstantLattice)
    requires
        kind is Add || kind is Sub || kind is Mul || kind is Div || kind is Rem,
        inputs@.len() == 2,
        (kind is Div || kind is Rem) ==> !is_zero(inputs@[1]),
    ensures
        r == fold_arith(*kind, inputs@[0], inputs@[1]),
{
    if let (Some(a), Some(b)) = (inputs[0].as_i64(), inputs[1].as_i64()) {
        return ConstantLattice::Constant(signed(signed_arith_exec(kind, a, b)));
    }
    if let (Some(a), Some(b)) = (inputs[0].as_u64(), inputs[1].as_u64()) {
        return ConstantLattice::Constant(unsigned(unsigned_arith_exec(kind, a, b)));
    }
    ConstantLattice::Bottom
}

fn bitwise_exec(kind: &NodeKind, a: u64, b: u64) -> (r: u64)
    ensures
        r == bitwise(*kind, a, b),
{
    match kind {
        NodeKind::And { .. } => a & b,
        NodeKind::Or { .. } => a | b,
        NodeKind::Xor { .. } => a ^ b,
        NodeKind::Shl { .. } => a.wrapping_shl((b % 64) as u32),
        _ => a.wrapping_shr((b % 64) as u32),
    }
}

fn compare_exec(kind: &NodeKind, a: i64, b: i64) -> (r: bool)
    ensures
        r == compare(*kind, a, b),
{
    match kind {
        NodeKind::Eq { .. } => a == b,
        NodeKind::Ne { .. } => a != b,
        NodeKind::Lt { .. } => a < b,
        NodeKind::Le { .. } => a <= b,
        NodeKind::Gt { .. } => a > b,
        _ => a >= b,
    }
}

fn is_zero_exec(c: &ConstantData) -> (b: bool)
    ensures
        b == is_zero(*c),
{
    c.as_i64() == Some(0i64) || c.as_u64() == Some(0u64)
}

fn first_as_i64(inputs: &Vec<ConstantData>) -> (r: Option<i64>)
    ensures
        r == first_i64(inputs@),
{
    if inputs.len() > 0 {
        inputs[0].as_i64()
    } else {
        None
    }
}

fn first_as_u64(inputs: &Vec<ConstantData>) -> (r: Option<u64>)
    ensures
        r == first_u64(inputs@),
{
    if inputs.len() > 0 {
        inputs[0].as_u64()
    } else {
        None
    }
}

/// Folds an operation whose operands are all constants.
fn fold_operation(kind: &NodeKind, inputs: &Vec<ConstantData>) -> (r: ConstantLattice)
    ensures
        r == spec_fold(*kind, inputs@),
{
    match kind {
        NodeKind::Add { .. } | NodeKind::Sub { .. } | NodeKind::Mul { .. } => {
            if inputs.len() == 2 {
                fold_binary_arith(kind, inputs)
            } else {
                ConstantLattice::Bottom
            }
        },
        NodeKind::Div { .. } | NodeKind::Rem { .. } => {
            if inputs.len() == 2 && !is_zero_exec(&inputs[1]) {
                fold_binary_arith(kind, inputs)
            } else {
                ConstantLattice::Bottom
            }
        },
        NodeKind::Neg { .. } => match first_as_i64(inputs) {
            Some(v) => ConstantLattice::Constant(signed(0i64.wrapping_sub(v))),
            None => ConstantLattice::Bottom,
        },
        NodeKind::Not { .. } => match first_as_i64(inputs) {
            Some(v) => ConstantLattice::Constant(signed(!v)),
            None => ConstantLattice::Bottom,
        },
        NodeKind::And { .. } | NodeKind::Or { .. } | NodeKind::Xor { .. } | NodeKind::Shl { .. }
        | NodeKind::Shr { .. } => {
            if inputs.len() == 2 {
                if let (Some(a), Some(b)) = (inputs[0].as_u64(), inputs[1].as_u64()) {
                    return ConstantLattice::Constant(unsigned(bitwise_exec(kind, a, b)));
                }
            }
            ConstantLattice::Bottom
        },
        NodeKind::Popcount { .. } => match first_as_u64(inputs) {
            Some(v) => ConstantLattice::Constant(unsigned(count_ones_u64(v))),
            None => ConstantLattice::Bottom,
        },
        NodeKind::Eq { .. } | NodeKind::Ne { .. } | NodeKind::Lt { .. } | NodeKind::Le { .. }
        | NodeKind::Gt { .. } | NodeKind::Ge { .. } => {
            if inputs.len() == 2 {
                if let (Some(a), Some(b)) = (inputs[0].as_i64(), inputs[1].as_i64()) {
                    return ConstantLattice::Constant(ConstantData::Bool(compare_exec(kind, a, b)));
                }
            }
            ConstantLattice::Bottom
        },
        NodeKind::BoolAnd { .. } | NodeKind::BoolOr { .. } => {
            if inputs.len() == 2 {
                if let (ConstantData::Bool(a), ConstantData::Bool(b)) = (inputs[0], inputs[1]) {
                    let v = if matches!(kind, NodeKind::BoolAnd { .. }) {
                        a && b
                    } else {
                        a || b
                    };
                    return ConstantLattice::Constant(ConstantData::Bool(v));
                }
            }
            ConstantLattice::Bottom
        },
        NodeKind::BoolNot { .. } => {
            if inputs.len() > 0 {
                if let ConstantData::Bool(v) = inputs[0] {
                    return ConstantLattice::Constant(ConstantData::Bool(!v));
                }
            }
            ConstantLattice::Bottom
        },
        NodeKind::Select { .. } => {
            if inputs.len() == 3 {
                if let ConstantData::Bool(cond) = inputs[0] {
                    return ConstantLattice::Constant(
                        if cond {
                            inputs[1]
                        } else {
                            inputs[2]
                        },
                    );
                }
            }
            ConstantLattice::Bottom
        },
        _ => ConstantLattice::Bottom,
    }
}

// ── Evaluation ──────────────────────────────────────────────────────────

/// The lattice value of node `id` (`Top` if the arena lacks it), with
/// `l[p]` the value of the node at position `p`.
pub open spec fn value_of(nodes: Seq<Node>, l: Seq<ConstantLattice>, id: NodeId) -> ConstantLattice {
    match position_of(nodes, id, 0) {
        Some(p) => l[p],
        None => ConstantLattice::Top,
    }
}

/// The lattice values of the given operands.
pub open spec fn operand_values(nodes: Seq<Node>, l: Seq<ConstantLattice>, ids: Seq<NodeId>) -> Seq<ConstantLattice> {
    ids.map_values(|x: NodeId| value_of(nodes, l, x))
}

/// The constants of lattice values that are all constants.
pub open spec fn constants_of(vals: Seq<ConstantLattice>) -> Seq<ConstantData> {
    vals.map_values(|v: ConstantLattice| v->Constant_0)
}

pub open spec fn some_top(vals: Seq<ConstantLattice>) -> bool {
    exists|t: int| 0 <= t < vals.len() && #[trigger] vals[t] is Top
}

pub open spec fn some_bottom(vals: Seq<ConstantLattice>) -> bool {
    exists|t: int| 0 <= t < vals.len() && #[trigger] vals[t] is Bottom
}

/// The value the node at position `i` gets from the values `l`: a
/// constant node its constant; an operation that does not fold keeps its
/// value; a folding operation is unknown while an operand is unknown,
/// overdefined when an operand is, and otherwise folded.
pub open spec fn spec_evaluate(nodes: Seq<Node>, l: Seq<ConstantLattice>, i: int) -> ConstantLattice {
    let k = nodes[i].kind;
    if k is Constant {
        ConstantLattice::Constant(k->Constant_0)
    } else if !spec_is_foldable(k) {
        l[i]
    } else {
        let vals = operand_values(nodes, l, spec_dataflow_inputs(k));
        if some_top(vals) {
            ConstantLattice::Top
        } else if some_bottom(vals) {
            ConstantLattice::Bottom
        } else {
            spec_fold(k, constants_of(vals))
        }
    }
}

/// The information order: `a` is `b`, or `b` is unknown, or `a` is
/// overdefined.
pub open spec fn below(a: ConstantLattice, b: ConstantLattice) -> bool {
    a == b || b is Top || a is Bottom
}

/// `l` gives every node the value it evaluates to.
pub open spec fn is_constants_solution(nodes: Seq<Node>, l: Seq<ConstantLattice>) -> bool {
    &&& l.len() == nodes.len()
    &&& forall|i: int| 0 <= i < nodes.len() ==> #[trigger] l[i] == spec_evaluate(nodes, l, i)
}

/// Every value of `e` is below what it evaluates to.
pub open spec fn is_constants_post(nodes: Seq<Node>, e: Seq<ConstantLattice>) -> bool {
    &&& e.len() == nodes.len()
    &&& forall|i: int| 0 <= i < nodes.len() ==> below(#[trigger] e[i], spec_evaluate(nodes, e, i))
}

/// The greatest solution: a solution above every `e` that is below what
/// it evaluates to (so above every solution).
pub open spec fn is_greatest_constants(nodes: Seq<Node>, l: Seq<ConstantLattice>) -> bool {
    &&& is_constants_solution(nodes, l)
    &&& forall|e: Seq<ConstantLattice>|
        #[trigger] is_constants_post(nodes, e) ==> forall|i: int| 0 <= i < nodes.len() ==> below(e[i], l[i])
}

/// Evaluation is monotone in the information order.
proof fn lemma_evaluate_monotone(nodes: Seq<Node>, a: Seq<ConstantLattice>, b: Seq<ConstantLattice>, i: int)
    requires
        a.len() == nodes.len(),
        b.len() == nodes.len(),
        forall|k: int| 0 <= k < nodes.len() ==> below(#[trigger] a[k], b[k]),
        0 <= i < nodes.len(),
    ensures
        below(spec_evaluate(nodes, a, i), spec_evaluate(nodes, b, i)),
{
    let k = nodes[i].kind;
    if !(k is Constant) && spec_is_foldable(k) {
        let ins = spec_dataflow_inputs(k);
        let va = operand_values(nodes, a, ins);
        let vb = operand_values(nodes, b, ins);
        assert forall|t: int| 0 <= t < ins.len() implies below(#[trigger] va[t], vb[t]) by {
            crate::ir::lemma_position_of(nodes, ins[t], 0);
        }
        if !some_top(vb) {
            assert(!some_top(va)) by {
                if some_top(va) {
                    let t = choose|t: int| 0 <= t < va.len() && #[trigger] va[t] is Top;
                    assert(below(va[t], vb[t]));
                }
            }
            if some_bottom(vb) {
                let t = choose|t: int| 0 <= t < vb.len() && #[trigger] vb[t] is Bottom;
                assert(below(va[t], vb[t]));
                assert(va[t] is Bottom);
            } else if !some_bottom(va) {
                assert(va =~= vb) by {
                    assert forall|t: int| 0 <= t < va.len() implies va[t] == vb[t] by {
                        assert(below(va[t], vb[t]));
                        if va[t] != vb[t] {
                            assert(!(vb[t] is Top));
                            assert(va[t] is Bottom);
                        }
                    }
                }
            }
        }
    }
}

/// The rank of a value: how far above `Bottom` it is.
pub open spec fn rank(v: ConstantLattice) -> nat {
    match v {
        ConstantLattice::Top => 2,
        ConstantLattice::Constant(_) => 1,
        ConstantLattice::Bottom => 0,
    }
}

pub open spec fn rank_sum(l: Seq<ConstantLattice>) -> nat
    decreases l.len(),
{
    if l.len() == 0 {
        0
    } else {
        rank_sum(l.drop_last()) + rank(l.last())
    }
}

proof fn lemma_rank_sum_update(l: Seq<ConstantLattice>, i: int, v: ConstantLattice)
    requires
        0 <= i < l.len(),
    ensures
        rank_sum(l.update(i, v)) + rank(l[i]) == rank_sum(l) + rank(v),
    decreases l.len(),
{
    let u = l.update(i, v);
    if i == l.len() - 1 {
        assert(u.drop_last() =~= l.drop_last());
    } else {
        assert(u.drop_last() =~= l.drop_last().update(i, v));
        lemma_rank_sum_update(l.drop_last(), i, v);
    }
}

/// The value the node at position `i` evaluates to.
fn evaluate_node(arena: &Vec<Node>, i: usize, lattice: &Vec<ConstantLattice>) -> (r: ConstantLattice)
    requires
        i < arena@.len(),
        lattice@.len() == arena@.len(),
    ensures
        r == spec_evaluate(arena@, lattice@, i as int),
{
    let ghost nodes = arena@;
    let kind = &arena[i].kind;
    if let NodeKind::Constant(data) = kind {
        return ConstantLattice::Constant(*data);
    }
    if !is_foldable(kind) {
        return lattice[i];
    }
    let inputs = dataflow_inputs(kind);
    let ghost vals = operand_values(nodes, lattice@, inputs@);
    let mut values: Vec<ConstantLattice> = Vec::new();
    let mut t: usize = 0;
    while t < inputs.len()
        invariant
            nodes == arena@,
            lattice@.len() == nodes.len(),
            vals == operand_values(nodes, lattice@, inputs@),
            t <= inputs@.len(),
            values@ == vals.subrange(0, t as int),
        decreases inputs@.len() - t,
    {
        let v = match find_node(arena, inputs[t]) {
            Some(p) => lattice[p],
            None => ConstantLattice::Top,
        };
        values.push(v);
        t += 1;
        assert(values@ =~= vals.subrange(0, t as int));
    }
    assert(values@ =~= vals);
    let mut any_top = false;
    let mut any_bottom = false;
    let mut consts: Vec<ConstantData> = Vec::new();
    let mut t: usize = 0;
    while t < values.len()
        invariant
            t <= values@.len(),
            any_top == exists|u: int| 0 <= u < t && #[trigger] values@[u] is Top,
            any_bottom == exists|u: int| 0 <= u < t && #[trigger] values@[u] is Bottom,
            !any_top && !any_bottom ==> consts@ == constants_of(values@.subrange(0, t as int)),
        decreases values@.len() - t,
    {
        match values[t] {
            ConstantLattice::Top => {
                any_top = true;
            },
            ConstantLattice::Bottom => {
                any_bottom = true;
            },
            ConstantLattice::Constant(d) => {
                consts.push(d);
            },
        }
        t += 1;
        proof {
            if !any_top && !any_bottom {
                assert(consts@ =~= constants_of(values@.subrange(0, t as int)));
            }
        }
    }
    if any_top {
        return ConstantLattice::Top;
    }
    if any_bottom {
        return ConstantLattice::Bottom;
    }
    assert(values@.subrange(0, values@.len() as int) =~= values@);
    fold_operation(kind, &consts)
}

// ── Users ───────────────────────────────────────────────────────────────

proof fn lemma_count_of_positive(s: Seq<NodeId>, x: NodeId)
    ensures
        count_of(s, x) > 0 <==> s.contains(x),
    decreases s.len(),
{
    if s.len() > 0 {
        lemma_count_of_positive(s.drop_last(), x);
        if s.drop_last().contains(x) {
            let t = choose|t: int| 0 <= t < s.drop_last().len() && s.drop_last()[t] == x;
            assert(s[t] == x);
        }
        if s.contains(x) && s.last() != x {
            let t = choose|t: int| 0 <= t < s.len() && s[t] == x;
            assert(s.drop_last()[t] == x);
        }
    }
}

/// A node uses `x` exactly when `x` is among its operands.
proof fn lemma_uses_of_member(nodes: Seq<Node>, x: NodeId, y: NodeId)
    ensures
        uses_of(nodes, x).contains(y) <==> exists|m: int|
            0 <= m < nodes.len() && nodes[m].id == y && #[trigger] spec_dataflow_inputs(nodes[m].kind).contains(x),
    decreases nodes.len(),
{
    if nodes.len() > 0 {
        let d = nodes.drop_last();
        lemma_uses_of_member(d, x, y);
        lemma_count_of_positive(spec_dataflow_inputs(nodes.last().kind), x);
        let pre = uses_of(d, x);
        let tail = Seq::new(count_of(spec_dataflow_inputs(nodes.last().kind), x), |i: int| nodes.last().id);
        assert(uses_of(nodes, x) == pre + tail);
        if uses_of(nodes, x).contains(y) {
            let t = choose|t: int| 0 <= t < (pre + tail).len() && (pre + tail)[t] == y;
            if t < pre.len() {
                assert(pre[t] == y);
                let m = choose|m: int| 0 <= m < d.len() && d[m].id == y && #[trigger] spec_dataflow_inputs(d[m].kind).contains(x);
                assert(nodes[m] == d[m]);
            } else {
                assert(tail[t - pre.len()] == y);
                assert(nodes[nodes.len() - 1].id == y);
            }
        }
        if exists|m: int| 0 <= m < nodes.len() && nodes[m].id == y && #[trigger] spec_dataflow_inputs(nodes[m].kind).contains(x) {
            let m = choose|m: int| 0 <= m < nodes.len() && nodes[m].id == y && #[trigger] spec_dataflow_inputs(nodes[m].kind).contains(x);
            if m < nodes.len() - 1 {
                assert(d[m] == nodes[m]);
                let t = choose|t: int| 0 <= t < pre.len() && pre[t] == y;
                assert((pre + tail)[t] == y);
            } else {
                assert(tail.len() > 0);
                assert((pre + tail)[pre.len() as int] == y);
            }
        }
    }
}

/// The use-definition facts record, for every node, its users.
pub open spec fn users_recorded(nodes: Seq<Node>, ud: FactMap<UseDefFact>) -> bool {
    &&& ud.wf()
    &&& forall|i: int|
        0 <= i < nodes.len() ==> ud@.dom().contains(#[trigger] nodes[i].id) && ud@[nodes[i].id].users@ == uses_of(
            nodes,
            nodes[i].id,
        )
}

pub open spec fn users_exact(nodes: Seq<Node>, users: Seq<Vec<usize>>) -> bool {
    &&& users.len() == nodes.len()
    &&& forall|p: int, t: int| 0 <= p < nodes.len() && 0 <= t < users[p]@.len() ==> #[trigger] users[p]@[t] < nodes.len()
    &&& forall|p: int, m: int|
        0 <= p < nodes.len() && 0 <= m < nodes.len() ==> (#[trigger] users[p]@.contains(m as usize) <==> is_pred(
            nodes,
            m,
            p,
        ))
}

fn contains_position(v: &Vec<usize>, p: usize) -> (b: bool)
    ensures
        b == v@.contains(p),
{
    let mut t: usize = 0;
    while t < v.len()
        invariant
            t <= v@.len(),
            forall|u: int| 0 <= u < t ==> v@[u] != p,
        decreases v@.len() - t,
    {
        if v[t] == p {
            return true;
        }
        t += 1;
    }
    false
}

fn push_position(row: &mut Vec<usize>, m: usize)
    ensures
        final(row)@ == old(row)@.push(m),
        forall|x: usize| #[trigger] final(row)@.contains(x) <==> (old(row)@.contains(x) || x == m),
{
    let ghost before = row@;
    row.push(m);
    proof {
        assert forall|x: usize| #[trigger] row@.contains(x) <==> (before.contains(x) || x == m) by {
            if row@.contains(x) {
                let u = choose|u: int| 0 <= u < row@.len() && row@[u] == x;
                if u < before.len() {
                    assert(before[u] == x);
                }
            }
            if before.contains(x) {
                let u = choose|u: int| 0 <= u < before.len() && before[u] == x;
                assert(row@[u] == x);
            }
            if x == m {
                assert(row@[before.len() as int] == m);
            }
        }
    }
}

/// For each node, the positions of the nodes using it.
fn user_positions(arena: &Vec<Node>, preds: &Vec<Vec<usize>>) -> (users: Vec<Vec<usize>>)
    requires
        preds@.len() == arena@.len(),
        forall|i: int, p: int|
            0 <= i < arena@.len() && 0 <= p < arena@.len() ==> (#[trigger] preds@[i]@.contains(p as usize)
                <==> is_pred(arena@, i, p)),
    ensures
        users_exact(arena@, users@),
{
    let n = arena.len();
    let mut users: Vec<Vec<usize>> = Vec::new();
    let mut p: usize = 0;
    while p < n
        invariant
            n == arena@.len(),
            preds@.len() == n,
            forall|i: int, q: int|
                0 <= i < n && 0 <= q < n ==> (#[trigger] preds@[i]@.contains(q as usize) <==> is_pred(arena@, i, q)),
            p <= n,
            users@.len() == p,
            forall|a: int, t: int| 0 <= a < p && 0 <= t < users@[a]@.len() ==> #[trigger] users@[a]@[t] < n,
            forall|a: int, m: int|
                0 <= a < p && 0 <= m < n ==> (#[trigger] users@[a]@.contains(m as usize) <==> is_pred(arena@, m, a)),
        decreases n - p,
    {
        let mut row: Vec<usize> = Vec::new();
        let mut m: usize = 0;
        while m < n
            invariant
                n == arena@.len(),
                preds@.len() == n,
                forall|i: int, q: int|
                    0 <= i < n && 0 <= q < n ==> (#[trigger] preds@[i]@.contains(q as usize) <==> is_pred(arena@, i, q)),
                p < n,
                m <= n,
                forall|t: int| 0 <= t < row@.len() ==> #[trigger] row@[t] < m,
                forall|c: int| 0 <= c < n ==> (#[trigger] row@.contains(c as usize) <==> (c < m && is_pred(arena@, c, p as int))),
            decreases n - m,
        {
            let hit = contains_position(&preds[m], p);
            assert(preds@[m as int]@.contains(p as usize) == is_pred(arena@, m as int, p as int));
            if hit {
                push_position(&mut row, m);
            }
            proof {
                assert forall|c: int| 0 <= c < n implies (#[trigger] row@.contains(c as usize) <==> (c < m + 1
                    && is_pred(arena@, c, p as int))) by {
                    if c == m {
                        assert(!(c < m));
                    }
                }
            }
            m += 1;
        }
        users.push(row);
        p += 1;
    }
    users
}

/// For each node, the positions of its users, read from use-definition
/// facts.
fn users_from_facts(arena: &Vec<Node>, ud: &FactMap<UseDefFact>) -> (users: Vec<Vec<usize>>)
    requires
        distinct_ids(arena@),
        users_recorded(arena@, *ud),
    ensures
        users_exact(arena@, users@),
{
    let n = arena.len();
    let ghost nodes = arena@;
    let mut users: Vec<Vec<usize>> = Vec::new();
    let mut p: usize = 0;
    while p < n
        invariant
            n == nodes.len(),
            nodes == arena@,
            distinct_ids(nodes),
            users_recorded(nodes, *ud),
            p <= n,
            users@.len() == p,
            forall|a: int, t: int| 0 <= a < p && 0 <= t < users@[a]@.len() ==> #[trigger] users@[a]@[t] < n,
            forall|a: int, m: int|
                0 <= a < p && 0 <= m < n ==> (#[trigger] users@[a]@.contains(m as usize) <==> is_pred(nodes, m, a)),
        decreases n - p,
    {
        let x = arena[p].id;
        let mut row: Vec<usize> = Vec::new();
        assert(ud@.dom().contains(nodes[p as int].id));
        match ud.get(x) {
            Some(f) => {
                let ghost us = uses_of(nodes, x);
                let mut t: usize = 0;
                while t < f.users.len()
                    invariant
                        n == nodes.len(),
                        nodes == arena@,
                        distinct_ids(nodes),
                        f.users@ == us,
                        us == uses_of(nodes, x),
                        x == nodes[p as int].id,
                        p < n,
                        t <= us.len(),
                        forall|u: int| 0 <= u < row@.len() ==> #[trigger] row@[u] < n,
                        forall|c: int|
                            0 <= c < n ==> (#[trigger] row@.contains(c as usize) <==> us.subrange(0, t as int).contains(
                                nodes[c].id,
                            )),
                    decreases us.len() - t,
                {
                    let y = f.users[t];
                    proof {
                        lemma_uses_of_member(nodes, x, y);
                        assert(us.contains(y)) by {
                            assert(us[t as int] == y);
                        }
                    }
                    let found = find_node(arena, y);
                    proof {
                        assert forall|c: int| 0 <= c < n implies (us.subrange(0, t + 1).contains(nodes[c].id) <==> (
                        us.subrange(0, t as int).contains(nodes[c].id) || y == nodes[c].id)) by {
                            let s1 = us.subrange(0, t + 1);
                            if s1.contains(nodes[c].id) {
                                let u = choose|u: int| 0 <= u < s1.len() && s1[u] == nodes[c].id;
                                if u < t {
                                    assert(us.subrange(0, t as int)[u] == nodes[c].id);
                                }
                            }
                            if us.subrange(0, t as int).contains(nodes[c].id) {
                                let u = choose|u: int| 0 <= u < t && us.subrange(0, t as int)[u] == nodes[c].id;
                                assert(s1[u] == nodes[c].id);
                            }
                            if y == nodes[c].id {
                                assert(s1[t as int] == y);
                            }
                        }
                    }
                    match found {
                        Some(m) => {
                            proof {
                                assert forall|c: int| 0 <= c < n && y == nodes[c].id implies c == m by {
                                    lemma_kind_at(nodes, c);
                                }
                            }
                            push_position(&mut row, m);
                        },
                        None => {
                            proof {
                                crate::ir::lemma_position_of(nodes, y, 0);
                                let m = choose|m: int|
                                    0 <= m < nodes.len() && nodes[m].id == y && #[trigger] spec_dataflow_inputs(
                                        nodes[m].kind,
                                    ).contains(x);
                                assert(false);
                            }
                        },
                    }
                    t += 1;
                }
                proof {
                    assert(us.subrange(0, us.len() as int) =~= us);
                    assert forall|c: int| 0 <= c < n implies (#[trigger] row@.contains(c as usize) <==> is_pred(
                        nodes,
                        c,
                        p as int,
                    )) by {
                        lemma_uses_of_member(nodes, x, nodes[c].id);
                        if us.contains(nodes[c].id) {
                            let m = choose|m: int|
                                0 <= m < nodes.len() && nodes[m].id == nodes[c].id && #[trigger] spec_dataflow_inputs(
                                    nodes[m].kind,
                                ).contains(x);
                            if m != c {
                                if m < c {
                                    assert(nodes[m].id != nodes[c].id);
                                } else {
                                    assert(nodes[c].id != nodes[m].id);
                                }
                            }
                        }
                    }
                }
            },
            None => {},
        }
        users.push(row);
        p += 1;
    }
    users
}

// ── The worklist ────────────────────────────────────────────────────────

/// Whether position `k` is still to be visited.
pub open spec fn pending(queue: Seq<usize>, head: int, k: int) -> bool {
    exists|t: int| head <= t < queue.len() && queue[t] == k
}

/// Two value vectors that agree on a node's operands (and on the node
/// itself, unless it is a constant or folds) give it the same value.
proof fn lemma_evaluate_local(nodes: Seq<Node>, a: Seq<ConstantLattice>, b: Seq<ConstantLattice>, i: int)
    requires
        a.len() == nodes.len(),
        b.len() == nodes.len(),
        0 <= i < nodes.len(),
        a[i] == b[i] || nodes[i].kind is Constant || spec_is_foldable(nodes[i].kind),
        forall|p: int| #[trigger] is_pred(nodes, i, p) ==> a[p] == b[p],
    ensures
        spec_evaluate(nodes, a, i) == spec_evaluate(nodes, b, i),
{
    let k = nodes[i].kind;
    let ins = spec_dataflow_inputs(k);
    let va = operand_values(nodes, a, ins);
    let vb = operand_values(nodes, b, ins);
    assert forall|t: int| 0 <= t < ins.len() implies va[t] == vb[t] by {
        crate::ir::lemma_position_of(nodes, ins[t], 0);
        if let Some(p) = position_of(nodes, ins[t], 0) {
            assert(ins.contains(ins[t]));
            assert(is_pred(nodes, i, p));
        }
    }
    assert(va =~= vb);
}

/// The initial values: constants are their constant, every other node is
/// unknown.
pub open spec fn initial_value(n: Node) -> ConstantLattice {
    if n.kind is Constant {
        ConstantLattice::Constant(n.kind->Constant_0)
    } else {
        ConstantLattice::Top
    }
}

/// Lowering one value to what it evaluates to keeps every value above
/// what it evaluates to, and below it every `e` below what it evaluates to.
proof fn lemma_lowered(nodes: Seq<Node>, before: Seq<ConstantLattice>, k: int, new_value: ConstantLattice)
    requires
        before.len() == nodes.len(),
        0 <= k < nodes.len(),
        new_value == spec_evaluate(nodes, before, k),
        new_value != before[k],
        forall|j: int| 0 <= j < nodes.len() ==> below(spec_evaluate(nodes, before, j), #[trigger] before[j]),
        forall|e: Seq<ConstantLattice>|
            #[trigger] is_constants_post(nodes, e) ==> forall|j: int| 0 <= j < nodes.len() ==> below(e[j], before[j]),
    ensures
        rank_sum(before.update(k, new_value)) < rank_sum(before),
        forall|j: int|
            0 <= j < nodes.len() ==> below(
                spec_evaluate(nodes, before.update(k, new_value), j),
                #[trigger] before.update(k, new_value)[j],
            ),
        forall|e: Seq<ConstantLattice>|
            #[trigger] is_constants_post(nodes, e) ==> forall|j: int|
                0 <= j < nodes.len() ==> below(e[j], before.update(k, new_value)[j]),
{
    let n = nodes.len() as int;
    let l = before.update(k, new_value);
    assert(below(new_value, before[k]));
    lemma_rank_sum_update(before, k, new_value);
    assert forall|j: int| 0 <= j < n implies below(#[trigger] l[j], before[j]) by {}
    assert forall|j: int| 0 <= j < n implies below(spec_evaluate(nodes, l, j), #[trigger] l[j]) by {
        lemma_evaluate_monotone(nodes, l, before, j);
    }
    assert forall|e: Seq<ConstantLattice>| #[trigger] is_constants_post(nodes, e) implies forall|j: int|
        0 <= j < n ==> below(e[j], l[j]) by {
        assert forall|j: int| 0 <= j < n implies below(e[j], l[j]) by {
            if j == k {
                assert(below(e[j], spec_evaluate(nodes, e, j)));
                lemma_evaluate_monotone(nodes, e, before, j);
            }
        }
    }
}

/// After lowering node `k` and queueing its users, every node not queued
/// has the value it evaluates to.
proof fn lemma_settled_after_change(
    nodes: Seq<Node>,
    users: Seq<Vec<usize>>,
    before: Seq<ConstantLattice>,
    k: int,
    new_value: ConstantLattice,
    q0: Seq<usize>,
    queue: Seq<usize>,
    head: int,
)
    requires
        nodes.len() <= usize::MAX,
        users_exact(nodes, users),
        before.len() == nodes.len(),
        0 <= k < nodes.len(),
        new_value == spec_evaluate(nodes, before, k),
        new_value != before[k],
        1 <= head <= q0.len(),
        q0[head - 1] == k,
        queue == q0 + users[k]@,
        forall|m: int|
            0 <= m < nodes.len() && !pending(q0, head - 1, m) ==> #[trigger] before[m] == spec_evaluate(
                nodes,
                before,
                m,
            ),
    ensures
        forall|m: int|
            0 <= m < nodes.len() && !pending(queue, head, m) ==> #[trigger] before.update(k, new_value)[m]
                == spec_evaluate(nodes, before.update(k, new_value), m),
{
    let n = nodes.len() as int;
    let l = before.update(k, new_value);
    let urow = users[k]@;
    assert forall|m: int| 0 <= m < n && !pending(queue, head, m) implies #[trigger] l[m] == spec_evaluate(
        nodes,
        l,
        m,
    ) by {
        assert(!urow.contains(m as usize)) by {
            if urow.contains(m as usize) {
                let u = choose|u: int| 0 <= u < urow.len() && urow[u] == m as usize;
                assert(queue[q0.len() + u] == m);
            }
        }
        assert(!is_pred(nodes, m, k));
        assert forall|p: int| #[trigger] is_pred(nodes, m, p) implies l[p] == before[p] by {}
        if m == k {
            assert(nodes[m].kind is Constant || spec_is_foldable(nodes[m].kind));
            lemma_evaluate_local(nodes, l, before, m);
        } else {
            assert(!pending(q0, head - 1, m)) by {
                if pending(q0, head - 1, m) {
                    let t2 = choose|t2: int| head - 1 <= t2 < q0.len() && q0[t2] == m;
                    assert(queue[t2] == m);
                }
            }
            lemma_evaluate_local(nodes, l, before, m);
        }
    }
}

/// Iterates from the initial values until every node has the value it
/// evaluates to.
fn solve(arena: &Vec<Node>, users: &Vec<Vec<usize>>) -> (lattice: Vec<ConstantLattice>)
    requires
        users_exact(arena@, users@),
    ensures
        is_greatest_constants(arena@, lattice@),
{
    let n = arena.len();
    let ghost nodes = arena@;
    let mut lattice: Vec<ConstantLattice> = Vec::new();
    let mut queue: Vec<usize> = Vec::new();
    let mut i: usize = 0;
    while i < n
        invariant
            n == nodes.len(),
            nodes == arena@,
            i <= n,
            lattice@.len() == i,
            queue@.len() == i,
            forall|k: int| 0 <= k < i ==> #[trigger] lattice@[k] == initial_value(nodes[k]),
            forall|k: int| 0 <= k < i ==> #[trigger] queue@[k] == k,
        decreases n - i,
    {
        let init = match &arena[i].kind {
            NodeKind::Constant(data) => ConstantLattice::Constant(*data),
            _ => ConstantLattice::Top,
        };
        lattice.push(init);
        queue.push(i);
        i += 1;
    }
    proof {
        let l = lattice@;
        assert forall|k: int| 0 <= k < n implies below(spec_evaluate(nodes, l, k), #[trigger] l[k]) by {}
        assert forall|e: Seq<ConstantLattice>| #[trigger] is_constants_post(nodes, e) implies forall|k: int|
            0 <= k < n ==> below(e[k], l[k]) by {
            assert forall|k: int| 0 <= k < n implies below(e[k], l[k]) by {
                assert(below(e[k], spec_evaluate(nodes, e, k)));
            }
        }
        assert forall|k: int| 0 <= k < n implies pending(queue@, 0, k) by {
            assert(queue@[k] == k);
        }
    }
    let mut head: usize = 0;
    while head < queue.len()
        invariant
            n == nodes.len(),
            nodes == arena@,
            users_exact(nodes, users@),
            lattice@.len() == n,
            head <= queue@.len(),
            forall|t: int| 0 <= t < queue@.len() ==> #[trigger] queue@[t] < n,
            forall|k: int| 0 <= k < n ==> below(spec_evaluate(nodes, lattice@, k), #[trigger] lattice@[k]),
            forall|e: Seq<ConstantLattice>|
                #[trigger] is_constants_post(nodes, e) ==> forall|k: int| 0 <= k < n ==> below(e[k], lattice@[k]),
            forall|k: int|
                0 <= k < n && !pending(queue@, head as int, k) ==> #[trigger] lattice@[k] == spec_evaluate(
                    nodes,
                    lattice@,
                    k,
                ),
        decreases rank_sum(lattice@), queue@.len() - head,
    {
        let k = queue[head];
        head += 1;
        let current = lattice[k];
        let new_value = evaluate_node(arena, k, &lattice);
        if new_value != current {
            let ghost before = lattice@;
            let ghost q0 = queue@;
            lattice.set(k, new_value);
            proof {
                lemma_lowered(nodes, before, k as int, new_value);
            }
            let urow = &users[k];
            let mut t: usize = 0;
            while t < urow.len()
                invariant
                    n == nodes.len(),
                    users_exact(nodes, users@),
                    k < n,
                    *urow == users@[k as int],
                    t <= urow@.len(),
                    queue@ == q0 + urow@.subrange(0, t as int),
                    forall|u: int| 0 <= u < q0.len() ==> #[trigger] q0[u] < n,
                decreases urow@.len() - t,
            {
                queue.push(urow[t]);
                t += 1;
                assert(queue@ =~= q0 + urow@.subrange(0, t as int));
            }
            proof {
                assert(urow@.subrange(0, urow@.len() as int) =~= urow@);
                lemma_settled_after_change(nodes, users@, before, k as int, new_value, q0, queue@, head as int);
            }
        } else {
            proof {
                assert forall|m: int| 0 <= m < n && !pending(queue@, head as int, m) implies #[trigger] lattice@[m]
                    == spec_evaluate(nodes, lattice@, m) by {
                    if m != k {
                        assert(!pending(queue@, head - 1, m)) by {
                            if pending(queue@, head - 1, m) {
                                let t2 = choose|t2: int| head - 1 <= t2 < queue@.len() && queue@[t2] == m;
                            }
                        }
                    }
                }
            }
        }
    }
    proof {
        assert forall|k: int| 0 <= k < n implies #[trigger] lattice@[k] == spec_evaluate(nodes, lattice@, k) by {
            assert(!pending(queue@, head as int, k));
        }
    }
    lattice
}

/// The constant-propagation values of the arena's nodes, by position.
pub open spec fn constants_solution(nodes: Seq<Node>) -> Seq<ConstantLattice> {
    choose|l: Seq<ConstantLattice>| is_greatest_constants(nodes, l)
}

proof fn lemma_greatest_constants_unique(nodes: Seq<Node>, a: Seq<ConstantLattice>, b: Seq<ConstantLattice>)
    requires
        is_greatest_constants(nodes, a),
        is_greatest_constants(nodes, b),
    ensures
        a == b,
{
    assert(is_constants_post(nodes, a));
    assert(is_constants_post(nodes, b));
    assert forall|k: int| 0 <= k < nodes.len() implies a[k] == b[k] by {
        assert(below(a[k], b[k]));
        assert(below(b[k], a[k]));
    }
    assert(a =~= b);
}

/// Runs constant propagation. The users of each node are read from
/// `use_def_facts` when given (which must record them), and found in the
/// arena otherwise.
pub fn run_constants(func: &Function, use_def_facts: Option<&FactMap<UseDefFact>>) -> (facts: FactMap<ConstantFact>)
    requires
        distinct_ids(func.arena@),
        use_def_facts matches Some(ud) ==> users_recorded(func.arena@, *ud),
    ensures
        facts.wf(),
        is_greatest_constants(func.arena@, constants_solution(func.arena@)),
        forall|x: NodeId| facts@.dom().contains(x) <==> exists|i: int| 0 <= i < func.arena@.len() && func.arena@[i].id == x,
        forall|i: int|
            0 <= i < func.arena@.len() ==> (#[trigger] facts@[func.arena@[i].id]).value == constants_solution(
                func.arena@,
            )[i],
{
    let arena = &func.arena;
    let ghost nodes = arena@;
    let users = match use_def_facts {
        Some(ud) => users_from_facts(arena, ud),
        None => {
            let preds = operand_positions(arena);
            user_positions(arena, &preds)
        },
    };
    let lattice = solve(arena, &users);
    proof {
        lemma_greatest_constants_unique(nodes, lattice@, constants_solution(nodes));
    }
    let mut facts: FactMap<ConstantFact> = FactMap::new();
    let mut i: usize = 0;
    while i < arena.len()
        invariant
            nodes == arena@,
            arena == &func.arena,
            distinct_ids(nodes),
            lattice@ == constants_solution(nodes),
            lattice@.len() == nodes.len(),
            i <= nodes.len(),
            facts.wf(),
            forall|x: NodeId| facts@.dom().contains(x) <==> exists|k: int| 0 <= k < i && nodes[k].id == x,
            forall|k: int| 0 <= k < i ==> (#[trigger] facts@[nodes[k].id]).value == lattice@[k],
        decreases nodes.len() - i,
    {
        facts.insert(arena[i].id, ConstantFact { value: lattice[i] });
        proof {
            assert forall|k: int| 0 <= k < i + 1 implies (#[trigger] facts@[nodes[k].id]).value == lattice@[k] by {
                if k < i {
                    assert(nodes[k].id != nodes[i as int].id);
                }
            }
            assert forall|x: NodeId| facts@.dom().contains(x) <==> exists|k: int| 0 <= k < i + 1 && nodes[k].id == x by {
                if facts@.dom().contains(x) && x != nodes[i as int].id {
                    let k = choose|k: int| 0 <= k < i && nodes[k].id == x;
                }
            }
        }
        i += 1;
    }
    facts
}

// ── Laws ────────────────────────────────────────────────────────────────

/// In the greatest solution a constant node has its constant, and a node
/// whose operation does not fold (a parameter, a load, a call, ...) is
/// unknown.
pub proof fn law_constants_and_unknowns(nodes: Seq<Node>, l: Seq<ConstantLattice>, i: int)
    requires
        is_greatest_constants(nodes, l),
        0 <= i < nodes.len(),
    ensures
        nodes[i].kind is Constant ==> l[i] == ConstantLattice::Constant(nodes[i].kind->Constant_0),
        !(nodes[i].kind is Constant) && !spec_is_foldable(nodes[i].kind) ==> l[i] is Top,
{
    assert(l[i] == spec_evaluate(nodes, l, i));
    if !(nodes[i].kind is Constant) && !spec_is_foldable(nodes[i].kind) {
        let e = l.update(i, ConstantLattice::Top);
        assert forall|k: int| 0 <= k < nodes.len() implies below(l[k], #[trigger] e[k]) by {}
        assert forall|k: int| 0 <= k < nodes.len() implies below(#[trigger] e[k], spec_evaluate(nodes, e, k)) by {
            if k != i {
                assert(l[k] == spec_evaluate(nodes, l, k));
                lemma_evaluate_monotone(nodes, l, e, k);
            }
        }
        assert(is_constants_post(nodes, e));
        assert(below(e[i], l[i]));
    }
}

/// In the greatest solution a folding node whose operands all have
/// constants gets the folded value of those constants.
pub proof fn law_folded_operands(nodes: Seq<Node>, l: Seq<ConstantLattice>, i: int)
    requires
        is_greatest_constants(nodes, l),
        0 <= i < nodes.len(),
        spec_is_foldable(nodes[i].kind),
        forall|t: int|
            0 <= t < spec_dataflow_inputs(nodes[i].kind).len() ==> #[trigger] value_of(
                nodes,
                l,
                spec_dataflow_inputs(nodes[i].kind)[t],
            ) is Constant,
    ensures
        l[i] == spec_fold(
            nodes[i].kind,
            constants_of(operand_values(nodes, l, spec_dataflow_inputs(nodes[i].kind))),
        ),
{
    assert(l[i] == spec_evaluate(nodes, l, i));
    let vals = operand_values(nodes, l, spec_dataflow_inputs(nodes[i].kind));
    assert(!some_top(vals)) by {
        if some_top(vals) {
            let t = choose|t: int| 0 <= t < vals.len() && #[trigger] vals[t] is Top;
            assert(value_of(nodes, l, spec_dataflow_inputs(nodes[i].kind)[t]) is Constant);
        }
    }
    assert(!some_bottom(vals)) by {
        if some_bottom(vals) {
            let t = choose|t: int| 0 <= t < vals.len() && #[trigger] vals[t] is Bottom;
            assert(value_of(nodes, l, spec_dataflow_inputs(nodes[i].kind)[t]) is Constant);
        }
    }
}

/// The 64-bit signed constant `v` reads back as `v`.
proof fn lemma_signed_constant_reads_back(v: i64)
    ensures
        spec_as_i64(signed_constant(v)) == Some(v),
{
    crate::facts::lemma_pow2_values();
    vstd::arithmetic::power2::lemma2_to64();
    vstd::arithmetic::power2::lemma_pow2_adds(32, 31);
}

/// A comparison of two 64-bit signed constants folds to its truth value:
/// `a < b`, `a <= b`, `a > b`, `a >= b`, `a == b`, `a != b` for the six
/// comparison operations.
pub proof fn law_fold_comparisons(a: i64, b: i64, lhs: NodeId, rhs: NodeId)
    ensures
        spec_fold(NodeKind::Lt { lhs, rhs }, seq![signed_constant(a), signed_constant(b)])
            == ConstantLattice::Constant(ConstantData::Bool(a < b)),
        spec_fold(NodeKind::Le { lhs, rhs }, seq![signed_constant(a), signed_constant(b)])
            == ConstantLattice::Constant(ConstantData::Bool(a <= b)),
        spec_fold(NodeKind::Gt { lhs, rhs }, seq![signed_constant(a), signed_constant(b)])
            == ConstantLattice::Constant(ConstantData::Bool(a > b)),
        spec_fold(NodeKind::Ge { lhs, rhs }, seq![signed_constant(a), signed_constant(b)])
            == ConstantLattice::Constant(ConstantData::Bool(a >= b)),
        spec_fold(NodeKind::Eq { lhs, rhs }, seq![signed_constant(a), signed_constant(b)])
            == ConstantLattice::Constant(ConstantData::Bool(a == b)),
        spec_fold(NodeKind::Ne { lhs, rhs }, seq![signed_constant(a), signed_constant(b)])
            == ConstantLattice::Constant(ConstantData::Bool(a != b)),
{
    lemma_signed_constant_reads_back(a);
    lemma_signed_constant_reads_back(b);
}

/// In the greatest solution, a comparison node whose operands have the
/// 64-bit signed constants `a` and `b` has the truth value of the
/// comparison on `a` and `b`.
pub proof fn law_compared_constants(nodes: Seq<Node>, l: Seq<ConstantLattice>, i: int, a: i64, b: i64)
    requires
        is_greatest_constants(nodes, l),
        0 <= i < nodes.len(),
        match nodes[i].kind {
            NodeKind::Lt { lhs, rhs } | NodeKind::Le { lhs, rhs } | NodeKind::Gt { lhs, rhs }
            | NodeKind::Ge { lhs, rhs } | NodeKind::Eq { lhs, rhs } | NodeKind::Ne { lhs, rhs } =>
                value_of(nodes, l, lhs) == ConstantLattice::Constant(signed_constant(a))
                && value_of(nodes, l, rhs) == ConstantLattice::Constant(signed_constant(b)),
            _ => false,
        },
    ensures
        nodes[i].kind is Lt ==> l[i] == ConstantLattice::Constant(ConstantData::Bool(a < b)),
        nodes[i].kind is Le ==> l[i] == ConstantLattice::Constant(ConstantData::Bool(a <= b)),
        nodes[i].kind is Gt ==> l[i] == ConstantLattice::Constant(ConstantData::Bool(a > b)),
        nodes[i].kind is Ge ==> l[i] == ConstantLattice::Constant(ConstantData::Bool(a >= b)),
        nodes[i].kind is Eq ==> l[i] == ConstantLattice::Constant(ConstantData::Bool(a == b)),
        nodes[i].kind is Ne ==> l[i] == ConstantLattice::Constant(ConstantData::Bool(a != b)),
{
    let k = nodes[i].kind;
    match k {
        NodeKind::Lt { lhs, rhs } | NodeKind::Le { lhs, rhs } | NodeKind::Gt { lhs, rhs }
        | NodeKind::Ge { lhs, rhs } | NodeKind::Eq { lhs, rhs } | NodeKind::Ne { lhs, rhs } => {
            assert(spec_dataflow_inputs(k) == seq![lhs, rhs]) by {
                reveal(spec_dataflow_inputs);
            }
            lemma_pair_folded(nodes, l, i, lhs, rhs);
            law_fold_comparisons(a, b, lhs, rhs);
        },
        _ => {},
    }
}

proof fn lemma_pair_folded(nodes: Seq<Node>, l: Seq<ConstantLattice>, i: int, lhs: NodeId, rhs: NodeId)
    requires
        is_greatest_constants(nodes, l),
        0 <= i < nodes.len(),
        spec_is_foldable(nodes[i].kind),
        spec_dataflow_inputs(nodes[i].kind) == seq![lhs, rhs],
        value_of(nodes, l, lhs) is Constant,
        value_of(nodes, l, rhs) is Constant,
    ensures
        l[i] == spec_fold(
            nodes[i].kind,
            seq![value_of(nodes, l, lhs)->Constant_0, value_of(nodes, l, rhs)->Constant_0],
        ),
{
    let ins = spec_dataflow_inputs(nodes[i].kind);
    assert forall|t: int| 0 <= t < ins.len() implies #[trigger] value_of(nodes, l, ins[t]) is Constant by {}
    law_folded_operands(nodes, l, i);
    assert(constants_of(operand_values(nodes, l, ins)) =~= seq![
        value_of(nodes, l, lhs)->Constant_0,
        value_of(nodes, l, rhs)->Constant_0,
    ]);
}


/// The `i64` a folded constant holds (0 where it holds none).
pub open spec fn folded_i64(v: ConstantLattice) -> int {
    match v {
        ConstantLattice::Constant(d) => match spec_as_i64(d) {
            Some(x) => x as int,
            None => 0,
        },
        _ => 0,
    }
}

/// `r` is the 64-bit two's-complement wrap of the exact result `x`: it is
/// congruent to `x` modulo `2^64`, and equals `x` where `x` fits.
pub open spec fn wraps_to(r: int, x: int) -> bool {
    &&& (r - x) % 0x1_0000_0000_0000_0000 == 0
    &&& (i64::MIN <= x <= i64::MAX ==> r == x)
}

/// Whether a folded value is a 64-bit signed constant.
pub open spec fn is_i64_constant(v: ConstantLattice) -> bool {
    v matches ConstantLattice::Constant(d) && spec_as_i64(d) is Some
}

/// Addition, subtraction and multiplication of two 64-bit signed constants
/// fold to the exact sum, difference and product, wrapped to 64 bits.
pub proof fn law_fold_wrapping_arithmetic(a: i64, b: i64, lhs: NodeId, rhs: NodeId)
    ensures
        is_i64_constant(spec_fold(NodeKind::Add { lhs, rhs }, seq![signed_constant(a), signed_constant(b)])),
        wraps_to(folded_i64(spec_fold(NodeKind::Add { lhs, rhs }, seq![signed_constant(a), signed_constant(b)])), a + b),
        is_i64_constant(spec_fold(NodeKind::Sub { lhs, rhs }, seq![signed_constant(a), signed_constant(b)])),
        wraps_to(folded_i64(spec_fold(NodeKind::Sub { lhs, rhs }, seq![signed_constant(a), signed_constant(b)])), a - b),
        is_i64_constant(spec_fold(NodeKind::Mul { lhs, rhs }, seq![signed_constant(a), signed_constant(b)])),
        wraps_to(folded_i64(spec_fold(NodeKind::Mul { lhs, rhs }, seq![signed_constant(a), signed_constant(b)])), a * b),
{
    lemma_signed_constant_reads_back(a);
    lemma_signed_constant_reads_back(b);
    let s = i64_specs::wrapping_add(a, b);
    let d = i64_specs::wrapping_sub(a, b);
    let m = i64_specs::wrapping_mul(a, b);
    lemma_signed_constant_reads_back(s);
    lemma_signed_constant_reads_back(d);
    lemma_signed_constant_reads_back(m);
    let p: int = a * b;
    let k: int = 0x1_0000_0000_0000_0000;
    vstd::arithmetic::div_mod::lemma_fundamental_div_mod(p, k);
    vstd::arithmetic::div_mod::lemma_mod_multiples_basic(-(p / k), k);
    assert((m - p) % k == 0);
    if i64::MIN <= p <= i64::MAX {
        vstd::arithmetic::div_mod::lemma_fundamental_div_mod(p, k);
        assert(m == p);
    }
}

/// Division and remainder of two 64-bit signed constants, the divisor not
/// zero and the quotient in range, fold to the quotient rounded toward zero
/// and its remainder: `q * b + r == a`, `|r| < |b|`, and `r` is zero or has
/// the sign of `a`.
pub proof fn law_fold_division(a: i64, b: i64, lhs: NodeId, rhs: NodeId)
    requires
        b != 0,
        !(a == i64::MIN && b == -1),
    ensures
        is_i64_constant(spec_fold(NodeKind::Div { lhs, rhs }, seq![signed_constant(a), signed_constant(b)])),
        is_i64_constant(spec_fold(NodeKind::Rem { lhs, rhs }, seq![signed_constant(a), signed_constant(b)])),
        ({
            let q = folded_i64(spec_fold(NodeKind::Div { lhs, rhs }, seq![signed_constant(a), signed_constant(b)]));
            let r = folded_i64(spec_fold(NodeKind::Rem { lhs, rhs }, seq![signed_constant(a), signed_constant(b)]));
            &&& q * b + r == a
            &&& abs(r) < abs(b as int)
            &&& (r == 0 || (r < 0) == (a < 0))
        }),
{
    lemma_signed_constant_reads_back(a);
    lemma_signed_constant_reads_back(b);
    let x = abs(a as int);
    let y = abs(b as int);
    vstd::arithmetic::div_mod::lemma_fundamental_div_mod(x as int, y as int);
    vstd::arithmetic::div_mod::lemma_div_basics_4(x as int, y as int);
    vstd::arithmetic::div_mod::lemma_div_basics_5(x as int, y as int);
    let q0 = x / y;
    let r0 = x % y;
    let tq = trunc_div(a as int, b as int);
    let tr = trunc_rem(a as int, b as int);
    assert(x == y * q0 + r0);
    assert(tq * b + tr == a) by (nonlinear_arith)
        requires
            x == y * q0 + r0,
            x == abs(a as int),
            y == abs(b as int),
            tq == (if (a < 0) == (b < 0) { q0 as int } else { -q0 }),
            tr == (if a < 0 { -r0 } else { r0 as int }),
    ;
    assert(q0 <= x);
    if y >= 2 {
        assert(2 * q0 <= x) by (nonlinear_arith)
            requires
                x == y * q0 + r0,
                r0 >= 0,
                q0 >= 0,
                y >= 2,
        ;
    }
    if y == 1 && x > i64::MAX {
        assert(a == i64::MIN);
        assert(b == -1 || b == 1);
    }
    assert(i64::MIN <= tq <= i64::MAX);
    let qv = wrap_quotient(tq);
    assert(qv == tq);
    lemma_signed_constant_reads_back(qv);
    lemma_signed_constant_reads_back(tr as i64);
    assert(spec_as_u64(signed_constant(b)) != Some(0u64));
}


/// The bitwise operations on two 64-bit unsigned constants fold to the
/// bitwise and, or and exclusive or of the two.
pub proof fn law_fold_bitwise(a: u64, b: u64, lhs: NodeId, rhs: NodeId)
    ensures
        spec_fold(NodeKind::And { lhs, rhs }, seq![unsigned_constant(a), unsigned_constant(b)])
            == ConstantLattice::Constant(unsigned_constant(a & b)),
        spec_fold(NodeKind::Or { lhs, rhs }, seq![unsigned_constant(a), unsigned_constant(b)])
            == ConstantLattice::Constant(unsigned_constant(a | b)),
        spec_fold(NodeKind::Xor { lhs, rhs }, seq![unsigned_constant(a), unsigned_constant(b)])
            == ConstantLattice::Constant(unsigned_constant(a ^ b)),
{
}


/// Negation of a 64-bit signed constant folds to `-a` wrapped to 64 bits,
/// and bitwise complement to `-a - 1`; the boolean operations on boolean
/// constants fold to their truth values, and a selection on a boolean
/// constant to the chosen operand.
pub proof fn law_fold_unary_and_boolean(a: i64, p: bool, q: bool, x: ConstantData, y: ConstantData, n: NodeKind)
    ensures
        n is Neg ==> is_i64_constant(spec_fold(n, seq![signed_constant(a)])) && wraps_to(
            folded_i64(spec_fold(n, seq![signed_constant(a)])),
            -a,
        ),
        n is Not ==> is_i64_constant(spec_fold(n, seq![signed_constant(a)])) && folded_i64(
            spec_fold(n, seq![signed_constant(a)]),
        ) == -a - 1,
        n is BoolAnd ==> spec_fold(n, seq![ConstantData::Bool(p), ConstantData::Bool(q)])
            == ConstantLattice::Constant(ConstantData::Bool(p && q)),
        n is BoolOr ==> spec_fold(n, seq![ConstantData::Bool(p), ConstantData::Bool(q)])
            == ConstantLattice::Constant(ConstantData::Bool(p || q)),
        n is BoolNot ==> spec_fold(n, seq![ConstantData::Bool(p)]) == ConstantLattice::Constant(
            ConstantData::Bool(!p),
        ),
        n is Select ==> spec_fold(n, seq![ConstantData::Bool(p), x, y]) == ConstantLattice::Constant(
            if p {
                x
            } else {
                y
            },
        ),
{
    lemma_signed_constant_reads_back(a);
    if n is Neg {
        let v = i64_specs::wrapping_sub(0, a);
        lemma_signed_constant_reads_back(v);
        assert(seq![signed_constant(a)][0] == signed_constant(a));
    }
    if n is Not {
        let v: i64 = !a;
        assert(!a == -a - 1) by (bit_vector);
        lemma_signed_constant_reads_back(v);
        assert(seq![signed_constant(a)][0] == signed_constant(a));
    }
}


/// The shifts of a 64-bit unsigned constant by another fold to the value
/// shifted by the amount modulo 64: a right shift divides by `2^s`, a left
/// shift multiplies by `2^s` where the product fits.
pub proof fn law_fold_shifts(a: u64, b: u64, lhs: NodeId, rhs: NodeId)
    ensures
        spec_fold(NodeKind::Shr { lhs, rhs }, seq![unsigned_constant(a), unsigned_constant(b)])
            == ConstantLattice::Constant(unsigned_constant((a as nat / pow2((b % 64) as nat)) as u64)),
        a as nat * pow2((b % 64) as nat) <= u64::MAX ==> spec_fold(
            NodeKind::Shl { lhs, rhs },
            seq![unsigned_constant(a), unsigned_constant(b)],
        ) == ConstantLattice::Constant(unsigned_constant((a as nat * pow2((b % 64) as nat)) as u64)),
{
    let s: u64 = b % 64;
    let t: u32 = s as u32;
    assert(t % 64 == t);
    assert((a >> t) == (a >> s)) by (bit_vector)
        requires
            t == s,
            s < 64,
    ;
    assert((a << t) == (a << s)) by (bit_vector)
        requires
            t == s,
            s < 64,
    ;
    vstd::bits::lemma_u64_shr_is_div(a, s);
    if a as nat * pow2(s as nat) <= u64::MAX {
        vstd::bits::lemma_u64_shl_is_mul(a, s);
    }
}

} // verus!
