//! Target-plan search landscape for the three semantic byte reductions
//! (`k18_all_equal`, `k43_sum_ascii`, `k50_count_masked`).
//!
//! A candidate plan fixes an ISA, a reduction strategy, an unroll factor, a
//! tail strategy and a control-flow shape. `enumerate_plans` lists every valid
//! combination for a kernel in nested-loop order; the emitters turn one plan
//! into C source.
use vstd::prelude::*;
use crate::text::{decimal, owned, push_decimal, push_usize, str_eq};

verus! {

/// A candidate target plan with all dimensions specified.
#[derive(Clone, Debug, PartialEq, Eq, Hash)]
pub struct CandidatePlan {
    pub id: u32,
    pub kernel: String,
    pub isa: ISA,
    pub reduction: ReductionStrategy,
    pub unroll: UnrollFactor,
    pub tail: TailStrategy,
    pub control: ControlFlow,
}

/// Instruction set of a plan.
#[derive(Clone, Copy, Debug, PartialEq, Eq, Hash, Structural)]
pub enum ISA {
    Scalar,
    SSE2,
    AVX2,
}

/// Vector width in bytes of an instruction set.
pub open spec fn isa_width(isa: ISA) -> nat {
    match isa {
        ISA::Scalar => 1,
        ISA::SSE2 => 16,
        ISA::AVX2 => 32,
    }
}

impl ISA {
    /// Vector width in bytes (1 for scalar code).
    pub fn width(&self) -> (w: usize)
        ensures
            w as nat == isa_width(*self),
    {
        match self {
            ISA::Scalar => 1,
            ISA::SSE2 => 16,
            ISA::AVX2 => 32,
        }
    }
}

/// How a plan reduces the bytes of a chunk.
#[derive(Clone, Copy, Debug, PartialEq, Eq, Hash, Structural)]
pub enum ReductionStrategy {
    /// Scalar: process one byte at a time
    ScalarLoop,
    /// Lane-wise accumulation: compare, widen, add
    LaneAccumulation,
    /// movemask + popcount (Cardinality/All)
    MovemaskPopcount,
    /// psadbw (Sum)
    Psadbw,
}

/// Loop unrolling factor.
#[derive(Clone, Copy, Debug, PartialEq, Eq, Hash, Structural)]
pub enum UnrollFactor {
    U1,
    U2,
    U4,
}

/// Number of chunks per loop iteration for an unroll factor.
pub open spec fn unroll_count(u: UnrollFactor) -> nat {
    match u {
        UnrollFactor::U1 => 1,
        UnrollFactor::U2 => 2,
        UnrollFactor::U4 => 4,
    }
}

impl UnrollFactor {
    /// Number of chunks processed per loop iteration.
    pub fn count(&self) -> (c: usize)
        ensures
            c as nat == unroll_count(*self),
    {
        match self {
            UnrollFactor::U1 => 1,
            UnrollFactor::U2 => 2,
            UnrollFactor::U4 => 4,
        }
    }
}

/// How the bytes left after the main loop are handled.
#[derive(Clone, Copy, Debug, PartialEq, Eq, Hash, Structural)]
pub enum TailStrategy {
    Scalar,
    NarrowerVector,
}

/// Control-flow shape of the main loop.
#[derive(Clone, Copy, Debug, PartialEq, Eq, Hash, Structural)]
pub enum ControlFlow {
    /// Full reduction (no early exit)
    FullReduction,
    /// Early exit on first mismatch (only valid for All)
    EarlyExit,
}

/// The three known kernels, and every other name.
#[derive(Clone, Copy, Debug, PartialEq, Eq, Structural)]
pub enum KernelKind {
    /// `k18_all_equal`
    AllEqual,
    /// `k43_sum_ascii`
    SumAscii,
    /// `k50_count_masked`
    CountMasked,
    Other,
}

pub open spec fn kernel_kind(kernel: Seq<char>) -> KernelKind {
    if kernel == "k18_all_equal"@ {
        KernelKind::AllEqual
    } else if kernel == "k43_sum_ascii"@ {
        KernelKind::SumAscii
    } else if kernel == "k50_count_masked"@ {
        KernelKind::CountMasked
    } else {
        KernelKind::Other
    }
}

/// Classifies a kernel name.
pub fn classify_kernel(kernel: &str) -> (k: KernelKind)
    ensures
        k == kernel_kind(kernel@),
{
    if str_eq(kernel, "k18_all_equal") {
        KernelKind::AllEqual
    } else if str_eq(kernel, "k43_sum_ascii") {
        KernelKind::SumAscii
    } else if str_eq(kernel, "k50_count_masked") {
        KernelKind::CountMasked
    } else {
        KernelKind::Other
    }
}

/// The dimensions of a plan, without its id and kernel name.
pub struct PlanShape {
    pub isa: ISA,
    pub reduction: ReductionStrategy,
    pub unroll: UnrollFactor,
    pub tail: TailStrategy,
    pub control: ControlFlow,
}

pub open spec fn shape_of(p: CandidatePlan) -> PlanShape {
    PlanShape {
        isa: p.isa,
        reduction: p.reduction,
        unroll: p.unroll,
        tail: p.tail,
        control: p.control,
    }
}

/// ISAs tried for a kernel, in search order.
pub open spec fn isa_options(kind: KernelKind) -> Seq<ISA> {
    if kind == KernelKind::Other {
        seq![ISA::Scalar]
    } else {
        seq![ISA::Scalar, ISA::SSE2, ISA::AVX2]
    }
}

/// Reduction strategies tried for a kernel, in search order.
pub open spec fn reduction_options(kind: KernelKind) -> Seq<ReductionStrategy> {
    match kind {
        KernelKind::AllEqual => seq![
            ReductionStrategy::ScalarLoop,
            ReductionStrategy::LaneAccumulation,
            ReductionStrategy::MovemaskPopcount,
        ],
        KernelKind::SumAscii => seq![
            ReductionStrategy::ScalarLoop,
            ReductionStrategy::LaneAccumulation,
            ReductionStrategy::Psadbw,
        ],
        KernelKind::CountMasked => seq![
            ReductionStrategy::ScalarLoop,
            ReductionStrategy::LaneAccumulation,
            ReductionStrategy::MovemaskPopcount,
        ],
        KernelKind::Other => seq![ReductionStrategy::ScalarLoop],
    }
}

/// Unroll factors tried, in search order.
pub open spec fn unroll_options() -> Seq<UnrollFactor> {
    seq![UnrollFactor::U1, UnrollFactor::U2, UnrollFactor::U4]
}

/// Tail strategies tried, in search order.
pub open spec fn tail_options() -> Seq<TailStrategy> {
    seq![TailStrategy::Scalar, TailStrategy::NarrowerVector]
}

/// Control-flow shapes tried for a kernel, in search order.
pub open spec fn control_options(kind: KernelKind) -> Seq<ControlFlow> {
    if kind == KernelKind::AllEqual {
        seq![ControlFlow::FullReduction, ControlFlow::EarlyExit]
    } else {
        seq![ControlFlow::FullReduction]
    }
}

/// ISA / reduction compatibility: scalar code only with `ScalarLoop`, vector
/// code never with it; `LaneAccumulation` only on AVX2; `Psadbw` only for the
/// sum and `MovemaskPopcount` never for it.
pub open spec fn isa_reduction_ok(kind: KernelKind, isa: ISA, r: ReductionStrategy) -> bool {
    &&& (isa == ISA::Scalar <==> r == ReductionStrategy::ScalarLoop)
    &&& (r == ReductionStrategy::LaneAccumulation ==> isa == ISA::AVX2)
    &&& (r == ReductionStrategy::Psadbw ==> kind == KernelKind::SumAscii)
    &&& (r == ReductionStrategy::MovemaskPopcount ==> kind != KernelKind::SumAscii)
}

/// A narrower-vector tail needs AVX2 (SSE2 has no narrower vector).
pub open spec fn tail_ok(isa: ISA, tail: TailStrategy) -> bool {
    tail == TailStrategy::NarrowerVector ==> isa == ISA::AVX2
}

/// Early exit only for the all-equal kernel, and never in scalar code.
pub open spec fn control_ok(kind: KernelKind, isa: ISA, c: ControlFlow) -> bool {
    c == ControlFlow::EarlyExit ==> (kind == KernelKind::AllEqual && isa != ISA::Scalar)
}

/// The validity rules of a plan for a kernel.
pub open spec fn plan_is_valid(kind: KernelKind, s: PlanShape) -> bool {
    &&& isa_reduction_ok(kind, s.isa, s.reduction)
    &&& tail_ok(s.isa, s.tail)
    &&& control_ok(kind, s.isa, s.control)
}

/// Search position `r` of the nested loops (ISA, reduction, unroll, tail,
/// control; 3 x 3 x 3 x 2 x 2 slots), or `None` where a slot lies beyond the
/// kernel's option lists.
pub open spec fn candidate_at(kind: KernelKind, r: nat) -> Option<PlanShape> {
    let i = r / 36;
    let j = (r / 12) % 3;
    let k = (r / 4) % 3;
    let t = (r / 2) % 2;
    let c = r % 2;
    if i < isa_options(kind).len() && j < reduction_options(kind).len() && c < control_options(
        kind,
    ).len() {
        Some(
            PlanShape {
                isa: isa_options(kind)[i as int],
                reduction: reduction_options(kind)[j as int],
                unroll: unroll_options()[k as int],
                tail: tail_options()[t as int],
                control: control_options(kind)[c as int],
            },
        )
    } else {
        None
    }
}

pub open spec fn valid_at(kind: KernelKind, r: nat) -> bool {
    candidate_at(kind, r) matches Some(s) && plan_is_valid(kind, s)
}

/// The valid plans among the first `n` search positions, in search order.
pub open spec fn plans_below(kind: KernelKind, n: nat) -> Seq<PlanShape>
    decreases n,
{
    if n == 0 {
        Seq::empty()
    } else {
        let prev = plans_below(kind, (n - 1) as nat);
        if valid_at(kind, (n - 1) as nat) {
            prev.push(candidate_at(kind, (n - 1) as nat)->Some_0)
        } else {
            prev
        }
    }
}

proof fn lemma_skip(kind: KernelKind, a: nat, b: nat)
    requires
        a <= b,
        forall|r: nat| a <= r < b ==> !valid_at(kind, r),
    ensures
        plans_below(kind, b) == plans_below(kind, a),
    decreases b,
{
    if b > a {
        lemma_skip(kind, a, (b - 1) as nat);
    }
}

proof fn lemma_rank(i: nat, j: nat, k: nat, t: nat, c: nat)
    requires
        i < 3,
        j < 3,
        k < 3,
        t < 2,
        c < 2,
    ensures
        ({
            let r = 36 * i + 12 * j + 4 * k + 2 * t + c;
            &&& r / 36 == i
            &&& (r / 12) % 3 == j
            &&& (r / 4) % 3 == k
            &&& (r / 2) % 2 == t
            &&& r % 2 == c
        }),
{
}

fn isa_list(kind: KernelKind) -> (v: Vec<ISA>)
    ensures
        v@ == isa_options(kind),
{
    if kind == KernelKind::Other {
        vec![ISA::Scalar]
    } else {
        vec![ISA::Scalar, ISA::SSE2, ISA::AVX2]
    }
}

fn reduction_list(kind: KernelKind) -> (v: Vec<ReductionStrategy>)
    ensures
        v@ == reduction_options(kind),
{
    match kind {
        KernelKind::AllEqual => vec![
            ReductionStrategy::ScalarLoop,
            ReductionStrategy::LaneAccumulation,
            ReductionStrategy::MovemaskPopcount,
        ],
        KernelKind::SumAscii => vec![
            ReductionStrategy::ScalarLoop,
            ReductionStrategy::LaneAccumulation,
            ReductionStrategy::Psadbw,
        ],
        KernelKind::CountMasked => vec![
            ReductionStrategy::ScalarLoop,
            ReductionStrategy::LaneAccumulation,
            ReductionStrategy::MovemaskPopcount,
        ],
        KernelKind::Other => vec![ReductionStrategy::ScalarLoop],
    }
}

fn control_list(kind: KernelKind) -> (v: Vec<ControlFlow>)
    ensures
        v@ == control_options(kind),
{
    if kind == KernelKind::AllEqual {
        vec![ControlFlow::FullReduction, ControlFlow::EarlyExit]
    } else {
        vec![ControlFlow::FullReduction]
    }
}

/// Whether the plans found so far are exactly the valid plans below search
/// position `n`, numbered from zero, all for `kernel`.
pub open spec fn plans_match(plans: Seq<CandidatePlan>, kernel: Seq<char>, n: nat) -> bool {
    let expected = plans_below(kernel_kind(kernel), n);
    &&& plans.len() == expected.len()
    &&& forall|p: int|
        0 <= p < plans.len() ==> {
            &&& (#[trigger] plans[p]).id == p
            &&& plans[p].kernel@ == kernel
            &&& shape_of(plans[p]) == expected[p]
        }
}

proof fn lemma_plans_below_len(kind: KernelKind, n: nat)
    ensures
        plans_below(kind, n).len() <= n,
    decreases n,
{
    if n > 0 {
        lemma_plans_below_len(kind, (n - 1) as nat);
    }
}

proof fn lemma_match_skip(plans: Seq<CandidatePlan>, kernel: Seq<char>, a: nat, b: nat)
    requires
        a <= b,
        plans_match(plans, kernel, a),
        forall|r: nat| a <= r < b ==> !valid_at(kernel_kind(kernel), r),
    ensures
        plans_match(plans, kernel, b),
{
    lemma_skip(kernel_kind(kernel), a, b);
}

proof fn lemma_match_push(
    plans: Seq<CandidatePlan>,
    kernel: Seq<char>,
    n: nat,
    plan: CandidatePlan,
)
    requires
        plans_match(plans, kernel, n),
        valid_at(kernel_kind(kernel), n),
        shape_of(plan) == candidate_at(kernel_kind(kernel), n)->Some_0,
        plan.id == plans.len(),
        plan.kernel@ == kernel,
    ensures
        plans_match(plans.push(plan), kernel, n + 1),
{
    let np = plans.push(plan);
    let expected = plans_below(kernel_kind(kernel), n + 1);
    assert(expected == plans_below(kernel_kind(kernel), n).push(plan_shape_at(kernel, n)));
    assert forall|p: int| 0 <= p < np.len() implies {
        &&& (#[trigger] np[p]).id == p
        &&& np[p].kernel@ == kernel
        &&& shape_of(np[p]) == expected[p]
    } by {
        if p < plans.len() {
            assert(np[p] == plans[p]);
        }
    }
}

spec fn plan_shape_at(kernel: Seq<char>, n: nat) -> PlanShape {
    candidate_at(kernel_kind(kernel), n)->Some_0
}

/// Pushes the plans for every control shape of one (ISA, reduction, unroll,
/// tail) slot at search position `tbase`.
fn push_controls(
    plans: &mut Vec<CandidatePlan>,
    id: &mut u32,
    kernel: &str,
    kind: KernelKind,
    controls: &Vec<ControlFlow>,
    slot: (usize, usize, usize, usize),
    shape: (ISA, ReductionStrategy, UnrollFactor, TailStrategy),
)
    requires
        kind == kernel_kind(kernel@),
        controls@ == control_options(kind),
        slot.0 < isa_options(kind).len(),
        slot.1 < reduction_options(kind).len(),
        slot.2 < 3,
        slot.3 < 2,
        shape.0 == isa_options(kind)[slot.0 as int],
        shape.1 == reduction_options(kind)[slot.1 as int],
        shape.2 == unroll_options()[slot.2 as int],
        shape.3 == tail_options()[slot.3 as int],
        isa_reduction_ok(kind, shape.0, shape.1),
        tail_ok(shape.0, shape.3),
        *old(id) == old(plans)@.len(),
        plans_match(old(plans)@, kernel@, (36 * slot.0 + 12 * slot.1 + 4 * slot.2 + 2 * slot.3) as nat),
    ensures
        *final(id) == final(plans)@.len(),
        plans_match(final(plans)@, kernel@, (36 * slot.0 + 12 * slot.1 + 4 * slot.2 + 2 * slot.3 + 2) as nat),
{
    let (i, j, k, t) = slot;
    let (isa, reduction, unroll, tail) = shape;
    let tbase: usize = 36 * i + 12 * j + 4 * k + 2 * t;
    proof {
        lemma_plans_below_len(kind, tbase as nat);
    }
    let mut c: usize = 0;
    while c < controls.len()
        invariant
            kind == kernel_kind(kernel@),
            controls@ == control_options(kind),
            i < isa_options(kind).len(),
            j < reduction_options(kind).len(),
            k < 3,
            t < 2,
            isa == isa_options(kind)[i as int],
            reduction == reduction_options(kind)[j as int],
            unroll == unroll_options()[k as int],
            tail == tail_options()[t as int],
            isa_reduction_ok(kind, isa, reduction),
            tail_ok(isa, tail),
            tbase == 36 * i + 12 * j + 4 * k + 2 * t,
            c <= controls@.len(),
            *id == plans@.len(),
            plans@.len() <= tbase + c,
            plans_match(plans@, kernel@, (tbase + c) as nat),
        decreases controls@.len() - c,
    {
        let control = controls[c];
        proof {
            lemma_rank(i as nat, j as nat, k as nat, t as nat, c as nat);
        }
        if (control == ControlFlow::EarlyExit && kind != KernelKind::AllEqual) || (control
            == ControlFlow::EarlyExit && isa == ISA::Scalar) {
            proof {
                lemma_match_skip(plans@, kernel@, (tbase + c) as nat, (tbase + c + 1) as nat);
            }
            c += 1;
            continue;
        }
        let plan = CandidatePlan {
            id: *id,
            kernel: String::from_str(kernel),
            isa,
            reduction,
            unroll,
            tail,
            control,
        };
        proof {
            lemma_match_push(plans@, kernel@, (tbase + c) as nat, plan);
        }
        plans.push(plan);
        *id = *id + 1;
        c += 1;
    }
    proof {
        assert forall|r: nat| tbase + controls@.len() <= r < tbase + 2 implies !valid_at(kind, r) by {
            lemma_rank(i as nat, j as nat, k as nat, t as nat, (r - tbase) as nat);
        }
        lemma_match_skip(plans@, kernel@, (tbase + controls@.len()) as nat, (tbase + 2) as nat);
    }
}

/// Pushes the plans of one (ISA, reduction) slot: all unroll factors, tails
/// and control shapes.
fn push_unrolls(
    plans: &mut Vec<CandidatePlan>,
    id: &mut u32,
    kernel: &str,
    kind: KernelKind,
    controls: &Vec<ControlFlow>,
    i: usize,
    j: usize,
    isa: ISA,
    reduction: ReductionStrategy,
)
    requires
        kind == kernel_kind(kernel@),
        controls@ == control_options(kind),
        i < isa_options(kind).len(),
        j < reduction_options(kind).len(),
        isa == isa_options(kind)[i as int],
        reduction == reduction_options(kind)[j as int],
        isa_reduction_ok(kind, isa, reduction),
        *old(id) == old(plans)@.len(),
        plans_match(old(plans)@, kernel@, (36 * i + 12 * j) as nat),
    ensures
        *final(id) == final(plans)@.len(),
        plans_match(final(plans)@, kernel@, (36 * i + 12 * j + 12) as nat),
{
    let unrolls = vec![UnrollFactor::U1, UnrollFactor::U2, UnrollFactor::U4];
    let tails = vec![TailStrategy::Scalar, TailStrategy::NarrowerVector];
    let base: usize = 36 * i + 12 * j;
    let mut k: usize = 0;
    while k < unrolls.len()
        invariant
            kind == kernel_kind(kernel@),
            controls@ == control_options(kind),
            unrolls@ == unroll_options(),
            tails@ == tail_options(),
            i < isa_options(kind).len(),
            j < reduction_options(kind).len(),
            isa == isa_options(kind)[i as int],
            reduction == reduction_options(kind)[j as int],
            isa_reduction_ok(kind, isa, reduction),
            base == 36 * i + 12 * j,
            k <= 3,
            *id == plans@.len(),
            plans_match(plans@, kernel@, (base + 4 * k) as nat),
        decreases 3 - k,
    {
        let unroll = unrolls[k];
        let mut t: usize = 0;
        while t < tails.len()
            invariant
                kind == kernel_kind(kernel@),
                controls@ == control_options(kind),
                unrolls@ == unroll_options(),
                tails@ == tail_options(),
                i < isa_options(kind).len(),
                j < reduction_options(kind).len(),
                k < 3,
                isa == isa_options(kind)[i as int],
                reduction == reduction_options(kind)[j as int],
                unroll == unroll_options()[k as int],
                isa_reduction_ok(kind, isa, reduction),
                base == 36 * i + 12 * j,
                t <= 2,
                *id == plans@.len(),
                plans_match(plans@, kernel@, (base + 4 * k + 2 * t) as nat),
            decreases 2 - t,
        {
            let tail = tails[t];
            if tail == TailStrategy::NarrowerVector && isa != ISA::AVX2 {
                proof {
                    let tb = (base + 4 * k + 2 * t) as nat;
                    assert forall|r: nat| tb <= r < tb + 2 implies !valid_at(kind, r) by {
                        lemma_rank(i as nat, j as nat, k as nat, t as nat, (r - tb) as nat);
                    }
                    lemma_match_skip(plans@, kernel@, tb, tb + 2);
                }
                t += 1;
                continue;
            }
            push_controls(plans, id, kernel, kind, controls, (i, j, k, t), (isa, reduction, unroll, tail));
            t += 1;
        }
        k += 1;
    }
}

/// Enumerates all valid candidate plans for a kernel: every combination of
/// the kernel's options that passes `plan_is_valid`, in nested-loop order
/// (ISA, reduction, unroll, tail, control), with ids counting up from zero.
pub fn enumerate_plans(kernel: &str) -> (plans: Vec<CandidatePlan>)
    ensures
        plans_match(plans@, kernel@, 108),
{
    let kind = classify_kernel(kernel);
    let isas = isa_list(kind);
    let reductions = reduction_list(kind);
    let controls = control_list(kind);
    let mut plans: Vec<CandidatePlan> = Vec::new();
    let mut id: u32 = 0;

    let mut i: usize = 0;
    while i < isas.len()
        invariant
            kind == kernel_kind(kernel@),
            isas@ == isa_options(kind),
            reductions@ == reduction_options(kind),
            controls@ == control_options(kind),
            i <= isas@.len(),
            id == plans@.len(),
            plans_match(plans@, kernel@, (36 * i) as nat),
        decreases isas@.len() - i,
    {
        let isa = isas[i];
        let mut j: usize = 0;
        while j < reductions.len()
            invariant
                kind == kernel_kind(kernel@),
                isas@ == isa_options(kind),
                reductions@ == reduction_options(kind),
                controls@ == control_options(kind),
                i < isas@.len(),
                isa == isas@[i as int],
                j <= reductions@.len(),
                id == plans@.len(),
                plans_match(plans@, kernel@, (36 * i + 12 * j) as nat),
            decreases reductions@.len() - j,
        {
            let reduction = reductions[j];
            if (isa == ISA::Scalar && reduction != ReductionStrategy::ScalarLoop) || (isa
                != ISA::Scalar && reduction == ReductionStrategy::ScalarLoop) || (reduction
                == ReductionStrategy::LaneAccumulation && isa != ISA::AVX2) || (reduction
                == ReductionStrategy::Psadbw && kind != KernelKind::SumAscii) || (reduction
                == ReductionStrategy::MovemaskPopcount && kind == KernelKind::SumAscii) {
                proof {
                    let base = (36 * i + 12 * j) as nat;
                    assert forall|r: nat| base <= r < base + 12 implies !valid_at(kind, r) by {
                        let m = (r - base) as nat;
                        lemma_rank(i as nat, j as nat, m / 4, (m / 2) % 2, m % 2);
                    }
                    lemma_match_skip(plans@, kernel@, base, base + 12);
                }
                j += 1;
                continue;
            }
            push_unrolls(&mut plans, &mut id, kernel, kind, &controls, i, j, isa, reduction);
            j += 1;
        }
        proof {
            let jb = (36 * i + 12 * reductions@.len()) as nat;
            assert forall|r: nat| jb <= r < 36 * i + 36 implies !valid_at(kind, r) by {
                let m = (r - 36 * i) as nat;
                lemma_rank(i as nat, m / 12, (m / 4) % 3, (m / 2) % 2, m % 2);
            }
            lemma_match_skip(plans@, kernel@, jb, (36 * i + 36) as nat);
        }
        i += 1;
    }
    proof {
        let ib = (36 * isas@.len()) as nat;
        assert forall|r: nat| ib <= r < 108 implies !valid_at(kind, r) by {
            lemma_rank(r / 36, (r / 12) % 3, (r / 4) % 3, (r / 2) % 2, r % 2);
        }
        lemma_match_skip(plans@, kernel@, ib, 108);
    }
    plans
}

proof fn lemma_candidate_injective(kind: KernelKind, r1: nat, r2: nat)
    requires
        candidate_at(kind, r1) is Some,
        candidate_at(kind, r1) == candidate_at(kind, r2),
    ensures
        r1 == r2,
{
    let s = candidate_at(kind, r1)->Some_0;
    assert(candidate_at(kind, r2) is Some);
    assert(r1 / 36 == r2 / 36) by {
        assert(isa_options(kind)[(r1 / 36) as int] == s.isa);
        assert(isa_options(kind)[(r2 / 36) as int] == s.isa);
    }
    assert((r1 / 12) % 3 == (r2 / 12) % 3) by {
        assert(reduction_options(kind)[((r1 / 12) % 3) as int] == s.reduction);
        assert(reduction_options(kind)[((r2 / 12) % 3) as int] == s.reduction);
    }
    assert((r1 / 4) % 3 == (r2 / 4) % 3) by {
        assert(unroll_options()[((r1 / 4) % 3) as int] == s.unroll);
        assert(unroll_options()[((r2 / 4) % 3) as int] == s.unroll);
    }
    assert((r1 / 2) % 2 == (r2 / 2) % 2) by {
        assert(tail_options()[((r1 / 2) % 2) as int] == s.tail);
        assert(tail_options()[((r2 / 2) % 2) as int] == s.tail);
    }
    assert(r1 % 2 == r2 % 2) by {
        assert(control_options(kind)[(r1 % 2) as int] == s.control);
        assert(control_options(kind)[(r2 % 2) as int] == s.control);
    }
}

proof fn lemma_plans_below_facts(kind: KernelKind, n: nat)
    ensures
        forall|p: int|
            0 <= p < plans_below(kind, n).len() ==> plan_is_valid(
                kind,
                #[trigger] plans_below(kind, n)[p],
            ),
        forall|p: int|
            0 <= p < plans_below(kind, n).len() ==> exists|r: nat|
                r < n && candidate_at(kind, r) == Some(#[trigger] plans_below(kind, n)[p]),
        forall|p: int, q: int|
            0 <= p < q < plans_below(kind, n).len() ==> plans_below(kind, n)[p] != plans_below(
                kind,
                n,
            )[q],
    decreases n,
{
    if n > 0 {
        let m = (n - 1) as nat;
        lemma_plans_below_facts(kind, m);
        let prev = plans_below(kind, m);
        if valid_at(kind, m) {
            let s = candidate_at(kind, m)->Some_0;
            let cur = prev.push(s);
            assert(plans_below(kind, n) == cur);
            assert forall|p: int| 0 <= p < cur.len() implies exists|r: nat|
                r < n && candidate_at(kind, r) == Some(#[trigger] cur[p]) by {
                if p < prev.len() {
                    assert(cur[p] == prev[p]);
                    let r = choose|r: nat| r < m && candidate_at(kind, r) == Some(prev[p]);
                    assert(r < n && candidate_at(kind, r) == Some(cur[p]));
                } else {
                    assert(candidate_at(kind, m) == Some(cur[p]));
                }
            }
            assert forall|p: int, q: int| 0 <= p < q < cur.len() implies cur[p] != cur[q] by {
                if q == prev.len() {
                    assert(cur[p] == prev[p]);
                    let r = choose|r: nat| r < m && candidate_at(kind, r) == Some(prev[p]);
                    if cur[p] == cur[q] {
                        lemma_candidate_injective(kind, r, m);
                    }
                } else {
                    assert(cur[p] == prev[p]);
                    assert(cur[q] == prev[q]);
                }
            }
            assert forall|p: int| 0 <= p < cur.len() implies plan_is_valid(kind, #[trigger] cur[p]) by {
                if p < prev.len() {
                    assert(cur[p] == prev[p]);
                }
            }
        }
    }
}

/// Every enumerated plan obeys the validity rules (scalar code only with the
/// scalar loop and vector code never with it, narrower tails only on AVX2,
/// early exit only for `k18_all_equal` and never in scalar code, `Psadbw` only
/// for `k43_sum_ascii`, `MovemaskPopcount` never for it), and no two plans are
/// the same combination or share an id.
pub proof fn law_enumerated_plans_valid_and_distinct(kernel: Seq<char>, plans: Seq<CandidatePlan>)
    requires
        plans_match(plans, kernel, 108),
    ensures
        forall|p: int|
            0 <= p < plans.len() ==> plan_is_valid(kernel_kind(kernel), shape_of(#[trigger] plans[p])),
        forall|p: int, q: int|
            0 <= p < q < plans.len() ==> shape_of(plans[p]) != shape_of(plans[q]) && plans[p].id
                != plans[q].id,
{
    let kind = kernel_kind(kernel);
    lemma_plans_below_facts(kind, 108);
    assert forall|p: int| 0 <= p < plans.len() implies plan_is_valid(kind, shape_of(#[trigger] plans[p])) by {
        assert(shape_of(plans[p]) == plans_below(kind, 108)[p]);
    }
    assert forall|p: int, q: int| 0 <= p < q < plans.len() implies shape_of(plans[p]) != shape_of(
        plans[q],
    ) && plans[p].id != plans[q].id by {
        assert(shape_of(plans[p]) == plans_below(kind, 108)[p]);
        assert(shape_of(plans[q]) == plans_below(kind, 108)[q]);
    }
}

/// The plan the deterministic pipeline (Engine 0) picks for each of the
/// three known kernels: AVX2, unroll 1, narrower-vector tail; movemask +
/// popcount with early exit for `k18_all_equal`, psadbw for `k43_sum_ascii`,
/// movemask + popcount for `k50_count_masked`.
pub open spec fn engine0_shape(kind: KernelKind) -> PlanShape {
    PlanShape {
        isa: ISA::AVX2,
        reduction: if kind == KernelKind::SumAscii {
            ReductionStrategy::Psadbw
        } else {
            ReductionStrategy::MovemaskPopcount
        },
        unroll: UnrollFactor::U1,
        tail: TailStrategy::NarrowerVector,
        control: if kind == KernelKind::AllEqual {
            ControlFlow::EarlyExit
        } else {
            ControlFlow::FullReduction
        },
    }
}

/// The deterministic selection (Engine 0): what the pipeline picks for a
/// known kernel. The kernel must be one of the three known kernels.
pub fn engine0_selection(kernel: &str) -> (plan: CandidatePlan)
    requires
        kernel_kind(kernel@) != KernelKind::Other,
    ensures
        plan.id == 0,
        plan.kernel@ == kernel@,
        shape_of(plan) == engine0_shape(kernel_kind(kernel@)),
{
    let kind = classify_kernel(kernel);
    let reduction = if kind == KernelKind::SumAscii {
        ReductionStrategy::Psadbw
    } else {
        ReductionStrategy::MovemaskPopcount
    };
    let control = if kind == KernelKind::AllEqual {
        ControlFlow::EarlyExit
    } else {
        ControlFlow::FullReduction
    };
    CandidatePlan {
        id: 0,
        kernel: String::from_str(kernel),
        isa: ISA::AVX2,
        reduction,
        unroll: UnrollFactor::U1,
        tail: TailStrategy::NarrowerVector,
        control,
    }
}

proof fn lemma_plans_below_complete(kind: KernelKind, n: nat, r: nat)
    requires
        r < n,
        valid_at(kind, r),
    ensures
        plans_below(kind, n).contains(candidate_at(kind, r)->Some_0),
    decreases n,
{
    let m = (n - 1) as nat;
    if r < m {
        lemma_plans_below_complete(kind, m, r);
        let prev = plans_below(kind, m);
        let p = choose|p: int| 0 <= p < prev.len() && prev[p] == candidate_at(kind, r)->Some_0;
        if valid_at(kind, m) {
            assert(plans_below(kind, n)[p] == prev[p]);
        }
    } else {
        assert(plans_below(kind, n).last() == candidate_at(kind, r)->Some_0);
    }
}

/// Completeness of the enumeration: every valid combination of a kernel's
/// ISA, reduction, unroll, tail and control options is among its enumerated
/// plans.
pub proof fn law_enumeration_complete(kernel: Seq<char>, plans: Seq<CandidatePlan>, s: PlanShape)
    requires
        plans_match(plans, kernel, 108),
        isa_options(kernel_kind(kernel)).contains(s.isa),
        reduction_options(kernel_kind(kernel)).contains(s.reduction),
        unroll_options().contains(s.unroll),
        tail_options().contains(s.tail),
        control_options(kernel_kind(kernel)).contains(s.control),
        plan_is_valid(kernel_kind(kernel), s),
    ensures
        exists|p: int| 0 <= p < plans.len() && shape_of(#[trigger] plans[p]) == s,
{
    let kind = kernel_kind(kernel);
    let i = choose|i: int| 0 <= i < isa_options(kind).len() && isa_options(kind)[i] == s.isa;
    let j = choose|j: int|
        0 <= j < reduction_options(kind).len() && reduction_options(kind)[j] == s.reduction;
    let k = choose|k: int| 0 <= k < unroll_options().len() && unroll_options()[k] == s.unroll;
    let t = choose|t: int| 0 <= t < tail_options().len() && tail_options()[t] == s.tail;
    let c = choose|c: int|
        0 <= c < control_options(kind).len() && control_options(kind)[c] == s.control;
    lemma_rank(i as nat, j as nat, k as nat, t as nat, c as nat);
    let r = (36 * i + 12 * j + 4 * k + 2 * t + c) as nat;
    assert(candidate_at(kind, r) == Some(s));
    lemma_plans_below_complete(kind, 108, r);
    let p = choose|p: int|
        0 <= p < plans_below(kind, 108).len() && plans_below(kind, 108)[p] == s;
    assert(shape_of(plans[p]) == s);
}

/// Engine 0's pick for a known kernel is one of that kernel's enumerated
/// plans.
pub proof fn law_engine0_is_enumerated(kernel: Seq<char>, plans: Seq<CandidatePlan>)
    requires
        kernel_kind(kernel) != KernelKind::Other,
        plans_match(plans, kernel, 108),
    ensures
        exists|p: int| 0 <= p < plans.len() && shape_of(#[trigger] plans[p]) == engine0_shape(
            kernel_kind(kernel),
        ),
{
    let kind = kernel_kind(kernel);
    let s = engine0_shape(kind);
    assert(isa_options(kind)[2] == s.isa);
    assert(reduction_options(kind)[2] == s.reduction);
    assert(unroll_options()[0] == s.unroll);
    assert(tail_options()[1] == s.tail);
    if kind == KernelKind::AllEqual {
        assert(control_options(kind)[1] == s.control);
    } else {
        assert(control_options(kind)[0] == s.control);
    }
    law_enumeration_complete(kernel, plans, s);
}

// ── C emission ─────────────────────────────────────────────────────────

/// `"256"` for AVX2 registers, `"128"` for SSE2 registers.
pub open spec fn reg_bits(wide: bool) -> Seq<char> {
    if wide { "256"@ } else { "128"@ }
}

pub open spec fn load_fn(wide: bool) -> Seq<char> {
    if wide { "_mm256_loadu_si256"@ } else { "_mm_loadu_si128"@ }
}

pub open spec fn eq_intrinsic(wide: bool) -> Seq<char> {
    if wide { "_mm256_cmpeq_epi8"@ } else { "_mm_cmpeq_epi8"@ }
}

pub open spec fn movemask_fn(wide: bool) -> Seq<char> {
    if wide { "_mm256_movemask_epi8"@ } else { "_mm_movemask_epi8"@ }
}

pub open spec fn set1_fn(wide: bool) -> Seq<char> {
    if wide { "_mm256_set1_epi8"@ } else { "_mm_set1_epi8"@ }
}

pub open spec fn full_mask(wide: bool) -> Seq<char> {
    if wide { "-1"@ } else { "0xFFFF"@ }
}

pub open spec fn and_fn(wide: bool) -> Seq<char> {
    if wide { "_mm256_and_si256"@ } else { "_mm_and_si128"@ }
}

fn exec_reg_bits(wide: bool) -> (s: &'static str)
    ensures
        s@ == reg_bits(wide),
{
    if wide { "256" } else { "128" }
}

fn exec_load_fn(wide: bool) -> (s: &'static str)
    ensures
        s@ == load_fn(wide),
{
    if wide { "_mm256_loadu_si256" } else { "_mm_loadu_si128" }
}

fn exec_eq_intrinsic(wide: bool) -> (s: &'static str)
    ensures
        s@ == eq_intrinsic(wide),
{
    if wide { "_mm256_cmpeq_epi8" } else { "_mm_cmpeq_epi8" }
}

fn exec_movemask_fn(wide: bool) -> (s: &'static str)
    ensures
        s@ == movemask_fn(wide),
{
    if wide { "_mm256_movemask_epi8" } else { "_mm_movemask_epi8" }
}

fn exec_set1_fn(wide: bool) -> (s: &'static str)
    ensures
        s@ == set1_fn(wide),
{
    if wide { "_mm256_set1_epi8" } else { "_mm_set1_epi8" }
}

fn exec_full_mask(wide: bool) -> (s: &'static str)
    ensures
        s@ == full_mask(wide),
{
    if wide { "-1" } else { "0xFFFF" }
}

fn exec_and_fn(wide: bool) -> (s: &'static str)
    ensures
        s@ == and_fn(wide),
{
    if wide { "_mm256_and_si256" } else { "_mm_and_si128" }
}

/// `"        __m<bits>i chunk<u> = <load>((__m<bits>i *)(<buf> + i + <off>));\n"`
#[verifier::opaque]
pub open spec fn chunk_load_line(wide: bool, u: nat, buf: Seq<char>, off: nat) -> Seq<char> {
    "        __m"@ + reg_bits(wide) + "i chunk"@ + decimal(u) + " = "@ + load_fn(wide) + "((__m"@
        + reg_bits(wide) + "i *)("@ + buf + " + i + "@ + decimal(off) + "));\n"@
}

fn emit_chunk_load_line(wide: bool, u: usize, buf: &str, off: usize) -> (s: String)
    ensures
        s@ == chunk_load_line(wide, u as nat, buf@, off as nat),
{
    proof {
        reveal(chunk_load_line);
    }
    let mut s = owned("        __m");
    s.append(exec_reg_bits(wide));
    s.append("i chunk");
    push_usize(&mut s, u);
    s.append(" = ");
    s.append(exec_load_fn(wide));
    s.append("((__m");
    s.append(exec_reg_bits(wide));
    s.append("i *)(");
    s.append(buf);
    s.append(" + i + ");
    push_usize(&mut s, off);
    s.append("));\n");
    s
}

/// `"    while (i + <step> <= <len>) {\n"`
pub open spec fn while_step_line(step: nat, len: Seq<char>) -> Seq<char> {
    "    while (i + "@ + decimal(step) + " <= "@ + len + ") {\n"@
}

fn emit_while_step_line(step: usize, len: &str) -> (s: String)
    ensures
        s@ == while_step_line(step as nat, len@),
{
    let mut s = owned("    while (i + ");
    push_usize(&mut s, step);
    s.append(" <= ");
    s.append(len);
    s.append(") {\n");
    s
}

/// `"        i += <step>;\n    }\n"`
pub open spec fn loop_close(step: nat) -> Seq<char> {
    "        i += "@ + decimal(step) + ";\n"@ + "    }\n"@
}

fn emit_loop_close(step: usize) -> (s: String)
    ensures
        s@ == loop_close(step as nat),
{
    let mut s = owned("        i += ");
    push_usize(&mut s, step);
    s.append(";\n");
    s.append("    }\n");
    s
}

// k18_all_equal ----------------------------------------------------------

/// One unrolled chunk of the all-equal vector loop.
#[verifier::opaque]
pub open spec fn k18_chunk(wide: bool, u: nat, buf: Seq<char>, vw: nat, early: bool) -> Seq<char> {
    chunk_load_line(wide, u, buf, u * vw) + "        __m"@ + reg_bits(wide) + "i cmp"@ + decimal(u)
        + " = "@ + eq_intrinsic(wide) + "(chunk"@ + decimal(u) + ", val_v);\n"@ + "        int mask"@
        + decimal(u) + " = "@ + movemask_fn(wide) + "(cmp"@ + decimal(u) + ");\n"@
        + "        if (mask"@ + decimal(u) + " != "@ + full_mask(wide) + (if early {
        ") return 0;\n"@
    } else {
        ") all_match = 0;\n"@
    })
}

pub open spec fn k18_chunks(wide: bool, n: nat, buf: Seq<char>, vw: nat, early: bool) -> Seq<char>
    decreases n,
{
    if n == 0 {
        Seq::empty()
    } else {
        k18_chunks(wide, (n - 1) as nat, buf, vw, early) + k18_chunk(
            wide,
            (n - 1) as nat,
            buf,
            vw,
            early,
        )
    }
}

fn emit_k18_chunk(wide: bool, u: usize, buf: &str, vw: usize, early: bool) -> (s: String)
    requires
        u * vw <= usize::MAX,
    ensures
        s@ == k18_chunk(wide, u as nat, buf@, vw as nat, early),
{
    proof {
        reveal(k18_chunk);
    }
    let mut s = emit_chunk_load_line(wide, u, buf, u * vw);
    s.append("        __m");
    s.append(exec_reg_bits(wide));
    s.append("i cmp");
    push_usize(&mut s, u);
    s.append(" = ");
    s.append(exec_eq_intrinsic(wide));
    s.append("(chunk");
    push_usize(&mut s, u);
    s.append(", val_v);\n");
    s.append("        int mask");
    push_usize(&mut s, u);
    s.append(" = ");
    s.append(exec_movemask_fn(wide));
    s.append("(cmp");
    push_usize(&mut s, u);
    s.append(");\n");
    s.append("        if (mask");
    push_usize(&mut s, u);
    s.append(" != ");
    s.append(exec_full_mask(wide));
    if early {
        s.append(") return 0;\n");
    } else {
        s.append(") all_match = 0;\n");
    }
    s
}

fn emit_k18_chunks(wide: bool, n: usize, buf: &str, vw: usize, early: bool) -> (s: String)
    requires
        n <= 4,
        vw <= 32,
    ensures
        s@ == k18_chunks(wide, n as nat, buf@, vw as nat, early),
{
    let mut s = String::new();
    let mut u: usize = 0;
    while u < n
        invariant
            u <= n,
            n <= 4,
            vw <= 32,
            s@ == k18_chunks(wide, u as nat, buf@, vw as nat, early),
        decreases n - u,
    {
        assert(u * vw <= 4 * 32) by (nonlinear_arith)
            requires
                u < 4,
                vw <= 32,
        ;
        let c = emit_k18_chunk(wide, u, buf, vw, early);
        s.append(c.as_str());
        u += 1;
    }
    s
}

/// The main-loop body of the all-equal vector plan: early exit per chunk,
/// or a full reduction of the chunks with one check at the end.
pub open spec fn k18_loop_body(wide: bool, n: nat, buf: Seq<char>, vw: nat, early: bool) -> Seq<
    char,
> {
    if early {
        k18_chunks(wide, n, buf, vw, true)
    } else {
        "        int all_match = 1;\n"@ + k18_chunks(wide, n, buf, vw, false)
            + "        if (!all_match) return 0;\n"@
    }
}

fn emit_k18_loop_body(wide: bool, n: usize, buf: &str, vw: usize, early: bool) -> (s: String)
    requires
        n <= 4,
        vw <= 32,
    ensures
        s@ == k18_loop_body(wide, n as nat, buf@, vw as nat, early),
{
    if early {
        emit_k18_chunks(wide, n, buf, vw, true)
    } else {
        let mut s = owned("        int all_match = 1;\n");
        let c = emit_k18_chunks(wide, n, buf, vw, false);
        s.append(c.as_str());
        s.append("        if (!all_match) return 0;\n");
        s
    }
}

/// The 16-byte SSE2 tail of an AVX2 all-equal plan.
pub open spec fn k18_narrow_tail(buf: Seq<char>, len: Seq<char>) -> Seq<char> {
    "    while (i + 16 <= "@ + len + ") {\n"@ + "        __m128i chunk = _mm_loadu_si128((__m128i *)("@
        + buf + " + i));\n"@
        + "        __m128i cmp = _mm_cmpeq_epi8(chunk, _mm_set1_epi8((char)val));\n"@
        + "        int mask = _mm_movemask_epi8(cmp);\n"@ + "        if (mask != 0xFFFF) return 0;\n"@
        + "        i += 16;\n"@ + "    }\n"@
}

/// Whether a plan gets the 16-byte narrower-vector tail.
pub open spec fn has_narrow_tail(plan: CandidatePlan) -> bool {
    plan.tail == TailStrategy::NarrowerVector && plan.isa == ISA::AVX2
}

pub open spec fn k18_tail(plan: CandidatePlan, buf: Seq<char>, len: Seq<char>) -> Seq<char> {
    if has_narrow_tail(plan) {
        k18_narrow_tail(buf, len)
    } else {
        Seq::empty()
    }
}

fn emit_k18_tail(plan: &CandidatePlan, buf: &str, len: &str) -> (s: String)
    ensures
        s@ == k18_tail(*plan, buf@, len@),
{
    if plan.tail == TailStrategy::NarrowerVector && plan.isa.width() == 32 {
        let mut s = owned("    while (i + 16 <= ");
        s.append(len);
        s.append(") {\n");
        s.append("        __m128i chunk = _mm_loadu_si128((__m128i *)(");
        s.append(buf);
        s.append(" + i));\n");
        s.append("        __m128i cmp = _mm_cmpeq_epi8(chunk, _mm_set1_epi8((char)val));\n");
        s.append("        int mask = _mm_movemask_epi8(cmp);\n");
        s.append("        if (mask != 0xFFFF) return 0;\n");
        s.append("        i += 16;\n");
        s.append("    }\n");
        s
    } else {
        String::new()
    }
}

/// Body of the C function for a `k18_all_equal` plan: returns 1 when every
/// byte of `buf[0..len)` equals `val`, 0 otherwise.
pub open spec fn k18_text(plan: CandidatePlan, buf: Seq<char>, len: Seq<char>) -> Seq<char> {
    if plan.isa == ISA::Scalar {
        "    for (uint64_t i = 0; i < n; i++) {\n"@ + "        if ("@ + buf + "[i] != val) return 0;\n"@
            + "    }\n"@ + "    return 1;\n"@
    } else {
        let wide = plan.isa == ISA::AVX2;
        let vw = isa_width(plan.isa);
        let step = vw * unroll_count(plan.unroll);
        "    __m"@ + reg_bits(wide) + "i val_v = "@ + set1_fn(wide) + "((char)val);\n"@
            + "    uint64_t i = 0;\n"@ + while_step_line(step, len) + k18_loop_body(
            wide,
            unroll_count(plan.unroll),
            buf,
            vw,
            plan.control == ControlFlow::EarlyExit,
        ) + loop_close(step) + k18_tail(plan, buf, len) + "    while (i < "@ + len + ") {\n"@
            + "        if ("@ + buf + "[i] != val) return 0;\n"@ + "        i++;\n"@ + "    }\n"@
            + "    return 1;\n"@
    }
}

fn emit_k18(out: &mut String, plan: &CandidatePlan, buf: &str, len: &str)
    ensures
        final(out)@ == old(out)@ + k18_text(*plan, buf@, len@),
{
    let vw = plan.isa.width();
    let unroll = plan.unroll.count();
    if plan.isa == ISA::Scalar {
        let mut s = owned("    for (uint64_t i = 0; i < n; i++) {\n");
        s.append("        if (");
        s.append(buf);
        s.append("[i] != val) return 0;\n");
        s.append("    }\n");
        s.append("    return 1;\n");
        out.append(s.as_str());
        return;
    }
    let wide = vw == 32;
    let mut s = owned("    __m");
    s.append(exec_reg_bits(wide));
    s.append("i val_v = ");
    s.append(exec_set1_fn(wide));
    s.append("((char)val);\n");
    s.append("    uint64_t i = 0;\n");
    let step = vw * unroll;
    let w = emit_while_step_line(step, len);
    s.append(w.as_str());
    let body = emit_k18_loop_body(wide, unroll, buf, vw, plan.control == ControlFlow::EarlyExit);
    s.append(body.as_str());
    let close = emit_loop_close(step);
    s.append(close.as_str());
    let tail = emit_k18_tail(plan, buf, len);
    s.append(tail.as_str());
    s.append("    while (i < ");
    s.append(len);
    s.append(") {\n");
    s.append("        if (");
    s.append(buf);
    s.append("[i] != val) return 0;\n");
    s.append("        i++;\n");
    s.append("    }\n");
    s.append("    return 1;\n");
    out.append(s.as_str());
}

// k43_sum_ascii ----------------------------------------------------------

/// One unrolled psadbw chunk of the sum plan.
#[verifier::opaque]
pub open spec fn k43_sad_chunk(wide: bool, u: nat, buf: Seq<char>) -> Seq<char> {
    let vw: nat = if wide { 32 } else { 16 };
    let p = if wide { "_mm256"@ } else { "_mm"@ };
    "        __m"@ + reg_bits(wide) + "i chunk"@ + decimal(u) + " = "@ + load_fn(wide) + "((__m"@
        + reg_bits(wide) + "i *)("@ + buf + " + i + "@ + decimal(u * vw) + "));\n"@ + "        __m"@
        + reg_bits(wide) + "i sums"@ + decimal(u) + " = "@ + p + "_sad_epu8(chunk"@ + decimal(u)
        + ", zero);\n"@ + "        acc = "@ + p + "_add_epi64(acc, sums"@ + decimal(u) + ");\n"@
}

pub open spec fn k43_sad_chunks(wide: bool, n: nat, buf: Seq<char>) -> Seq<char>
    decreases n,
{
    if n == 0 {
        Seq::empty()
    } else {
        k43_sad_chunks(wide, (n - 1) as nat, buf) + k43_sad_chunk(wide, (n - 1) as nat, buf)
    }
}

fn emit_k43_sad_chunk(wide: bool, u: usize, buf: &str) -> (s: String)
    requires
        u < 4,
    ensures
        s@ == k43_sad_chunk(wide, u as nat, buf@),
{
    proof {
        reveal(k43_sad_chunk);
    }
    let vw: usize = if wide { 32 } else { 16 };
    let p = if wide { "_mm256" } else { "_mm" };
    let mut s = owned("        __m");
    s.append(exec_reg_bits(wide));
    s.append("i chunk");
    push_usize(&mut s, u);
    s.append(" = ");
    s.append(exec_load_fn(wide));
    s.append("((__m");
    s.append(exec_reg_bits(wide));
    s.append("i *)(");
    s.append(buf);
    s.append(" + i + ");
    push_usize(&mut s, u * vw);
    s.append("));\n");
    s.append("        __m");
    s.append(exec_reg_bits(wide));
    s.append("i sums");
    push_usize(&mut s, u);
    s.append(" = ");
    s.append(p);
    s.append("_sad_epu8(chunk");
    push_usize(&mut s, u);
    s.append(", zero);\n");
    s.append("        acc = ");
    s.append(p);
    s.append("_add_epi64(acc, sums");
    push_usize(&mut s, u);
    s.append(");\n");
    s
}

fn emit_k43_sad_chunks(wide: bool, n: usize, buf: &str) -> (s: String)
    requires
        n <= 4,
    ensures
        s@ == k43_sad_chunks(wide, n as nat, buf@),
{
    let mut s = String::new();
    let mut u: usize = 0;
    while u < n
        invariant
            u <= n,
            n <= 4,
            s@ == k43_sad_chunks(wide, u as nat, buf@),
        decreases n - u,
    {
        let c = emit_k43_sad_chunk(wide, u, buf);
        s.append(c.as_str());
        u += 1;
    }
    s
}

/// One unrolled chunk of the lane-accumulation sum plan (four bytes widened
/// to 64-bit lanes).
#[verifier::opaque]
pub open spec fn k43_lane_chunk(u: nat, buf: Seq<char>) -> Seq<char> {
    "        __m256i chunk"@ + decimal(u)
        + " = _mm256_cvtepu8_epi64(_mm_cvtsi32_si128(*(const uint32_t *)("@ + buf + " + i + "@
        + decimal(u * 4) + ")));\n"@ + "        sum += (uint64_t)_mm256_extract_epi64(chunk"@
        + decimal(u) + ", 0) + (uint64_t)_mm256_extract_epi64(chunk"@ + decimal(u)
        + ", 1) + (uint64_t)_mm256_extract_epi64(chunk"@ + decimal(u)
        + ", 2) + (uint64_t)_mm256_extract_epi64(chunk"@ + decimal(u) + ", 3);\n"@
}

pub open spec fn k43_lane_chunks(n: nat, buf: Seq<char>) -> Seq<char>
    decreases n,
{
    if n == 0 {
        Seq::empty()
    } else {
        k43_lane_chunks((n - 1) as nat, buf) + k43_lane_chunk((n - 1) as nat, buf)
    }
}

fn emit_k43_lane_chunk(u: usize, buf: &str) -> (s: String)
    requires
        u < 4,
    ensures
        s@ == k43_lane_chunk(u as nat, buf@),
{
    proof {
        reveal(k43_lane_chunk);
    }
    let mut s = owned("        __m256i chunk");
    push_usize(&mut s, u);
    s.append(" = _mm256_cvtepu8_epi64(_mm_cvtsi32_si128(*(const uint32_t *)(");
    s.append(buf);
    s.append(" + i + ");
    push_usize(&mut s, u * 4);
    s.append(")));\n");
    s.append("        sum += (uint64_t)_mm256_extract_epi64(chunk");
    push_usize(&mut s, u);
    s.append(", 0) + (uint64_t)_mm256_extract_epi64(chunk");
    push_usize(&mut s, u);
    s.append(", 1) + (uint64_t)_mm256_extract_epi64(chunk");
    push_usize(&mut s, u);
    s.append(", 2) + (uint64_t)_mm256_extract_epi64(chunk");
    push_usize(&mut s, u);
    s.append(", 3);\n");
    s
}

fn emit_k43_lane_chunks(n: usize, buf: &str) -> (s: String)
    requires
        n <= 4,
    ensures
        s@ == k43_lane_chunks(n as nat, buf@),
{
    let mut s = String::new();
    let mut u: usize = 0;
    while u < n
        invariant
            u <= n,
            n <= 4,
            s@ == k43_lane_chunks(u as nat, buf@),
        decreases n - u,
    {
        let c = emit_k43_lane_chunk(u, buf);
        s.append(c.as_str());
        u += 1;
    }
    s
}

/// Main loop and accumulator extraction of a vector sum plan.
pub open spec fn k43_main(plan: CandidatePlan, buf: Seq<char>, len: Seq<char>) -> Seq<char> {
    let n = unroll_count(plan.unroll);
    if plan.reduction == ReductionStrategy::Psadbw {
        if plan.isa == ISA::AVX2 {
            "    __m256i zero = _mm256_setzero_si256();\n"@ + "    __m256i acc = zero;\n"@
                + "    uint64_t i = 0;\n"@ + while_step_line(32 * n, len) + k43_sad_chunks(true, n, buf)
                + loop_close(32 * n) + "    __m128i lo = _mm256_castsi256_si128(acc);\n"@
                + "    __m128i hi = _mm256_extracti128_si256(acc, 1);\n"@
                + "    uint64_t sum = (uint64_t)_mm_cvtsi128_si64(lo)\n"@
                + "                 + (uint64_t)_mm_extract_epi64(lo, 1)\n"@
                + "                 + (uint64_t)_mm_cvtsi128_si64(hi)\n"@
                + "                 + (uint64_t)_mm_extract_epi64(hi, 1);\n"@
        } else {
            "    __m128i zero = _mm_setzero_si128();\n"@ + "    __m128i acc = zero;\n"@
                + "    uint64_t i = 0;\n"@ + while_step_line(16 * n, len) + k43_sad_chunks(false, n, buf)
                + loop_close(16 * n)
                + "    uint64_t sum = (uint64_t)_mm_cvtsi128_si64(acc) + (uint64_t)_mm_extract_epi64(acc, 1);\n"@
        }
    } else {
        "    uint64_t sum = 0;\n"@ + "    uint64_t i = 0;\n"@ + while_step_line(4 * n, len)
            + k43_lane_chunks(n, buf) + loop_close(4 * n)
    }
}

fn emit_k43_main(plan: &CandidatePlan, buf: &str, len: &str) -> (s: String)
    requires
        plan.isa != ISA::Scalar,
    ensures
        s@ == k43_main(*plan, buf@, len@),
{
    let vw = plan.isa.width();
    let unroll = plan.unroll.count();
    if plan.reduction == ReductionStrategy::Psadbw {
        if vw == 32 {
            let mut s = owned("    __m256i zero = _mm256_setzero_si256();\n");
            s.append("    __m256i acc = zero;\n");
            s.append("    uint64_t i = 0;\n");
            let step = 32 * unroll;
            let w = emit_while_step_line(step, len);
            s.append(w.as_str());
            let c = emit_k43_sad_chunks(true, unroll, buf);
            s.append(c.as_str());
            let close = emit_loop_close(step);
            s.append(close.as_str());
            s.append("    __m128i lo = _mm256_castsi256_si128(acc);\n");
            s.append("    __m128i hi = _mm256_extracti128_si256(acc, 1);\n");
            s.append("    uint64_t sum = (uint64_t)_mm_cvtsi128_si64(lo)\n");
            s.append("                 + (uint64_t)_mm_extract_epi64(lo, 1)\n");
            s.append("                 + (uint64_t)_mm_cvtsi128_si64(hi)\n");
            s.append("                 + (uint64_t)_mm_extract_epi64(hi, 1);\n");
            s
        } else {
            let mut s = owned("    __m128i zero = _mm_setzero_si128();\n");
            s.append("    __m128i acc = zero;\n");
            s.append("    uint64_t i = 0;\n");
            let step = 16 * unroll;
            let w = emit_while_step_line(step, len);
            s.append(w.as_str());
            let c = emit_k43_sad_chunks(false, unroll, buf);
            s.append(c.as_str());
            let close = emit_loop_close(step);
            s.append(close.as_str());
            s.append(
                "    uint64_t sum = (uint64_t)_mm_cvtsi128_si64(acc) + (uint64_t)_mm_extract_epi64(acc, 1);\n",
            );
            s
        }
    } else {
        let mut s = owned("    uint64_t sum = 0;\n");
        s.append("    uint64_t i = 0;\n");
        let step = 4 * unroll;
        let w = emit_while_step_line(step, len);
        s.append(w.as_str());
        let c = emit_k43_lane_chunks(unroll, buf);
        s.append(c.as_str());
        let close = emit_loop_close(step);
        s.append(close.as_str());
        s
    }
}

pub open spec fn k43_tail(plan: CandidatePlan, buf: Seq<char>, len: Seq<char>) -> Seq<char> {
    if has_narrow_tail(plan) {
        "    while (i + 16 <= "@ + len + ") {\n"@ + "        __m128i chunk = _mm_loadu_si128((__m128i *)("@
            + buf + " + i));\n"@
            + "        __m128i sums = _mm_sad_epu8(chunk, _mm_setzero_si128());\n"@
            + "        sum += (uint64_t)_mm_cvtsi128_si64(sums) + (uint64_t)_mm_extract_epi64(sums, 1);\n"@
            + "        i += 16;\n"@ + "    }\n"@
    } else {
        Seq::empty()
    }
}

fn emit_k43_tail(plan: &CandidatePlan, buf: &str, len: &str) -> (s: String)
    ensures
        s@ == k43_tail(*plan, buf@, len@),
{
    if plan.tail == TailStrategy::NarrowerVector && plan.isa.width() == 32 {
        let mut s = owned("    while (i + 16 <= ");
        s.append(len);
        s.append(") {\n");
        s.append("        __m128i chunk = _mm_loadu_si128((__m128i *)(");
        s.append(buf);
        s.append(" + i));\n");
        s.append("        __m128i sums = _mm_sad_epu8(chunk, _mm_setzero_si128());\n");
        s.append(
            "        sum += (uint64_t)_mm_cvtsi128_si64(sums) + (uint64_t)_mm_extract_epi64(sums, 1);\n",
        );
        s.append("        i += 16;\n");
        s.append("    }\n");
        s
    } else {
        String::new()
    }
}

/// Body of the C function for a `k43_sum_ascii` plan: returns the sum of the
/// bytes of `buf[0..len)`.
pub open spec fn k43_text(plan: CandidatePlan, buf: Seq<char>, len: Seq<char>) -> Seq<char> {
    if plan.isa == ISA::Scalar {
        "    uint64_t sum = 0;\n"@ + "    for (uint64_t i = 0; i < n; i++) {\n"@ + "        sum += "@
            + buf + "[i];\n"@ + "    }\n"@ + "    return sum;\n"@
    } else {
        k43_main(plan, buf, len) + k43_tail(plan, buf, len) + "    while (i < "@ + len + ") {\n"@
            + "        sum += "@ + buf + "[i];\n"@ + "        i++;\n"@ + "    }\n"@
            + "    return sum;\n"@
    }
}

fn emit_k43(out: &mut String, plan: &CandidatePlan, buf: &str, len: &str)
    ensures
        final(out)@ == old(out)@ + k43_text(*plan, buf@, len@),
{
    if plan.isa == ISA::Scalar {
        let mut s = owned("    uint64_t sum = 0;\n");
        s.append("    for (uint64_t i = 0; i < n; i++) {\n");
        s.append("        sum += ");
        s.append(buf);
        s.append("[i];\n");
        s.append("    }\n");
        s.append("    return sum;\n");
        out.append(s.as_str());
        return;
    }
    let mut s = emit_k43_main(plan, buf, len);
    let tail = emit_k43_tail(plan, buf, len);
    s.append(tail.as_str());
    s.append("    while (i < ");
    s.append(len);
    s.append(") {\n");
    s.append("        sum += ");
    s.append(buf);
    s.append("[i];\n");
    s.append("        i++;\n");
    s.append("    }\n");
    s.append("    return sum;\n");
    out.append(s.as_str());
}

// k50_count_masked -------------------------------------------------------

/// Load, mask and compare lines of one unrolled masked-count chunk.
#[verifier::opaque]
pub open spec fn k50_compare_lines(wide: bool, u: nat, buf: Seq<char>, vw: nat) -> Seq<char> {
    chunk_load_line(wide, u, buf, u * vw) + "        __m"@ + reg_bits(wide) + "i masked"@ + decimal(u)
        + " = "@ + and_fn(wide) + "(chunk"@ + decimal(u) + ", mask_v);\n"@ + "        __m"@
        + reg_bits(wide) + "i cmp"@ + decimal(u) + " = "@ + eq_intrinsic(wide) + "(masked"@ + decimal(
        u,
    ) + ", target_v);\n"@
}

fn emit_k50_compare_lines(wide: bool, u: usize, buf: &str, vw: usize) -> (s: String)
    requires
        u * vw <= usize::MAX,
    ensures
        s@ == k50_compare_lines(wide, u as nat, buf@, vw as nat),
{
    proof {
        reveal(k50_compare_lines);
    }
    let mut s = emit_chunk_load_line(wide, u, buf, u * vw);
    s.append("        __m");
    s.append(exec_reg_bits(wide));
    s.append("i masked");
    push_usize(&mut s, u);
    s.append(" = ");
    s.append(exec_and_fn(wide));
    s.append("(chunk");
    push_usize(&mut s, u);
    s.append(", mask_v);\n");
    s.append("        __m");
    s.append(exec_reg_bits(wide));
    s.append("i cmp");
    push_usize(&mut s, u);
    s.append(" = ");
    s.append(exec_eq_intrinsic(wide));
    s.append("(masked");
    push_usize(&mut s, u);
    s.append(", target_v);\n");
    s
}

/// One unrolled chunk of the masked count: movemask + popcount, or
/// lane accumulation through psadbw.
#[verifier::opaque]
pub open spec fn k50_chunk(wide: bool, u: nat, buf: Seq<char>, vw: nat, popcnt: bool) -> Seq<char> {
    if popcnt {
        k50_compare_lines(wide, u, buf, vw) + "        int bits"@ + decimal(u) + " = "@ + movemask_fn(
            wide,
        ) + "(cmp"@ + decimal(u) + ");\n"@ + "        count += __builtin_popcount(bits"@ + decimal(
            u,
        ) + ");\n"@
    } else {
        k50_compare_lines(wide, u, buf, vw) + "        __m"@ + reg_bits(wide) + "i bits"@ + decimal(u)
            + " = "@ + and_fn(wide) + "(cmp"@ + decimal(u) + ", ones);\n"@ + "        __m"@ + reg_bits(
            wide,
        ) + "i sums"@ + decimal(u) + " = _mm"@ + reg_bits(wide) + "_sad_epu8(bits"@ + decimal(u)
            + ", zero);\n"@ + "        acc = _mm"@ + reg_bits(wide) + "_add_epi64(acc, sums"@ + decimal(
            u,
        ) + ");\n"@
    }
}

pub open spec fn k50_chunks(wide: bool, n: nat, buf: Seq<char>, vw: nat, popcnt: bool) -> Seq<char>
    decreases n,
{
    if n == 0 {
        Seq::empty()
    } else {
        k50_chunks(wide, (n - 1) as nat, buf, vw, popcnt) + k50_chunk(
            wide,
            (n - 1) as nat,
            buf,
            vw,
            popcnt,
        )
    }
}

fn emit_k50_chunk(wide: bool, u: usize, buf: &str, vw: usize, popcnt: bool) -> (s: String)
    requires
        u * vw <= usize::MAX,
    ensures
        s@ == k50_chunk(wide, u as nat, buf@, vw as nat, popcnt),
{
    proof {
        reveal(k50_chunk);
    }
    let mut s = emit_k50_compare_lines(wide, u, buf, vw);
    if popcnt {
        s.append("        int bits");
        push_usize(&mut s, u);
        s.append(" = ");
        s.append(exec_movemask_fn(wide));
        s.append("(cmp");
        push_usize(&mut s, u);
        s.append(");\n");
        s.append("        count += __builtin_popcount(bits");
        push_usize(&mut s, u);
        s.append(");\n");
    } else {
        s.append("        __m");
        s.append(exec_reg_bits(wide));
        s.append("i bits");
        push_usize(&mut s, u);
        s.append(" = ");
        s.append(exec_and_fn(wide));
        s.append("(cmp");
        push_usize(&mut s, u);
        s.append(", ones);\n");
        s.append("        __m");
        s.append(exec_reg_bits(wide));
        s.append("i sums");
        push_usize(&mut s, u);
        s.append(" = _mm");
        s.append(exec_reg_bits(wide));
        s.append("_sad_epu8(bits");
        push_usize(&mut s, u);
        s.append(", zero);\n");
        s.append("        acc = _mm");
        s.append(exec_reg_bits(wide));
        s.append("_add_epi64(acc, sums");
        push_usize(&mut s, u);
        s.append(");\n");
    }
    s
}

fn emit_k50_chunks(wide: bool, n: usize, buf: &str, vw: usize, popcnt: bool) -> (s: String)
    requires
        n <= 4,
        vw <= 32,
    ensures
        s@ == k50_chunks(wide, n as nat, buf@, vw as nat, popcnt),
{
    let mut s = String::new();
    let mut u: usize = 0;
    while u < n
        invariant
            u <= n,
            n <= 4,
            vw <= 32,
            s@ == k50_chunks(wide, u as nat, buf@, vw as nat, popcnt),
        decreases n - u,
    {
        assert(u * vw <= 4 * 32) by (nonlinear_arith)
            requires
                u < 4,
                vw <= 32,
        ;
        let c = emit_k50_chunk(wide, u, buf, vw, popcnt);
        s.append(c.as_str());
        u += 1;
    }
    s
}

/// Main loop and accumulator extraction of a vector masked-count plan.
pub open spec fn k50_main(plan: CandidatePlan, buf: Seq<char>, len: Seq<char>) -> Seq<char> {
    let wide = plan.isa == ISA::AVX2;
    let vw = isa_width(plan.isa);
    let n = unroll_count(plan.unroll);
    let step = vw * n;
    let head = "    __m"@ + reg_bits(wide) + "i mask_v = "@ + set1_fn(wide) + "((char)mask);\n"@
        + "    __m"@ + reg_bits(wide) + "i target_v = "@ + set1_fn(wide) + "((char)target);\n"@;
    if plan.reduction == ReductionStrategy::MovemaskPopcount {
        head + "    uint64_t count = 0;\n"@ + "    uint64_t i = 0;\n"@ + while_step_line(step, len)
            + k50_chunks(wide, n, buf, vw, true) + loop_close(step)
    } else {
        head + "    __m256i zero = _mm256_setzero_si256();\n"@
            + "    __m256i ones = _mm256_set1_epi8(1);\n"@ + "    __m256i acc = zero;\n"@
            + "    uint64_t i = 0;\n"@ + while_step_line(step, len) + k50_chunks(wide, n, buf, vw, false)
            + loop_close(step) + (if wide {
            "    __m128i lo = _mm256_castsi256_si128(acc);\n"@
                + "    __m128i hi = _mm256_extracti128_si256(acc, 1);\n"@
                + "    uint64_t count = (uint64_t)_mm_cvtsi128_si64(lo)\n"@
                + "                     + (uint64_t)_mm_extract_epi64(lo, 1)\n"@
                + "                     + (uint64_t)_mm_cvtsi128_si64(hi)\n"@
                + "                     + (uint64_t)_mm_extract_epi64(hi, 1);\n"@
        } else {
            "    uint64_t count = (uint64_t)_mm_cvtsi128_si64(acc) + (uint64_t)_mm_extract_epi64(acc, 1);\n"@
        })
    }
}

fn emit_k50_extract(wide: bool) -> (s: String)
    ensures
        s@ == (if wide {
            "    __m128i lo = _mm256_castsi256_si128(acc);\n"@
                + "    __m128i hi = _mm256_extracti128_si256(acc, 1);\n"@
                + "    uint64_t count = (uint64_t)_mm_cvtsi128_si64(lo)\n"@
                + "                     + (uint64_t)_mm_extract_epi64(lo, 1)\n"@
                + "                     + (uint64_t)_mm_cvtsi128_si64(hi)\n"@
                + "                     + (uint64_t)_mm_extract_epi64(hi, 1);\n"@
        } else {
            "    uint64_t count = (uint64_t)_mm_cvtsi128_si64(acc) + (uint64_t)_mm_extract_epi64(acc, 1);\n"@
        }),
{
    if wide {
        let mut s = owned("    __m128i lo = _mm256_castsi256_si128(acc);\n");
        s.append("    __m128i hi = _mm256_extracti128_si256(acc, 1);\n");
        s.append("    uint64_t count = (uint64_t)_mm_cvtsi128_si64(lo)\n");
        s.append("                     + (uint64_t)_mm_extract_epi64(lo, 1)\n");
        s.append("                     + (uint64_t)_mm_cvtsi128_si64(hi)\n");
        s.append("                     + (uint64_t)_mm_extract_epi64(hi, 1);\n");
        s
    } else {
        owned(
            "    uint64_t count = (uint64_t)_mm_cvtsi128_si64(acc) + (uint64_t)_mm_extract_epi64(acc, 1);\n",
        )
    }
}

fn emit_k50_main(plan: &CandidatePlan, buf: &str, len: &str) -> (s: String)
    requires
        plan.isa != ISA::Scalar,
    ensures
        s@ == k50_main(*plan, buf@, len@),
{
    let vw = plan.isa.width();
    let unroll = plan.unroll.count();
    let wide = vw == 32;
    let mut s = owned("    __m");
    s.append(exec_reg_bits(wide));
    s.append("i mask_v = ");
    s.append(exec_set1_fn(wide));
    s.append("((char)mask);\n");
    s.append("    __m");
    s.append(exec_reg_bits(wide));
    s.append("i target_v = ");
    s.append(exec_set1_fn(wide));
    s.append("((char)target);\n");
    let step = vw * unroll;
    if plan.reduction == ReductionStrategy::MovemaskPopcount {
        s.append("    uint64_t count = 0;\n");
        s.append("    uint64_t i = 0;\n");
        let w = emit_while_step_line(step, len);
        s.append(w.as_str());
        let c = emit_k50_chunks(wide, unroll, buf, vw, true);
        s.append(c.as_str());
        let close = emit_loop_close(step);
        s.append(close.as_str());
    } else {
        s.append("    __m256i zero = _mm256_setzero_si256();\n");
        s.append("    __m256i ones = _mm256_set1_epi8(1);\n");
        s.append("    __m256i acc = zero;\n");
        s.append("    uint64_t i = 0;\n");
        let w = emit_while_step_line(step, len);
        s.append(w.as_str());
        let c = emit_k50_chunks(wide, unroll, buf, vw, false);
        s.append(c.as_str());
        let close = emit_loop_close(step);
        s.append(close.as_str());
        let e = emit_k50_extract(wide);
        s.append(e.as_str());
    }
    s
}

pub open spec fn k50_tail(plan: CandidatePlan, buf: Seq<char>, len: Seq<char>) -> Seq<char> {
    if has_narrow_tail(plan) {
        "    while (i + 16 <= "@ + len + ") {\n"@ + "        __m128i chunk = _mm_loadu_si128((__m128i *)("@
            + buf + " + i));\n"@
            + "        __m128i masked = _mm_and_si128(chunk, _mm_set1_epi8((char)mask));\n"@
            + "        __m128i cmp = _mm_cmpeq_epi8(masked, _mm_set1_epi8((char)target));\n"@
            + "        int bits = _mm_movemask_epi8(cmp);\n"@
            + "        count += __builtin_popcount(bits);\n"@ + "        i += 16;\n"@ + "    }\n"@
    } else {
        Seq::empty()
    }
}

fn emit_k50_tail(plan: &CandidatePlan, buf: &str, len: &str) -> (s: String)
    ensures
        s@ == k50_tail(*plan, buf@, len@),
{
    if plan.tail == TailStrategy::NarrowerVector && plan.isa.width() == 32 {
        let mut s = owned("    while (i + 16 <= ");
        s.append(len);
        s.append(") {\n");
        s.append("        __m128i chunk = _mm_loadu_si128((__m128i *)(");
        s.append(buf);
        s.append(" + i));\n");
        s.append("        __m128i masked = _mm_and_si128(chunk, _mm_set1_epi8((char)mask));\n");
        s.append("        __m128i cmp = _mm_cmpeq_epi8(masked, _mm_set1_epi8((char)target));\n");
        s.append("        int bits = _mm_movemask_epi8(cmp);\n");
        s.append("        count += __builtin_popcount(bits);\n");
        s.append("        i += 16;\n");
        s.append("    }\n");
        s
    } else {
        String::new()
    }
}

/// Body of the C function for a `k50_count_masked` plan: returns the number
/// of bytes of `buf[0..len)` with `(b & mask) == target`.
pub open spec fn k50_text(plan: CandidatePlan, buf: Seq<char>, len: Seq<char>) -> Seq<char> {
    if plan.isa == ISA::Scalar {
        "    uint64_t count = 0;\n"@ + "    for (uint64_t i = 0; i < n; i++) {\n"@
            + "        count += ((buf[i] & mask) == target);\n"@ + "    }\n"@ + "    return count;\n"@
    } else {
        k50_main(plan, buf, len) + k50_tail(plan, buf, len) + "    while (i < "@ + len + ") {\n"@
            + "        count += ((buf[i] & mask) == target);\n"@ + "        i++;\n"@ + "    }\n"@
            + "    return count;\n"@
    }
}

fn emit_k50(out: &mut String, plan: &CandidatePlan, buf: &str, len: &str, extra_params: &str)
    ensures
        final(out)@ == old(out)@ + k50_text(*plan, buf@, len@),
{
    if plan.isa == ISA::Scalar {
        let mut s = owned("    uint64_t count = 0;\n");
        s.append("    for (uint64_t i = 0; i < n; i++) {\n");
        s.append("        count += ((buf[i] & mask) == target);\n");
        s.append("    }\n");
        s.append("    return count;\n");
        out.append(s.as_str());
        return;
    }
    let mut s = emit_k50_main(plan, buf, len);
    let tail = emit_k50_tail(plan, buf, len);
    s.append(tail.as_str());
    s.append("    while (i < ");
    s.append(len);
    s.append(") {\n");
    s.append("        count += ((buf[i] & mask) == target);\n");
    s.append("        i++;\n");
    s.append("    }\n");
    s.append("    return count;\n");
    out.append(s.as_str());
}

// plan -------------------------------------------------------------------

/// The body text of a plan's C function, by kernel.
pub open spec fn plan_body(plan: CandidatePlan, buf: Seq<char>, len: Seq<char>) -> Seq<char> {
    match kernel_kind(plan.kernel@) {
        KernelKind::AllEqual => k18_text(plan, buf, len),
        KernelKind::SumAscii => k43_text(plan, buf, len),
        KernelKind::CountMasked => k50_text(plan, buf, len),
        KernelKind::Other => Seq::empty(),
    }
}

/// The C function for a plan: `uint64_t <kernel>_c<id>(<params>) {`, the
/// kernel's body, and the closing brace.
pub open spec fn plan_text(plan: CandidatePlan, params: Seq<char>, buf: Seq<char>, len: Seq<char>) -> Seq<
    char,
> {
    "uint64_t "@ + plan.kernel@ + "_c"@ + decimal(plan.id as nat) + "("@ + params + ") {\n"@
        + plan_body(plan, buf, len) + "}\n"@
}

/// The signature line of a plan's C function: `uint64_t <kernel>_c<id>(<params>) {`.
pub open spec fn plan_signature(plan: CandidatePlan, params: Seq<char>) -> Seq<char> {
    "uint64_t "@ + plan.kernel@ + "_c"@ + decimal(plan.id as nat) + "("@ + params + ") {\n"@
}

/// Every plan's C function begins with its signature line and ends with the
/// closing brace; for a kernel that is none of the three, nothing stands
/// between them.
pub proof fn law_plan_text_frame(plan: CandidatePlan, params: Seq<char>, buf: Seq<char>, len: Seq<char>)
    ensures
        crate::chars::starts_with(plan_text(plan, params, buf, len), plan_signature(plan, params)),
        crate::chars::occurs_at(
            plan_text(plan, params, buf, len),
            "}\n"@,
            plan_text(plan, params, buf, len).len() - 2,
        ),
        kernel_kind(plan.kernel@) == KernelKind::Other ==> plan_text(plan, params, buf, len) == plan_signature(
            plan,
            params,
        ) + "}\n"@,
{
    reveal_strlit("}\n");
    let t = plan_text(plan, params, buf, len);
    let sig = plan_signature(plan, params);
    assert(t =~= sig + plan_body(plan, buf, len) + "}\n"@);
    assert(t.subrange(0, sig.len() as int) =~= sig);
    assert(t.subrange(t.len() - 2, t.len() as int) =~= "}\n"@);
    if kernel_kind(plan.kernel@) == KernelKind::Other {
        assert(plan_body(plan, buf, len) =~= Seq::<char>::empty());
        assert(t =~= sig + "}\n"@);
    }
}

/// For `k18_all_equal` and `k50_count_masked`, a vector plan's C function
/// holds its main loop `while (i + <step> <= <len>) {`, whose step is the
/// ISA's lane count times the unroll factor.
#[verifier::rlimit(40)]
pub proof fn law_vector_loop_step(plan: CandidatePlan, params: Seq<char>, buf: Seq<char>, len: Seq<char>)
    requires
        plan.isa != ISA::Scalar,
        kernel_kind(plan.kernel@) == KernelKind::AllEqual || kernel_kind(plan.kernel@) == KernelKind::CountMasked,
    ensures
        exists|i: int|
            #[trigger] crate::chars::occurs_at(
                plan_text(plan, params, buf, len),
                while_step_line(isa_width(plan.isa) * unroll_count(plan.unroll), len),
                i,
            ),
{
    let sig = plan_signature(plan, params);
    let body = plan_body(plan, buf, len);
    let w = while_step_line(isa_width(plan.isa) * unroll_count(plan.unroll), len);
    let p = if kernel_kind(plan.kernel@) == KernelKind::AllEqual {
        lemma_k18_loop(plan, buf, len)
    } else {
        lemma_k50_loop(plan, buf, len)
    };
    lemma_occurs_shift(sig, body, "}\n"@, w, p);
    assert(plan_text(plan, params, buf, len) =~= sig + body + "}\n"@);
}

#[verifier::rlimit(40)]
proof fn lemma_k18_loop(plan: CandidatePlan, buf: Seq<char>, len: Seq<char>) -> (p: int)
    requires
        plan.isa != ISA::Scalar,
    ensures
        crate::chars::occurs_at(
            k18_text(plan, buf, len),
            while_step_line(isa_width(plan.isa) * unroll_count(plan.unroll), len),
            p,
        ),
{
    let wide = plan.isa == ISA::AVX2;
    let vw = isa_width(plan.isa);
    let step = vw * unroll_count(plan.unroll);
    let w = while_step_line(step, len);
    let pre = "    __m"@ + reg_bits(wide) + "i val_v = "@ + set1_fn(wide) + "((char)val);\n"@
        + "    uint64_t i = 0;\n"@;
    let rest = k18_loop_body(wide, unroll_count(plan.unroll), buf, vw, plan.control == ControlFlow::EarlyExit)
        + loop_close(step) + k18_tail(plan, buf, len) + "    while (i < "@ + len + ") {\n"@ + "        if ("@
        + buf + "[i] != val) return 0;\n"@ + "        i++;\n"@ + "    }\n"@ + "    return 1;\n"@;
    assert(k18_text(plan, buf, len) =~= pre + w + rest);
    lemma_occurs_in_middle(pre, w, rest);
    pre.len() as int
}

#[verifier::rlimit(40)]
proof fn lemma_k50_loop(plan: CandidatePlan, buf: Seq<char>, len: Seq<char>) -> (p: int)
    requires
        plan.isa != ISA::Scalar,
    ensures
        crate::chars::occurs_at(
            k50_text(plan, buf, len),
            while_step_line(isa_width(plan.isa) * unroll_count(plan.unroll), len),
            p,
        ),
{
    let wide = plan.isa == ISA::AVX2;
    let vw = isa_width(plan.isa);
    let n = unroll_count(plan.unroll);
    let step = vw * n;
    let w = while_step_line(step, len);
    let main = k50_main(plan, buf, len);
    let after = k50_tail(plan, buf, len) + "    while (i < "@ + len + ") {\n"@
        + "        count += ((buf[i] & mask) == target);\n"@ + "        i++;\n"@ + "    }\n"@
        + "    return count;\n"@;
    assert(k50_text(plan, buf, len) =~= main + after);
    let head = "    __m"@ + reg_bits(wide) + "i mask_v = "@ + set1_fn(wide) + "((char)mask);\n"@ + "    __m"@
        + reg_bits(wide) + "i target_v = "@ + set1_fn(wide) + "((char)target);\n"@;
    let pre = if plan.reduction == ReductionStrategy::MovemaskPopcount {
        head + "    uint64_t count = 0;\n"@ + "    uint64_t i = 0;\n"@
    } else {
        head + "    __m256i zero = _mm256_setzero_si256();\n"@ + "    __m256i ones = _mm256_set1_epi8(1);\n"@
            + "    __m256i acc = zero;\n"@ + "    uint64_t i = 0;\n"@
    };
    let rest = if plan.reduction == ReductionStrategy::MovemaskPopcount {
        k50_chunks(wide, n, buf, vw, true) + loop_close(step)
    } else {
        k50_chunks(wide, n, buf, vw, false) + loop_close(step) + (if wide {
            "    __m128i lo = _mm256_castsi256_si128(acc);\n"@
                + "    __m128i hi = _mm256_extracti128_si256(acc, 1);\n"@
                + "    uint64_t count = (uint64_t)_mm_cvtsi128_si64(lo)\n"@
                + "                     + (uint64_t)_mm_extract_epi64(lo, 1)\n"@
                + "                     + (uint64_t)_mm_cvtsi128_si64(hi)\n"@
                + "                     + (uint64_t)_mm_extract_epi64(hi, 1);\n"@
        } else {
            "    uint64_t count = (uint64_t)_mm_cvtsi128_si64(acc) + (uint64_t)_mm_extract_epi64(acc, 1);\n"@
        })
    };
    assert(main =~= pre + w + rest);
    lemma_occurs_in_middle(pre, w, rest + after);
    assert(k50_text(plan, buf, len) =~= pre + w + (rest + after));
    pre.len() as int
}

proof fn lemma_occurs_shift(a: Seq<char>, b: Seq<char>, c: Seq<char>, w: Seq<char>, p: int)
    requires
        crate::chars::occurs_at(b, w, p),
    ensures
        crate::chars::occurs_at(a + b + c, w, a.len() + p),
{
    assert((a + b + c).subrange(a.len() + p, a.len() + p + w.len()) =~= b.subrange(p, p + w.len()));
}

/// The narrower-vector tail: for a plan with `has_narrow_tail` (AVX2 with
/// the `NarrowerVector` tail), each kernel's tail is a 16-byte loop that
/// loads `__m128i chunk`; for any other plan the tail is empty.
pub proof fn law_narrow_tail(plan: CandidatePlan, buf: Seq<char>, len: Seq<char>)
    ensures
        has_narrow_tail(plan) ==> crate::chars::occurs_at(
            k18_tail(plan, buf, len),
            "        __m128i chunk = _mm_loadu_si128((__m128i *)("@,
            ("    while (i + 16 <= "@ + len + ") {\n"@).len() as int,
        ) && crate::chars::occurs_at(
            k43_tail(plan, buf, len),
            "        __m128i chunk = _mm_loadu_si128((__m128i *)("@,
            ("    while (i + 16 <= "@ + len + ") {\n"@).len() as int,
        ) && crate::chars::occurs_at(
            k50_tail(plan, buf, len),
            "        __m128i chunk = _mm_loadu_si128((__m128i *)("@,
            ("    while (i + 16 <= "@ + len + ") {\n"@).len() as int,
        ),
        !has_narrow_tail(plan) ==> k18_tail(plan, buf, len).len() == 0 && k43_tail(plan, buf, len).len() == 0
            && k50_tail(plan, buf, len).len() == 0,
{
    if has_narrow_tail(plan) {
        let pre = "    while (i + 16 <= "@ + len + ") {\n"@;
        let w = "        __m128i chunk = _mm_loadu_si128((__m128i *)("@;
        assert(k18_tail(plan, buf, len) =~= pre + w + (buf + " + i));\n"@
            + "        __m128i cmp = _mm_cmpeq_epi8(chunk, _mm_set1_epi8((char)val));\n"@
            + "        int mask = _mm_movemask_epi8(cmp);\n"@ + "        if (mask != 0xFFFF) return 0;\n"@
            + "        i += 16;\n"@ + "    }\n"@));
        lemma_occurs_in_middle(pre, w, buf + " + i));\n"@
            + "        __m128i cmp = _mm_cmpeq_epi8(chunk, _mm_set1_epi8((char)val));\n"@
            + "        int mask = _mm_movemask_epi8(cmp);\n"@ + "        if (mask != 0xFFFF) return 0;\n"@
            + "        i += 16;\n"@ + "    }\n"@);
        let r43 = buf + " + i));\n"@ + "        __m128i sums = _mm_sad_epu8(chunk, _mm_setzero_si128());\n"@
            + "        sum += (uint64_t)_mm_cvtsi128_si64(sums) + (uint64_t)_mm_extract_epi64(sums, 1);\n"@
            + "        i += 16;\n"@ + "    }\n"@;
        assert(k43_tail(plan, buf, len) =~= pre + w + r43);
        lemma_occurs_in_middle(pre, w, r43);
        let r50 = buf + " + i));\n"@ + "        __m128i masked = _mm_and_si128(chunk, _mm_set1_epi8((char)mask));\n"@
            + "        __m128i cmp = _mm_cmpeq_epi8(masked, _mm_set1_epi8((char)target));\n"@
            + "        int bits = _mm_movemask_epi8(cmp);\n"@ + "        count += __builtin_popcount(bits);\n"@
            + "        i += 16;\n"@ + "    }\n"@;
        assert(k50_tail(plan, buf, len) =~= pre + w + r50);
        lemma_occurs_in_middle(pre, w, r50);
    }
}

proof fn lemma_occurs_in_middle(a: Seq<char>, w: Seq<char>, b: Seq<char>)
    ensures
        crate::chars::occurs_at(a + w + b, w, a.len() as int),
{
    assert((a + w + b).subrange(a.len() as int, (a.len() + w.len()) as int) =~= w);
}

/// Generates C code for a candidate plan.
pub fn emit_plan(plan: &CandidatePlan, params: &str, buf: &str, len: &str, extra_params: &str) -> (out: String)
    ensures
        out@ == plan_text(*plan, params@, buf@, len@),
{
    let mut out = owned("uint64_t ");
    out.append(plan.kernel.as_str());
    out.append("_c");
    push_decimal(&mut out, plan.id as u64);
    out.append("(");
    out.append(params);
    out.append(") {\n");
    let mut body = String::new();
    match classify_kernel(plan.kernel.as_str()) {
        KernelKind::AllEqual => emit_k18(&mut body, plan, buf, len),
        KernelKind::SumAscii => emit_k43(&mut body, plan, buf, len),
        KernelKind::CountMasked => emit_k50(&mut body, plan, buf, len, extra_params),
        KernelKind::Other => {},
    }
    proof {
        assert(body@ =~= plan_body(*plan, buf@, len@));
    }
    out.append(body.as_str());
    out.append("}\n");
    out
}

} // verus!
