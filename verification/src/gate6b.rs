//! Multi-reduction fusion: composing the primitive plans of several loop
//! regions that traverse the same buffer into one fused pass, plus the
//! per-region baseline, a scalar reference oracle and a differential driver.
use vstd::prelude::*;
use crate::text::{decimal, owned, push_usize, chars_of, str_eq, string_views};
use crate::chars::{trim_start_char, trim_start_char_vec, chars_eq};
use crate::numparse::{parse_nat, parses_usize, parse_usize};
use crate::harness::{join, join_strings};
use crate::vector_plan::{TailPolicy, VectorOp, VectorPlan, VectorPredicate};
use crate::vector_derive::{is_unnamed_param, emitted_param_name, emitted_index_name, starts_unnamed};

verus! {

/// A compatible set of regions the composition can fuse into one pass.
#[derive(Clone, Debug)]
pub struct FusionCandidate {
    pub members: Vec<usize>,
}

/// One fused implementation emitted from per-region primitive plans.
pub struct FusedEmission {
    /// The fused C function.
    pub code: String,
    /// Member indices in accumulator order (`out[k]` matches element k).
    pub ordered_members: Vec<usize>,
}

/// Per-chunk cost of one member: (loads per chunk, extra op weight).
pub open spec fn spec_member_cost(op: VectorOp) -> (u32, u32) {
    match op {
        VectorOp::Cardinality => (1, 2),
        VectorOp::Sum => (1, 1),
        VectorOp::All => (1, 1),
    }
}

/// Per-chunk work of one member (used by the cost model of the search
/// stage): one load, and an operation weight of 2 for cardinality, 1
/// otherwise.
pub fn member_cost(plan: &VectorPlan) -> (c: (u32, u32))
    ensures
        c == spec_member_cost(plan.operation),
{
    match plan.operation {
        VectorOp::Cardinality => (1, 2),
        VectorOp::Sum => (1, 1),
        VectorOp::All => (1, 1),
    }
}

/// Diagnostic description of a predicate.
pub open spec fn predicate_description(p: Option<VectorPredicate>) -> Seq<char> {
    match p {
        Some(VectorPredicate::MaskedEqual { mask, target }) => "masked_eq(mask="@ + mask@ + ",target="@
            + target@ + ")"@,
        Some(VectorPredicate::Equal(t)) => "eq("@ + t@ + ")"@,
        Some(VectorPredicate::Identity) => "identity"@,
        None => "none"@,
    }
}

/// Predicate description for diagnostics.
pub fn describe_predicate(p: &Option<VectorPredicate>) -> (s: String)
    ensures
        s@ == predicate_description(*p),
{
    match p {
        Some(VectorPredicate::MaskedEqual { mask, target }) => {
            let mut s = owned("masked_eq(mask=");
            s.append(mask.as_str());
            s.append(",target=");
            s.append(target.as_str());
            s.append(")");
            s
        },
        Some(VectorPredicate::Equal(t)) => {
            let mut s = owned("eq(");
            s.append(t.as_str());
            s.append(")");
            s
        },
        Some(VectorPredicate::Identity) => owned("identity"),
        None => owned("none"),
    }
}

/// The mask expression of a plan's predicate, if any.
pub open spec fn pred_mask(p: Option<VectorPredicate>) -> Option<Seq<char>> {
    match p {
        Some(VectorPredicate::MaskedEqual { mask, .. }) => Some(mask@),
        _ => None,
    }
}

/// The target expression of a plan's predicate, if any.
pub open spec fn pred_target(p: Option<VectorPredicate>) -> Option<Seq<char>> {
    match p {
        Some(VectorPredicate::MaskedEqual { target, .. }) => Some(target@),
        Some(VectorPredicate::Equal(t)) => Some(t@),
        _ => None,
    }
}

/// The text of an optional expression, or the empty text.
pub open spec fn or_empty(o: Option<Seq<char>>) -> Seq<char> {
    match o {
        Some(s) => s,
        None => Seq::empty(),
    }
}

fn predicate_exprs(plan: &VectorPlan) -> (r: (Option<String>, Option<String>))
    ensures
        r.0 matches Some(m) ==> pred_mask(plan.predicate) == Some(m@),
        r.0 is None ==> pred_mask(plan.predicate) is None,
        r.1 matches Some(t) ==> pred_target(plan.predicate) == Some(t@),
        r.1 is None ==> pred_target(plan.predicate) is None,
{
    match &plan.predicate {
        Some(VectorPredicate::MaskedEqual { mask, target }) => (Some(mask.clone()), Some(target.clone())),
        Some(VectorPredicate::Equal(t)) => (None, Some(t.clone())),
        _ => (None, None),
    }
}

fn text_or_empty(o: &Option<String>) -> (s: &str)
    ensures
        o matches Some(x) ==> s@ == x@,
        o is None ==> s@ == Seq::<char>::empty(),
{
    match o {
        Some(x) => x.as_str(),
        None => {
            proof {
                reveal_strlit("");
            }
            ""
        },
    }
}

/// Accumulator declarations of member `k`.
pub open spec fn acc_setup(k: nat, op: VectorOp) -> Seq<char> {
    if op == VectorOp::Cardinality {
        "    uint64_t acc"@ +
            decimal(k) +
            " = 0;\n"@
    } else if op == VectorOp::Sum {
        "    __m256i acc"@ +
            decimal(k) +
            "_v = _mm256_setzero_si256();\n    uint64_t acc"@ +
            decimal(k) +
            " = 0;\n"@
    } else {
        "    uint64_t acc"@ +
            decimal(k) +
            " = 1;\n"@
    }
}

fn build_acc_setup(k: usize, op: VectorOp) -> (s: String)
    ensures
        s@ == acc_setup(k as nat, op),
{
    if op == VectorOp::Cardinality {
        let mut s = owned("    uint64_t acc");
        push_usize(&mut s, k);
        s.append(" = 0;\n");
        s
    } else if op == VectorOp::Sum {
        let mut s = owned("    __m256i acc");
        push_usize(&mut s, k);
        s.append("_v = _mm256_setzero_si256();\n    uint64_t acc");
        push_usize(&mut s, k);
        s.append(" = 0;\n");
        s
    } else {
        let mut s = owned("    uint64_t acc");
        push_usize(&mut s, k);
        s.append(" = 1;\n");
        s
    }
}

/// Broadcast mask register of member `k`.
pub open spec fn mask_setup(k: nat, m: Seq<char>) -> Seq<char> {
    "    __m256i mask"@ +
        decimal(k) +
        "_v = _mm256_set1_epi8((char)("@ +
        m +
        "));\n"@
}

fn build_mask_setup(k: usize, m: &str) -> (s: String)
    ensures
        s@ == mask_setup(k as nat, m@),
{
    let mut s = owned("    __m256i mask");
    push_usize(&mut s, k);
    s.append("_v = _mm256_set1_epi8((char)(");
    s.append(m);
    s.append("));\n");
    s
}

/// Broadcast target register of member `k`.
pub open spec fn target_setup(k: nat, t: Seq<char>) -> Seq<char> {
    "    __m256i tgt"@ +
        decimal(k) +
        "_v = _mm256_set1_epi8((char)("@ +
        t +
        "));\n"@
}

fn build_target_setup(k: usize, t: &str) -> (s: String)
    ensures
        s@ == target_setup(k as nat, t@),
{
    let mut s = owned("    __m256i tgt");
    push_usize(&mut s, k);
    s.append("_v = _mm256_set1_epi8((char)(");
    s.append(t);
    s.append("));\n");
    s
}

/// Opening of an independent member loop and its 32-byte main loop.
pub open spec fn indep_head(buf: Seq<char>, len: Seq<char>) -> Seq<char> {
    "    {\n        uint64_t i = 0;\n        while (i + 32 <= "@ +
        len +
        ") {\n            __m256i chunk = _mm256_loadu_si256((const __m256i *)("@ +
        buf +
        " + i));\n"@
}

fn build_indep_head(buf: &str, len: &str) -> (s: String)
    ensures
        s@ == indep_head(buf@, len@),
{
    let mut s = owned("    {\n        uint64_t i = 0;\n        while (i + 32 <= ");
    s.append(len);
    s.append(") {\n            __m256i chunk = _mm256_loadu_si256((const __m256i *)(");
    s.append(buf);
    s.append(" + i));\n");
    s
}

/// 32-byte chunk step of an independent member loop.
pub open spec fn indep_body32(k: nat, op: VectorOp, masked: bool) -> Seq<char> {
    if op == VectorOp::Cardinality && masked {
        "            { __m256i cmp = _mm256_cmpeq_epi8(_mm256_and_si256(chunk, mask"@ +
            decimal(k) +
            "_v), tgt"@ +
            decimal(k) +
            "_v);\n              acc"@ +
            decimal(k) +
            " += (uint64_t)__builtin_popcount((unsigned)_mm256_movemask_epi8(cmp)); }\n"@
    } else if op == VectorOp::Cardinality {
        "            { __m256i cmp = _mm256_cmpeq_epi8(chunk, tgt"@ +
            decimal(k) +
            "_v);\n              acc"@ +
            decimal(k) +
            " += (uint64_t)__builtin_popcount((unsigned)_mm256_movemask_epi8(cmp)); }\n"@
    } else if op == VectorOp::Sum {
        "            acc"@ +
            decimal(k) +
            "_v = _mm256_add_epi64(acc"@ +
            decimal(k) +
            "_v, _mm256_sad_epu8(chunk, _mm256_setzero_si256()));\n"@
    } else {
        "            { __m256i cmp = _mm256_cmpeq_epi8(chunk, tgt"@ +
            decimal(k) +
            "_v);\n              if (_mm256_movemask_epi8(cmp) != -1) acc"@ +
            decimal(k) +
            " = 0; }\n"@
    }
}

fn build_indep_body32(k: usize, op: VectorOp, masked: bool) -> (s: String)
    ensures
        s@ == indep_body32(k as nat, op, masked),
{
    if op == VectorOp::Cardinality && masked {
        let mut s = owned("            { __m256i cmp = _mm256_cmpeq_epi8(_mm256_and_si256(chunk, mask");
        push_usize(&mut s, k);
        s.append("_v), tgt");
        push_usize(&mut s, k);
        s.append("_v);\n              acc");
        push_usize(&mut s, k);
        s.append(" += (uint64_t)__builtin_popcount((unsigned)_mm256_movemask_epi8(cmp)); }\n");
        s
    } else if op == VectorOp::Cardinality {
        let mut s = owned("            { __m256i cmp = _mm256_cmpeq_epi8(chunk, tgt");
        push_usize(&mut s, k);
        s.append("_v);\n              acc");
        push_usize(&mut s, k);
        s.append(" += (uint64_t)__builtin_popcount((unsigned)_mm256_movemask_epi8(cmp)); }\n");
        s
    } else if op == VectorOp::Sum {
        let mut s = owned("            acc");
        push_usize(&mut s, k);
        s.append("_v = _mm256_add_epi64(acc");
        push_usize(&mut s, k);
        s.append("_v, _mm256_sad_epu8(chunk, _mm256_setzero_si256()));\n");
        s
    } else {
        let mut s = owned("            { __m256i cmp = _mm256_cmpeq_epi8(chunk, tgt");
        push_usize(&mut s, k);
        s.append("_v);\n              if (_mm256_movemask_epi8(cmp) != -1) acc");
        push_usize(&mut s, k);
        s.append(" = 0; }\n");
        s
    }
}

/// Horizontal reduction of a sum member's 256-bit accumulator (sum members only).
pub open spec fn indep_sum_extract(k: nat, op: VectorOp) -> Seq<char> {
    if op == VectorOp::Sum {
        "        { __m128i lo = _mm256_castsi256_si128(acc"@ +
            decimal(k) +
            "_v);\n          __m128i hi = _mm256_extracti128_si256(acc"@ +
            decimal(k) +
            "_v, 1);\n          acc"@ +
            decimal(k) +
            " = (uint64_t)_mm_cvtsi128_si64(lo) + (uint64_t)_mm_extract_epi64(lo, 1)\n                 + (uint64_t)_mm_cvtsi128_si64(hi) + (uint64_t)_mm_extract_epi64(hi, 1); }\n"@
    } else {
        Seq::empty()
    }
}

fn build_indep_sum_extract(k: usize, op: VectorOp) -> (s: String)
    ensures
        s@ == indep_sum_extract(k as nat, op),
{
    if op == VectorOp::Sum {
        let mut s = owned("        { __m128i lo = _mm256_castsi256_si128(acc");
        push_usize(&mut s, k);
        s.append("_v);\n          __m128i hi = _mm256_extracti128_si256(acc");
        push_usize(&mut s, k);
        s.append("_v, 1);\n          acc");
        push_usize(&mut s, k);
        s.append(" = (uint64_t)_mm_cvtsi128_si64(lo) + (uint64_t)_mm_extract_epi64(lo, 1)\n                 + (uint64_t)_mm_cvtsi128_si64(hi) + (uint64_t)_mm_extract_epi64(hi, 1); }\n");
        s
    } else {
        String::new()
    }
}

/// 16-byte tail loop opening of an independent member loop.
pub open spec fn indep_head16(buf: Seq<char>, len: Seq<char>) -> Seq<char> {
    "            i += 32;\n        }\n        while (i + 16 <= "@ +
        len +
        ") {\n            __m128i chunk = _mm_loadu_si128((const __m128i *)("@ +
        buf +
        " + i));\n"@
}

fn build_indep_head16(buf: &str, len: &str) -> (s: String)
    ensures
        s@ == indep_head16(buf@, len@),
{
    let mut s = owned("            i += 32;\n        }\n        while (i + 16 <= ");
    s.append(len);
    s.append(") {\n            __m128i chunk = _mm_loadu_si128((const __m128i *)(");
    s.append(buf);
    s.append(" + i));\n");
    s
}

/// 16-byte chunk step of an independent member loop.
pub open spec fn indep_body16(k: nat, op: VectorOp, masked: bool, m: Seq<char>, t: Seq<char>) -> Seq<char> {
    if op == VectorOp::Cardinality && masked {
        "            { __m128i cmp = _mm_cmpeq_epi8(_mm_and_si128(chunk, _mm_set1_epi8((char)("@ +
            m +
            "))), _mm_set1_epi8((char)("@ +
            t +
            ")));\n              acc"@ +
            decimal(k) +
            " += (uint64_t)__builtin_popcount((unsigned)_mm_movemask_epi8(cmp)); }\n"@
    } else if op == VectorOp::Cardinality {
        "            { __m128i cmp = _mm_cmpeq_epi8(chunk, _mm_set1_epi8((char)("@ +
            t +
            ")));\n              acc"@ +
            decimal(k) +
            " += (uint64_t)__builtin_popcount((unsigned)_mm_movemask_epi8(cmp)); }\n"@
    } else if op == VectorOp::Sum {
        "            { __m128i s = _mm_sad_epu8(chunk, _mm_setzero_si128());\n              acc"@ +
            decimal(k) +
            " += (uint64_t)_mm_cvtsi128_si64(s) + (uint64_t)_mm_extract_epi64(s, 1); }\n"@
    } else {
        "            { __m128i cmp = _mm_cmpeq_epi8(chunk, _mm_set1_epi8((char)("@ +
            t +
            ")));\n              if (_mm_movemask_epi8(cmp) != 0xFFFF) acc"@ +
            decimal(k) +
            " = 0; }\n"@
    }
}

fn build_indep_body16(k: usize, op: VectorOp, masked: bool, m: &str, t: &str) -> (s: String)
    ensures
        s@ == indep_body16(k as nat, op, masked, m@, t@),
{
    if op == VectorOp::Cardinality && masked {
        let mut s = owned("            { __m128i cmp = _mm_cmpeq_epi8(_mm_and_si128(chunk, _mm_set1_epi8((char)(");
        s.append(m);
        s.append("))), _mm_set1_epi8((char)(");
        s.append(t);
        s.append(")));\n              acc");
        push_usize(&mut s, k);
        s.append(" += (uint64_t)__builtin_popcount((unsigned)_mm_movemask_epi8(cmp)); }\n");
        s
    } else if op == VectorOp::Cardinality {
        let mut s = owned("            { __m128i cmp = _mm_cmpeq_epi8(chunk, _mm_set1_epi8((char)(");
        s.append(t);
        s.append(")));\n              acc");
        push_usize(&mut s, k);
        s.append(" += (uint64_t)__builtin_popcount((unsigned)_mm_movemask_epi8(cmp)); }\n");
        s
    } else if op == VectorOp::Sum {
        let mut s = owned("            { __m128i s = _mm_sad_epu8(chunk, _mm_setzero_si128());\n              acc");
        push_usize(&mut s, k);
        s.append(" += (uint64_t)_mm_cvtsi128_si64(s) + (uint64_t)_mm_extract_epi64(s, 1); }\n");
        s
    } else {
        let mut s = owned("            { __m128i cmp = _mm_cmpeq_epi8(chunk, _mm_set1_epi8((char)(");
        s.append(t);
        s.append(")));\n              if (_mm_movemask_epi8(cmp) != 0xFFFF) acc");
        push_usize(&mut s, k);
        s.append(" = 0; }\n");
        s
    }
}

/// Scalar tail loop opening of an independent member loop.
pub open spec fn indep_head_scalar(len: Seq<char>) -> Seq<char> {
    "            i += 16;\n        }\n        while (i < "@ +
        len +
        ") {\n"@
}

fn build_indep_head_scalar(len: &str) -> (s: String)
    ensures
        s@ == indep_head_scalar(len@),
{
    let mut s = owned("            i += 16;\n        }\n        while (i < ");
    s.append(len);
    s.append(") {\n");
    s
}

/// Scalar step of an independent member loop.
pub open spec fn indep_scalar(k: nat, op: VectorOp, masked: bool, buf: Seq<char>, m: Seq<char>, t: Seq<char>) -> Seq<char> {
    if op == VectorOp::Cardinality && masked {
        "            acc"@ +
            decimal(k) +
            " += (("@ +
            buf +
            "[i] & ("@ +
            m +
            ")) == ("@ +
            t +
            "));\n"@
    } else if op == VectorOp::Cardinality {
        "            acc"@ +
            decimal(k) +
            " += ("@ +
            buf +
            "[i] == ("@ +
            t +
            "));\n"@
    } else if op == VectorOp::Sum {
        "            acc"@ +
            decimal(k) +
            " += "@ +
            buf +
            "[i];\n"@
    } else {
        "            if ("@ +
            buf +
            "[i] != ("@ +
            t +
            ")) acc"@ +
            decimal(k) +
            " = 0;\n"@
    }
}

fn build_indep_scalar(k: usize, op: VectorOp, masked: bool, buf: &str, m: &str, t: &str) -> (s: String)
    ensures
        s@ == indep_scalar(k as nat, op, masked, buf@, m@, t@),
{
    if op == VectorOp::Cardinality && masked {
        let mut s = owned("            acc");
        push_usize(&mut s, k);
        s.append(" += ((");
        s.append(buf);
        s.append("[i] & (");
        s.append(m);
        s.append(")) == (");
        s.append(t);
        s.append("));\n");
        s
    } else if op == VectorOp::Cardinality {
        let mut s = owned("            acc");
        push_usize(&mut s, k);
        s.append(" += (");
        s.append(buf);
        s.append("[i] == (");
        s.append(t);
        s.append("));\n");
        s
    } else if op == VectorOp::Sum {
        let mut s = owned("            acc");
        push_usize(&mut s, k);
        s.append(" += ");
        s.append(buf);
        s.append("[i];\n");
        s
    } else {
        let mut s = owned("            if (");
        s.append(buf);
        s.append("[i] != (");
        s.append(t);
        s.append(")) acc");
        push_usize(&mut s, k);
        s.append(" = 0;\n");
        s
    }
}

/// Mask register setup of member `k`, when its predicate has a mask.
pub open spec fn opt_mask_setup(k: nat, m: Option<Seq<char>>) -> Seq<char> {
    match m {
        Some(x) => mask_setup(k, x),
        None => Seq::empty(),
    }
}

/// Target register setup of member `k`, when its predicate has a target.
pub open spec fn opt_target_setup(k: nat, t: Option<Seq<char>>) -> Seq<char> {
    match t {
        Some(x) => target_setup(k, x),
        None => Seq::empty(),
    }
}

fn build_opt_mask_setup(k: usize, m: &Option<String>) -> (s: String)
    ensures
        s@ == opt_mask_setup(k as nat, match m { Some(x) => Some(x@), None => None }),
{
    match m {
        Some(x) => build_mask_setup(k, x.as_str()),
        None => String::new(),
    }
}

fn build_opt_target_setup(k: usize, t: &Option<String>) -> (s: String)
    ensures
        s@ == opt_target_setup(k as nat, match t { Some(x) => Some(x@), None => None }),
{
    match t {
        Some(x) => build_target_setup(k, x.as_str()),
        None => String::new(),
    }
}

/// The independently vectorized loop of member `k` (accumulator `acc<k>`):
/// a 32-byte AVX2 main loop, a 16-byte SSE2 tail and a scalar tail.
pub open spec fn indep_loop_text(k: nat, plan: VectorPlan, buf: Seq<char>, len: Seq<char>) -> Seq<char> {
    let op = plan.operation;
    let m = pred_mask(plan.predicate);
    let t = pred_target(plan.predicate);
    let masked = m is Some;
    acc_setup(k, op) + opt_mask_setup(k, m) + opt_target_setup(k, t) + indep_head(buf, len)
        + indep_body32(k, op, masked) + indep_sum_extract(k, op) + indep_head16(buf, len) + indep_body16(
        k,
        op,
        masked,
        or_empty(m),
        or_empty(t),
    ) + indep_head_scalar(len) + indep_scalar(k, op, masked, buf, or_empty(m), or_empty(t))
        + "            i++;\n        }\n    }\n"@
}

/// Emits one independent vectorized loop for member `k` (the deterministic
/// per-region plan, in place).
fn emit_independent_loop(out: &mut String, k: usize, plan: &VectorPlan, buf: &str, len: &str) -> (r: Result<(), String>)
    ensures
        r is Ok,
        final(out)@ == old(out)@ + indep_loop_text(k as nat, *plan, buf@, len@),
{
    let (mask, target) = predicate_exprs(plan);
    let op = plan.operation;
    let masked = mask.is_some();
    let m = text_or_empty(&mask);
    let t = text_or_empty(&target);
    let mut s = build_acc_setup(k, op);
    s.append(build_opt_mask_setup(k, &mask).as_str());
    s.append(build_opt_target_setup(k, &target).as_str());
    s.append(build_indep_head(buf, len).as_str());
    s.append(build_indep_body32(k, op, masked).as_str());
    s.append(build_indep_sum_extract(k, op).as_str());
    s.append(build_indep_head16(buf, len).as_str());
    s.append(build_indep_body16(k, op, masked, m, t).as_str());
    s.append(build_indep_head_scalar(len).as_str());
    s.append(build_indep_scalar(k, op, masked, buf, m, t).as_str());
    s.append("            i++;\n        }\n    }\n");
    proof {
        assert(match mask { Some(x) => Some(x@), None => None } == pred_mask(plan.predicate));
        assert(match target { Some(x) => Some(x@), None => None } == pred_target(plan.predicate));
        assert(m@ == or_empty(pred_mask(plan.predicate)));
        assert(t@ == or_empty(pred_target(plan.predicate)));
    }
    out.append(s.as_str());
    Ok(())
}

} // verus!

verus! {

// ── Regions ─────────────────────────────────────────────────────────────

/// One parameter of an outlined region's function, as the emitters read it.
#[derive(Clone, Debug)]
pub struct RegionParam {
    /// IR name (`%N` for an unnamed value).
    pub name: String,
    /// C type of the parameter.
    pub c_type: String,
    /// Whether the parameter is a pointer or an array (a traversed buffer).
    pub is_buffer: bool,
}

/// One outlined reduction region with its recognized primitive plan.
pub struct RegionPlan {
    /// Sources of the region's dependency parameters (the region computing
    /// each, where one does).
    pub dep_sources: Vec<Option<usize>>,
    /// Parameters of the region's function, in order.
    pub params: Vec<RegionParam>,
    pub plan: Option<VectorPlan>,
    pub concepts: Vec<String>,
    /// Regions whose results this region consumes.
    pub deps: Vec<usize>,
}

/// Whether `name` denotes parameter `i` named `pname`: by its own name, by
/// its name without `%`, or by its emitted name `p{i}`.
pub open spec fn names_param(pname: Seq<char>, name: Seq<char>, i: nat) -> bool {
    pname == name || trim_start_char(pname, '%') == name || (is_unnamed_param(pname) && name == "p"@
        + decimal(i))
}

/// The first parameter at or after `i` that `name` denotes.
pub open spec fn param_index_from(ps: Seq<RegionParam>, name: Seq<char>, i: int) -> Option<int>
    decreases ps.len() - i,
{
    if i < 0 || i >= ps.len() {
        None
    } else if names_param(ps[i].name@, name, i as nat) {
        Some(i)
    } else {
        param_index_from(ps, name, i + 1)
    }
}

pub open spec fn spec_param_index(r: RegionPlan, name: Seq<char>) -> Option<int> {
    param_index_from(r.params@, name, 0)
}

pub open spec fn spec_buffer_param(r: RegionPlan) -> Option<int> {
    match r.plan {
        Some(p) => spec_param_index(r, p.buffer_name@),
        None => None,
    }
}

pub open spec fn spec_length_param(r: RegionPlan) -> Option<int> {
    match r.plan {
        Some(p) => spec_param_index(r, p.length_name@),
        None => None,
    }
}

pub open spec fn spec_operation(r: RegionPlan) -> Option<VectorOp> {
    match r.plan {
        Some(p) => Some(p.operation),
        None => None,
    }
}

proof fn lemma_param_index_from(ps: Seq<RegionParam>, name: Seq<char>, i: int)
    ensures
        param_index_from(ps, name, i) matches Some(k) ==> i <= k < ps.len() && 0 <= k && names_param(
            ps[k].name@,
            name,
            k as nat,
        ),
    decreases ps.len() - i,
{
    if !(i < 0 || i >= ps.len()) && !names_param(ps[i].name@, name, i as nat) {
        lemma_param_index_from(ps, name, i + 1);
    }
}

proof fn lemma_param_index_reaches(ps: Seq<RegionParam>, name: Seq<char>, i: int, k: int)
    requires
        0 <= i <= k < ps.len(),
        names_param(ps[k].name@, name, k as nat),
    ensures
        param_index_from(ps, name, i) matches Some(j) && j <= k,
    decreases k - i,
{
    if !names_param(ps[i].name@, name, i as nat) {
        lemma_param_index_reaches(ps, name, i + 1, k);
    }
}

/// The name the emitters give a region's parameter is found again by
/// `param_index`: it denotes that parameter, or an earlier one that bears
/// the same name.
pub proof fn law_emitted_name_found(r: RegionPlan, k: int)
    requires
        0 <= k < r.params@.len(),
    ensures
        spec_param_index(r, emitted_param_name(r.params@[k].name@, k as nat)) matches Some(j) && j <= k
            && names_param(r.params@[j].name@, emitted_param_name(r.params@[k].name@, k as nat), j as nat),
{
    let name = emitted_param_name(r.params@[k].name@, k as nat);
    lemma_param_index_reaches(r.params@, name, 0, k);
    lemma_param_index_from(r.params@, name, 0);
}

impl RegionPlan {
    /// Position of the parameter `name` denotes (see `names_param`).
    pub fn param_index(&self, name: &str) -> (r: Option<usize>)
        ensures
            match r {
                Some(i) => spec_param_index(*self, name@) == Some(i as int) && i < self.params@.len(),
                None => spec_param_index(*self, name@) is None,
            },
    {
        proof {
            lemma_param_index_from(self.params@, name@, 0);
        }
        let nv = chars_of(name);
        let mut i: usize = 0;
        while i < self.params.len()
            invariant
                i <= self.params@.len(),
                nv@ == name@,
                spec_param_index(*self, name@) == param_index_from(self.params@, name@, i as int),
            decreases self.params@.len() - i,
        {
            let pn = self.params[i].name.as_str();
            let stripped = trim_start_char_vec(&chars_of(pn), '%');
            let by_name = str_eq(pn, name) || chars_eq(&stripped, &nv);
            let by_emitted_name = starts_unnamed(pn) && str_eq(name, emitted_index_name(i).as_str());
            if by_name || by_emitted_name {
                return Some(i);
            }
            i += 1;
        }
        None
    }

    /// Parameter position of the region's buffer, when derivable from the
    /// plan's buffer name (original parameters keep their positions).
    pub fn buffer_param(&self) -> (r: Option<usize>)
        ensures
            match r {
                Some(i) => spec_buffer_param(*self) == Some(i as int),
                None => spec_buffer_param(*self) is None,
            },
    {
        match &self.plan {
            Some(p) => self.param_index(p.buffer_name.as_str()),
            None => None,
        }
    }

    /// Parameter position of the region's iteration length.
    pub fn length_param(&self) -> (r: Option<usize>)
        ensures
            match r {
                Some(i) => spec_length_param(*self) == Some(i as int),
                None => spec_length_param(*self) is None,
            },
    {
        match &self.plan {
            Some(p) => self.param_index(p.length_name.as_str()),
            None => None,
        }
    }

    /// The reduction of the region's plan, if it has one.
    pub fn operation(&self) -> (r: Option<VectorOp>)
        ensures
            r == spec_operation(*self),
    {
        match &self.plan {
            Some(p) => Some(p.operation),
            None => None,
        }
    }
}

/// The C name of parameter `i` of a region function (`v{i}` past the last
/// parameter).
pub open spec fn spec_c_param_name(ps: Seq<RegionParam>, i: nat) -> Seq<char> {
    if i < ps.len() {
        emitted_param_name(ps[i as int].name@, i)
    } else {
        "v"@ + decimal(i)
    }
}

/// C parameter name for parameter `i` (matches the emitter's naming).
pub fn c_param_name(params: &Vec<RegionParam>, i: usize) -> (s: String)
    ensures
        s@ == spec_c_param_name(params@, i as nat),
{
    if i < params.len() {
        if starts_unnamed(params[i].name.as_str()) {
            emitted_index_name(i)
        } else {
            owned(params[i].name.as_str())
        }
    } else {
        let mut s = owned("v");
        push_usize(&mut s, i);
        s
    }
}

} // verus!

verus! {

// ── Fusion groups ───────────────────────────────────────────────────────

/// Whether a region can join a fusion group: no dependency parameters,
/// a derived plan, and buffer and length parameters found.
pub open spec fn fusable(r: RegionPlan) -> bool {
    r.dep_sources@.len() == 0 && spec_buffer_param(r) is Some && spec_length_param(r) is Some
        && r.plan is Some
}

/// Whether region `r` traverses what the group led by `rs[first]` does:
/// same buffer and length parameters, same vector width.
pub open spec fn compatible(rs: Seq<RegionPlan>, first: int, r: RegionPlan) -> bool {
    &&& spec_buffer_param(rs[first]) == spec_buffer_param(r)
    &&& spec_length_param(rs[first]) == spec_length_param(r)
    &&& rs[first].plan matches Some(p) && r.plan matches Some(q) && p.vector_width == q.vector_width
}

/// Whether region `i` has no dependency edge with any member of `group`.
pub open spec fn independent(rs: Seq<RegionPlan>, group: Seq<usize>, i: int) -> bool {
    forall|j: int|
        0 <= j < group.len() ==> !rs[i].deps@.contains(#[trigger] group[j]) && !rs[group[j] as int].deps@.contains(
            i as usize,
        )
}

/// The first group at or after `j` that region `i` fits.
pub open spec fn first_fit(rs: Seq<RegionPlan>, gs: Seq<Seq<usize>>, i: int, j: int) -> Option<int>
    decreases gs.len() - j,
{
    if j < 0 || j >= gs.len() {
        None
    } else if gs[j].len() > 0 && compatible(rs, gs[j][0] as int, rs[i]) && independent(rs, gs[j], i) {
        Some(j)
    } else {
        first_fit(rs, gs, i, j + 1)
    }
}

/// The groups formed by the first `n` regions: each fusable region joins
/// the first group it fits, or starts a new one.
pub open spec fn groups_upto(rs: Seq<RegionPlan>, n: int) -> Seq<Seq<usize>>
    decreases n,
{
    if n <= 0 {
        Seq::empty()
    } else {
        let g = groups_upto(rs, n - 1);
        let i = n - 1;
        if !fusable(rs[i]) {
            g
        } else {
            match first_fit(rs, g, i, 0) {
                Some(j) => g.update(j, g[j].push(i as usize)),
                None => g.push(seq![i as usize]),
            }
        }
    }
}

/// The groups of at least two members, in order.
pub open spec fn multi_member(gs: Seq<Seq<usize>>) -> Seq<Seq<usize>>
    decreases gs.len(),
{
    if gs.len() == 0 {
        Seq::empty()
    } else if gs.last().len() >= 2 {
        multi_member(gs.drop_last()).push(gs.last())
    } else {
        multi_member(gs.drop_last())
    }
}

pub open spec fn spec_fusion_candidates(rs: Seq<RegionPlan>) -> Seq<Seq<usize>> {
    multi_member(groups_upto(rs, rs.len() as int))
}

pub open spec fn group_views(v: Seq<Vec<usize>>) -> Seq<Seq<usize>> {
    v.map_values(|g: Vec<usize>| g@)
}

pub open spec fn candidate_views(v: Seq<FusionCandidate>) -> Seq<Seq<usize>> {
    v.map_values(|c: FusionCandidate| c.members@)
}

/// Every group member is below `n`, and every group has a member.
pub open spec fn groups_below(gs: Seq<Seq<usize>>, n: int) -> bool {
    forall|a: int, b: int| 0 <= a < gs.len() && 0 <= b < gs[a].len() ==> gs[a][b] < n
}

pub open spec fn groups_nonempty(gs: Seq<Seq<usize>>) -> bool {
    forall|a: int| 0 <= a < gs.len() ==> #[trigger] gs[a].len() > 0
}

proof fn lemma_first_fit(rs: Seq<RegionPlan>, gs: Seq<Seq<usize>>, i: int, j: int)
    ensures
        first_fit(rs, gs, i, j) matches Some(k) ==> j <= k < gs.len() && 0 <= k,
    decreases gs.len() - j,
{
    if !(j < 0 || j >= gs.len()) && !(gs[j].len() > 0 && compatible(rs, gs[j][0] as int, rs[i])
        && independent(rs, gs[j], i)) {
        lemma_first_fit(rs, gs, i, j + 1);
    }
}

fn contains_usize(v: &Vec<usize>, x: usize) -> (b: bool)
    ensures
        b == v@.contains(x),
{
    let mut i: usize = 0;
    while i < v.len()
        invariant
            i <= v@.len(),
            forall|k: int| 0 <= k < i ==> v@[k] != x,
        decreases v@.len() - i,
    {
        if v[i] == x {
            return true;
        }
        i += 1;
    }
    false
}

fn fits_group(regions: &[RegionPlan], group: &Vec<usize>, i: usize, buffer: Option<usize>, length: Option<usize>, width: usize) -> (b: bool)
    requires
        i < regions@.len(),
        forall|b: int| 0 <= b < group@.len() ==> group@[b] < regions@.len(),
        regions@[i as int].plan matches Some(q) && q.vector_width == width,
        buffer matches Some(x) && spec_buffer_param(regions@[i as int]) == Some(x as int),
        length matches Some(x) && spec_length_param(regions@[i as int]) == Some(x as int),
    ensures
        b == (group@.len() > 0 && compatible(regions@, group@[0] as int, regions@[i as int])
            && independent(regions@, group@, i as int)),
{
    if group.len() == 0 {
        return false;
    }
    let f = &regions[group[0]];
    let same_width = match &f.plan {
        Some(p) => p.vector_width == width,
        None => false,
    };
    let compat = f.buffer_param() == buffer && f.length_param() == length && same_width;
    if !compat {
        return false;
    }
    let r = &regions[i];
    let mut k: usize = 0;
    while k < group.len()
        invariant
            i < regions@.len(),
            *r == regions@[i as int],
            forall|b: int| 0 <= b < group@.len() ==> group@[b] < regions@.len(),
            k <= group@.len(),
            forall|j: int|
                0 <= j < k ==> !r.deps@.contains(#[trigger] group@[j]) && !regions@[group@[j] as int].deps@.contains(
                    i,
                ),
        decreases group@.len() - k,
    {
        let m = group[k];
        if contains_usize(&r.deps, m) || contains_usize(&regions[m].deps, i) {
            return false;
        }
        k += 1;
    }
    true
}

/// All fusion groups of two or more members: regions that (a) have a
/// derived plan, (b) share the same buffer and length parameter positions,
/// (c) have no dependency edge between them, and (d) use the same vector
/// width. Each region joins the first earlier group it fits; a region with
/// dependency parameters joins none.
pub fn fusion_candidates(regions: &[RegionPlan]) -> (r: Vec<FusionCandidate>)
    ensures
        candidate_views(r@) == spec_fusion_candidates(regions@),
{
    let mut groups: Vec<Vec<usize>> = Vec::new();
    let mut i: usize = 0;
    while i < regions.len()
        invariant
            i <= regions@.len(),
            group_views(groups@) == groups_upto(regions@, i as int),
            groups_below(group_views(groups@), i as int),
            groups_nonempty(group_views(groups@)),
        decreases regions@.len() - i,
    {
        let r = &regions[i];
        let ghost gv = group_views(groups@);
        let buffer = r.buffer_param();
        let length = r.length_param();
        if r.dep_sources.len() == 0 && buffer.is_some() && length.is_some() && r.plan.is_some() {
            let width = match &r.plan {
                Some(p) => p.vector_width,
                None => 0,
            };
            let mut fit: Option<usize> = None;
            let mut j: usize = 0;
            proof {
                lemma_first_fit(regions@, gv, i as int, 0);
            }
            while j < groups.len()
                invariant
                    j <= groups@.len(),
                    i < regions@.len(),
                    gv == group_views(groups@),
                    groups_below(gv, i as int),
                    *r == regions@[i as int],
                    r.plan matches Some(q) && q.vector_width == width,
                    buffer matches Some(x) && spec_buffer_param(*r) == Some(x as int),
                    length matches Some(x) && spec_length_param(*r) == Some(x as int),
                    fit is None ==> first_fit(regions@, gv, i as int, 0) == first_fit(
                        regions@,
                        gv,
                        i as int,
                        j as int,
                    ),
                    fit matches Some(f) ==> first_fit(regions@, gv, i as int, 0) == Some(f as int) && f
                        < groups@.len(),
                decreases groups@.len() - j,
            {
                if fit.is_none() {
                    assert(gv[j as int] == groups@[j as int]@);
                    if fits_group(regions, &groups[j], i, buffer, length, width) {
                        fit = Some(j);
                    }
                }
                j += 1;
            }
            match fit {
                Some(f) => {
                    let mut g: Vec<usize> = Vec::new();
                    let mut k: usize = 0;
                    while k < groups[f].len()
                        invariant
                            f < groups@.len(),
                            k <= groups@[f as int]@.len(),
                            g@ == groups@[f as int]@.subrange(0, k as int),
                        decreases groups@[f as int]@.len() - k,
                    {
                        g.push(groups[f][k]);
                        k += 1;
                        assert(g@ =~= groups@[f as int]@.subrange(0, k as int));
                    }
                    assert(g@ =~= gv[f as int]);
                    g.push(i);
                    groups.set(f, g);
                    assert(group_views(groups@) =~= gv.update(f as int, gv[f as int].push(i)));
                },
                None => {
                    let mut g: Vec<usize> = Vec::new();
                    g.push(i);
                    groups.push(g);
                    assert(group_views(groups@) =~= gv.push(seq![i]));
                },
            }
        }
        i += 1;
        proof {
            assert(group_views(groups@) == groups_upto(regions@, i as int));
            assert forall|a: int, b: int|
                0 <= a < group_views(groups@).len() && 0 <= b < group_views(groups@)[a].len() implies group_views(
                groups@,
            )[a][b] < i by {
                if a < gv.len() && b < gv[a].len() {
                    assert(group_views(groups@)[a][b] == gv[a][b]);
                }
            }
            assert forall|a: int| 0 <= a < group_views(groups@).len() implies #[trigger] group_views(
                groups@,
            )[a].len() > 0 by {
                if a < gv.len() {
                    assert(gv[a].len() > 0);
                }
            }
        }
    }
    let ghost all = group_views(groups@);
    let mut out: Vec<FusionCandidate> = Vec::new();
    let mut k: usize = 0;
    assert(candidate_views(out@) =~= multi_member(all.subrange(0, 0)));
    while k < groups.len()
        invariant
            k <= groups@.len(),
            all == group_views(groups@),
            candidate_views(out@) == multi_member(all.subrange(0, k as int)),
        decreases groups@.len() - k,
    {
        let ghost pre = all.subrange(0, k as int + 1);
        assert(pre.drop_last() =~= all.subrange(0, k as int));
        assert(pre.last() == groups@[k as int]@);
        if groups[k].len() >= 2 {
            let mut members: Vec<usize> = Vec::new();
            let mut q: usize = 0;
            while q < groups[k].len()
                invariant
                    k < groups@.len(),
                    q <= groups@[k as int]@.len(),
                    members@ == groups@[k as int]@.subrange(0, q as int),
                decreases groups@[k as int]@.len() - q,
            {
                members.push(groups[k][q]);
                q += 1;
                assert(members@ =~= groups@[k as int]@.subrange(0, q as int));
            }
            assert(members@ =~= groups@[k as int]@);
            let ghost old_out = out@;
            out.push(FusionCandidate { members });
            assert(candidate_views(out@) =~= candidate_views(old_out).push(pre.last()));
        }
        k += 1;
    }
    assert(all.subrange(0, groups@.len() as int) =~= all);
    out
}

// ── Member order ────────────────────────────────────────────────────────

/// Sort key of a region: cardinality, sum, all, then regions without plan.
pub open spec fn order_key(r: RegionPlan) -> nat {
    match r.plan {
        Some(p) => match p.operation {
            VectorOp::Cardinality => 0,
            VectorOp::Sum => 1,
            VectorOp::All => 2,
        },
        None => 3,
    }
}

/// The members whose region has sort key `key`, in their order.
pub open spec fn with_key(rs: Seq<RegionPlan>, ms: Seq<usize>, key: nat) -> Seq<usize>
    decreases ms.len(),
{
    if ms.len() == 0 {
        Seq::empty()
    } else if order_key(rs[ms.last() as int]) == key {
        with_key(rs, ms.drop_last(), key).push(ms.last())
    } else {
        with_key(rs, ms.drop_last(), key)
    }
}

/// The members stably sorted by their region's sort key.
pub open spec fn spec_member_order(rs: Seq<RegionPlan>, ms: Seq<usize>) -> Seq<usize> {
    with_key(rs, ms, 0) + with_key(rs, ms, 1) + with_key(rs, ms, 2) + with_key(rs, ms, 3)
}

pub open spec fn members_below(ms: Seq<usize>, n: int) -> bool {
    forall|i: int| 0 <= i < ms.len() ==> #[trigger] ms[i] < n
}

fn key_of(r: &RegionPlan) -> (k: u8)
    ensures
        k == order_key(*r),
{
    match r.operation() {
        Some(VectorOp::Cardinality) => 0,
        Some(VectorOp::Sum) => 1,
        Some(VectorOp::All) => 2,
        None => 3,
    }
}

fn push_with_key(out: &mut Vec<usize>, regions: &[RegionPlan], members: &[usize], key: u8)
    requires
        members_below(members@, regions@.len() as int),
    ensures
        final(out)@ == old(out)@ + with_key(regions@, members@, key as nat),
{
    let ghost start = out@;
    let mut i: usize = 0;
    assert(members@.subrange(0, 0) =~= Seq::<usize>::empty());
    assert(out@ =~= start + with_key(regions@, members@.subrange(0, 0), key as nat));
    while i < members.len()
        invariant
            i <= members@.len(),
            members_below(members@, regions@.len() as int),
            out@ == start + with_key(regions@, members@.subrange(0, i as int), key as nat),
        decreases members@.len() - i,
    {
        let ghost pre = members@.subrange(0, i as int + 1);
        assert(pre.drop_last() =~= members@.subrange(0, i as int));
        let m = members[i];
        if key_of(&regions[m]) == key {
            out.push(m);
            assert(out@ =~= start + with_key(regions@, pre, key as nat));
        }
        i += 1;
    }
    assert(members@.subrange(0, members@.len() as int) =~= members@);
}

/// Canonical order of fusion members (accumulator results are reported in
/// this order): stably sorted with cardinality members first, then sums,
/// then `All` members, then members without a plan.
pub fn member_order(regions: &[RegionPlan], members: &[usize]) -> (m: Vec<usize>)
    requires
        members_below(members@, regions@.len() as int),
    ensures
        m@ == spec_member_order(regions@, members@),
{
    let mut m: Vec<usize> = Vec::new();
    push_with_key(&mut m, regions, members, 0);
    push_with_key(&mut m, regions, members, 1);
    push_with_key(&mut m, regions, members, 2);
    push_with_key(&mut m, regions, members, 3);
    assert(m@ =~= spec_member_order(regions@, members@));
    m
}

/// The regions with a derived plan and no dependency parameters, among the
/// first `n`.
pub open spec fn eligible_upto(rs: Seq<RegionPlan>, n: int) -> Seq<usize>
    decreases n,
{
    if n <= 0 {
        Seq::empty()
    } else if rs[n - 1].plan is Some && rs[n - 1].dep_sources@.len() == 0 {
        eligible_upto(rs, n - 1).push((n - 1) as usize)
    } else {
        eligible_upto(rs, n - 1)
    }
}

proof fn lemma_eligible_below(rs: Seq<RegionPlan>, n: int)
    requires
        n <= rs.len(),
    ensures
        members_below(eligible_upto(rs, n), rs.len() as int),
    decreases n,
{
    if n > 0 {
        lemma_eligible_below(rs, n - 1);
    }
}

/// Every fusion-eligible member of a kernel (derived plan, no dependency
/// parameters), in canonical order.
pub fn eligible_members(regions: &[RegionPlan]) -> (m: Vec<usize>)
    ensures
        m@ == spec_member_order(regions@, eligible_upto(regions@, regions@.len() as int)),
{
    let mut ids: Vec<usize> = Vec::new();
    let mut i: usize = 0;
    while i < regions.len()
        invariant
            i <= regions@.len(),
            ids@ == eligible_upto(regions@, i as int),
        decreases regions@.len() - i,
    {
        if regions[i].plan.is_some() && regions[i].dep_sources.len() == 0 {
            ids.push(i);
        }
        i += 1;
    }
    proof {
        lemma_eligible_below(regions@, regions@.len() as int);
    }
    member_order(regions, ids.as_slice())
}

/// The error naming a region without a derived plan.
pub open spec fn no_plan_error(m: nat) -> Seq<char> {
    "region "@ + decimal(m) + " has no derived plan"@
}

fn no_plan_message(m: usize) -> (s: String)
    ensures
        s@ == no_plan_error(m as nat),
{
    let mut s = owned("region ");
    push_usize(&mut s, m);
    s.append(" has no derived plan");
    s
}

/// The derived plan of region `m`, or an error naming it.
pub fn plan_of<'a>(regions: &'a [RegionPlan], m: usize) -> (r: Result<&'a VectorPlan, String>)
    requires
        m < regions@.len(),
    ensures
        match r {
            Ok(p) => regions@[m as int].plan == Some(*p),
            Err(e) => regions@[m as int].plan is None && e@ == no_plan_error(m as nat),
        },
{
    match &regions[m].plan {
        Some(p) => Ok(p),
        None => Err(no_plan_message(m)),
    }
}

// ── Driver arguments ────────────────────────────────────────────────────

/// The value given to the `j`-th scalar parameter (the last one repeats).
pub open spec fn scalar_value_of(j: nat) -> nat {
    if j == 0 {
        15
    } else if j == 1 {
        5
    } else if j == 2 {
        66
    } else if j == 3 {
        51
    } else {
        119
    }
}

/// Number of scalar parameters (neither buffer nor length) among `ps`.
pub open spec fn scalar_count(ps: Seq<RegionParam>, lp: Option<int>) -> nat
    decreases ps.len(),
{
    if ps.len() == 0 {
        0
    } else {
        let i = ps.len() - 1;
        scalar_count(ps.drop_last(), lp) + if !ps.last().is_buffer && lp != Some(i) {
            1nat
        } else {
            0nat
        }
    }
}

/// The argument expressions for parameters `ps`: `b` for a buffer, `l`
/// for the length parameter `lp`, and fixed values for the other scalars.
pub open spec fn arg_list(ps: Seq<RegionParam>, lp: Option<int>, b: Seq<char>, l: Seq<char>) -> Seq<Seq<char>>
    decreases ps.len(),
{
    if ps.len() == 0 {
        Seq::empty()
    } else {
        let i = ps.len() - 1;
        let prev = arg_list(ps.drop_last(), lp, b, l);
        if ps.last().is_buffer {
            prev.push(b)
        } else if lp == Some(i) {
            prev.push(l)
        } else {
            prev.push(decimal(scalar_value_of(scalar_count(ps.drop_last(), lp))))
        }
    }
}

pub open spec fn spec_scalar_args(rs: Seq<RegionPlan>, ms: Seq<usize>, b: Seq<char>, l: Seq<char>) -> Seq<Seq<char>> {
    let r = rs[ms[0] as int];
    arg_list(r.params@, spec_length_param(r), b, l)
}

/// Argument expressions for a kernel's parameters: `buffer_expr` for
/// pointer and array parameters, `length_expr` for the length parameter,
/// and 0x0F, 0x05, 0x42, 0x33, 0x77 (the last repeating) for the other
/// scalars in turn.
pub fn scalar_args(regions: &[RegionPlan], members: &[usize], buffer_expr: &str, length_expr: &str) -> (out: Vec<String>)
    requires
        members@.len() > 0,
        members@[0] < regions@.len(),
    ensures
        string_views(out@) == spec_scalar_args(regions@, members@, buffer_expr@, length_expr@),
{
    let r = &regions[members[0]];
    let ps = &r.params;
    let length_param = r.length_param();
    let ghost lp = spec_length_param(*r);
    let values: [u64; 5] = [0x0F, 0x05, 0x42, 0x33, 0x77];
    let mut out: Vec<String> = Vec::new();
    let mut scalar_i: usize = 0;
    let mut i: usize = 0;
    assert(string_views(out@) =~= arg_list(ps@.subrange(0, 0), lp, buffer_expr@, length_expr@));
    while i < ps.len()
        invariant
            i <= ps@.len(),
            lp == spec_length_param(*r),
            length_param matches Some(x) ==> lp == Some(x as int),
            length_param is None ==> lp is None,
            values@ == seq![15u64, 5, 66, 51, 119],
            scalar_i as nat == scalar_count(ps@.subrange(0, i as int), lp),
            scalar_i <= i,
            string_views(out@) == arg_list(ps@.subrange(0, i as int), lp, buffer_expr@, length_expr@),
        decreases ps@.len() - i,
    {
        let ghost pre = ps@.subrange(0, i as int + 1);
        assert(pre.drop_last() =~= ps@.subrange(0, i as int));
        let ghost old_out = out@;
        if ps[i].is_buffer {
            out.push(owned(buffer_expr));
        } else if length_param == Some(i) {
            out.push(owned(length_expr));
        } else {
            let idx = if scalar_i < 4 {
                scalar_i
            } else {
                4
            };
            let mut s = String::new();
            push_usize(&mut s, values[idx] as usize);
            assert(s@ == decimal(scalar_value_of(scalar_i as nat)));
            scalar_i += 1;
            out.push(s);
        }
        assert(string_views(out@) =~= string_views(old_out).push(arg_list(pre, lp, buffer_expr@, length_expr@).last()));
        i += 1;
    }
    assert(ps@.subrange(0, ps@.len() as int) =~= ps@);
    out
}

} // verus!

verus! {

// ── Emission pieces ─────────────────────────────────────────────────────

/// Opening of the fused function, up to its parameter list.
pub open spec fn fused_head(kernel: Seq<char>) -> Seq<char> {
    "/* Gate 6B fused pass — generated by ABSAC from per-region plans */\n#include <stdint.h>\n#include <immintrin.h>\n\nstatic inline void absac_fused_"@ +
        kernel +
        "("@
}

fn build_fused_head(kernel: &str) -> (s: String)
    ensures
        s@ == fused_head(kernel@),
{
    let mut s = owned("/* Gate 6B fused pass — generated by ABSAC from per-region plans */\n#include <stdint.h>\n#include <immintrin.h>\n\nstatic inline void absac_fused_");
    s.append(kernel);
    s.append("(");
    s
}

/// One parameter declaration: C type and name.
pub open spec fn param_decl(ct: Seq<char>, nm: Seq<char>) -> Seq<char> {
    ct +
        " "@ +
        nm
}

fn build_param_decl(ct: &str, nm: &str) -> (s: String)
    ensures
        s@ == param_decl(ct@, nm@),
{
    let mut s = owned(ct);
    s.append(" ");
    s.append(nm);
    s
}

/// Shared zero register, index and 32-byte main loop opening of the fused pass.
pub open spec fn fused_loop_head(buf: Seq<char>, len: Seq<char>) -> Seq<char> {
    "    __m256i zero = _mm256_setzero_si256();\n    uint64_t i = 0;\n    while (i + 32 <= "@ +
        len +
        ") {\n        __m256i chunk = _mm256_loadu_si256((const __m256i *)("@ +
        buf +
        " + i));\n"@
}

fn build_fused_loop_head(buf: &str, len: &str) -> (s: String)
    ensures
        s@ == fused_loop_head(buf@, len@),
{
    let mut s = owned("    __m256i zero = _mm256_setzero_si256();\n    uint64_t i = 0;\n    while (i + 32 <= ");
    s.append(len);
    s.append(") {\n        __m256i chunk = _mm256_loadu_si256((const __m256i *)(");
    s.append(buf);
    s.append(" + i));\n");
    s
}

/// 32-byte chunk step of member `k` in the fused pass.
pub open spec fn fused_body32(k: nat, op: VectorOp, masked: bool) -> Seq<char> {
    if op == VectorOp::Cardinality && masked {
        "        { __m256i cmp = _mm256_cmpeq_epi8(_mm256_and_si256(chunk, mask"@ +
            decimal(k) +
            "_v), tgt"@ +
            decimal(k) +
            "_v);\n          acc"@ +
            decimal(k) +
            " += (uint64_t)__builtin_popcount((unsigned)_mm256_movemask_epi8(cmp)); }\n"@
    } else if op == VectorOp::Cardinality {
        "        { __m256i cmp = _mm256_cmpeq_epi8(chunk, tgt"@ +
            decimal(k) +
            "_v);\n          acc"@ +
            decimal(k) +
            " += (uint64_t)__builtin_popcount((unsigned)_mm256_movemask_epi8(cmp)); }\n"@
    } else if op == VectorOp::Sum {
        "        acc"@ +
            decimal(k) +
            "_v = _mm256_add_epi64(acc"@ +
            decimal(k) +
            "_v, _mm256_sad_epu8(chunk, zero));\n"@
    } else {
        "        { __m256i cmp = _mm256_cmpeq_epi8(chunk, tgt"@ +
            decimal(k) +
            "_v);\n          if (_mm256_movemask_epi8(cmp) != -1) acc"@ +
            decimal(k) +
            " = 0; }\n"@
    }
}

fn build_fused_body32(k: usize, op: VectorOp, masked: bool) -> (s: String)
    ensures
        s@ == fused_body32(k as nat, op, masked),
{
    if op == VectorOp::Cardinality && masked {
        let mut s = owned("        { __m256i cmp = _mm256_cmpeq_epi8(_mm256_and_si256(chunk, mask");
        push_usize(&mut s, k);
        s.append("_v), tgt");
        push_usize(&mut s, k);
        s.append("_v);\n          acc");
        push_usize(&mut s, k);
        s.append(" += (uint64_t)__builtin_popcount((unsigned)_mm256_movemask_epi8(cmp)); }\n");
        s
    } else if op == VectorOp::Cardinality {
        let mut s = owned("        { __m256i cmp = _mm256_cmpeq_epi8(chunk, tgt");
        push_usize(&mut s, k);
        s.append("_v);\n          acc");
        push_usize(&mut s, k);
        s.append(" += (uint64_t)__builtin_popcount((unsigned)_mm256_movemask_epi8(cmp)); }\n");
        s
    } else if op == VectorOp::Sum {
        let mut s = owned("        acc");
        push_usize(&mut s, k);
        s.append("_v = _mm256_add_epi64(acc");
        push_usize(&mut s, k);
        s.append("_v, _mm256_sad_epu8(chunk, zero));\n");
        s
    } else {
        let mut s = owned("        { __m256i cmp = _mm256_cmpeq_epi8(chunk, tgt");
        push_usize(&mut s, k);
        s.append("_v);\n          if (_mm256_movemask_epi8(cmp) != -1) acc");
        push_usize(&mut s, k);
        s.append(" = 0; }\n");
        s
    }
}

/// Horizontal reduction of a sum member's 256-bit accumulator in the fused pass (sum members only).
pub open spec fn fused_sum_merge(k: nat, op: VectorOp) -> Seq<char> {
    if op == VectorOp::Sum {
        "    { __m128i lo = _mm256_castsi256_si128(acc"@ +
            decimal(k) +
            "_v);\n      __m128i hi = _mm256_extracti128_si256(acc"@ +
            decimal(k) +
            "_v, 1);\n      acc"@ +
            decimal(k) +
            " = (uint64_t)_mm_cvtsi128_si64(lo) + (uint64_t)_mm_extract_epi64(lo, 1)\n             + (uint64_t)_mm_cvtsi128_si64(hi) + (uint64_t)_mm_extract_epi64(hi, 1); }\n"@
    } else {
        Seq::empty()
    }
}

fn build_fused_sum_merge(k: usize, op: VectorOp) -> (s: String)
    ensures
        s@ == fused_sum_merge(k as nat, op),
{
    if op == VectorOp::Sum {
        let mut s = owned("    { __m128i lo = _mm256_castsi256_si128(acc");
        push_usize(&mut s, k);
        s.append("_v);\n      __m128i hi = _mm256_extracti128_si256(acc");
        push_usize(&mut s, k);
        s.append("_v, 1);\n      acc");
        push_usize(&mut s, k);
        s.append(" = (uint64_t)_mm_cvtsi128_si64(lo) + (uint64_t)_mm_extract_epi64(lo, 1)\n             + (uint64_t)_mm_cvtsi128_si64(hi) + (uint64_t)_mm_extract_epi64(hi, 1); }\n");
        s
    } else {
        String::new()
    }
}

/// 16-byte tail loop opening of the fused pass.
pub open spec fn fused_head16(buf: Seq<char>, len: Seq<char>) -> Seq<char> {
    "    while (i + 16 <= "@ +
        len +
        ") {\n        __m128i chunk = _mm_loadu_si128((const __m128i *)("@ +
        buf +
        " + i));\n"@
}

fn build_fused_head16(buf: &str, len: &str) -> (s: String)
    ensures
        s@ == fused_head16(buf@, len@),
{
    let mut s = owned("    while (i + 16 <= ");
    s.append(len);
    s.append(") {\n        __m128i chunk = _mm_loadu_si128((const __m128i *)(");
    s.append(buf);
    s.append(" + i));\n");
    s
}

/// 16-byte chunk step of member `k` in the fused pass.
pub open spec fn fused_body16(k: nat, op: VectorOp, masked: bool, m: Seq<char>, t: Seq<char>) -> Seq<char> {
    if op == VectorOp::Cardinality && masked {
        "        __m128i mask"@ +
            decimal(k) +
            "_v = _mm_set1_epi8((char)("@ +
            m +
            "));\n        { __m128i cmp = _mm_cmpeq_epi8(_mm_and_si128(chunk, mask"@ +
            decimal(k) +
            "_v), _mm_set1_epi8((char)("@ +
            t +
            ")));\n          acc"@ +
            decimal(k) +
            " += (uint64_t)__builtin_popcount((unsigned)_mm_movemask_epi8(cmp)); }\n"@
    } else if op == VectorOp::Cardinality {
        "        { __m128i cmp = _mm_cmpeq_epi8(chunk, _mm_set1_epi8((char)("@ +
            t +
            ")));\n          acc"@ +
            decimal(k) +
            " += (uint64_t)__builtin_popcount((unsigned)_mm_movemask_epi8(cmp)); }\n"@
    } else if op == VectorOp::Sum {
        "        { __m128i s = _mm_sad_epu8(chunk, _mm_setzero_si128());\n          acc"@ +
            decimal(k) +
            " += (uint64_t)_mm_cvtsi128_si64(s) + (uint64_t)_mm_extract_epi64(s, 1); }\n"@
    } else {
        "        { __m128i cmp = _mm_cmpeq_epi8(chunk, _mm_set1_epi8((char)("@ +
            t +
            ")));\n          if (_mm_movemask_epi8(cmp) != 0xFFFF) acc"@ +
            decimal(k) +
            " = 0; }\n"@
    }
}

fn build_fused_body16(k: usize, op: VectorOp, masked: bool, m: &str, t: &str) -> (s: String)
    ensures
        s@ == fused_body16(k as nat, op, masked, m@, t@),
{
    if op == VectorOp::Cardinality && masked {
        let mut s = owned("        __m128i mask");
        push_usize(&mut s, k);
        s.append("_v = _mm_set1_epi8((char)(");
        s.append(m);
        s.append("));\n        { __m128i cmp = _mm_cmpeq_epi8(_mm_and_si128(chunk, mask");
        push_usize(&mut s, k);
        s.append("_v), _mm_set1_epi8((char)(");
        s.append(t);
        s.append(")));\n          acc");
        push_usize(&mut s, k);
        s.append(" += (uint64_t)__builtin_popcount((unsigned)_mm_movemask_epi8(cmp)); }\n");
        s
    } else if op == VectorOp::Cardinality {
        let mut s = owned("        { __m128i cmp = _mm_cmpeq_epi8(chunk, _mm_set1_epi8((char)(");
        s.append(t);
        s.append(")));\n          acc");
        push_usize(&mut s, k);
        s.append(" += (uint64_t)__builtin_popcount((unsigned)_mm_movemask_epi8(cmp)); }\n");
        s
    } else if op == VectorOp::Sum {
        let mut s = owned("        { __m128i s = _mm_sad_epu8(chunk, _mm_setzero_si128());\n          acc");
        push_usize(&mut s, k);
        s.append(" += (uint64_t)_mm_cvtsi128_si64(s) + (uint64_t)_mm_extract_epi64(s, 1); }\n");
        s
    } else {
        let mut s = owned("        { __m128i cmp = _mm_cmpeq_epi8(chunk, _mm_set1_epi8((char)(");
        s.append(t);
        s.append(")));\n          if (_mm_movemask_epi8(cmp) != 0xFFFF) acc");
        push_usize(&mut s, k);
        s.append(" = 0; }\n");
        s
    }
}

/// Scalar tail loop opening of the fused pass.
pub open spec fn fused_head_scalar(len: Seq<char>) -> Seq<char> {
    "        i += 16;\n    }\n    while (i < "@ +
        len +
        ") {\n"@
}

fn build_fused_head_scalar(len: &str) -> (s: String)
    ensures
        s@ == fused_head_scalar(len@),
{
    let mut s = owned("        i += 16;\n    }\n    while (i < ");
    s.append(len);
    s.append(") {\n");
    s
}

/// Scalar step of member `k` in the fused pass.
pub open spec fn fused_scalar(k: nat, op: VectorOp, masked: bool, buf: Seq<char>, m: Seq<char>, t: Seq<char>) -> Seq<char> {
    if op == VectorOp::Cardinality && masked {
        "        acc"@ +
            decimal(k) +
            " += (("@ +
            buf +
            "[i] & ("@ +
            m +
            ")) == ("@ +
            t +
            "));\n"@
    } else if op == VectorOp::Cardinality {
        "        acc"@ +
            decimal(k) +
            " += ("@ +
            buf +
            "[i] == ("@ +
            t +
            "));\n"@
    } else if op == VectorOp::Sum {
        "        acc"@ +
            decimal(k) +
            " += "@ +
            buf +
            "[i];\n"@
    } else {
        "        if ("@ +
            buf +
            "[i] != ("@ +
            t +
            ")) acc"@ +
            decimal(k) +
            " = 0;\n"@
    }
}

fn build_fused_scalar(k: usize, op: VectorOp, masked: bool, buf: &str, m: &str, t: &str) -> (s: String)
    ensures
        s@ == fused_scalar(k as nat, op, masked, buf@, m@, t@),
{
    if op == VectorOp::Cardinality && masked {
        let mut s = owned("        acc");
        push_usize(&mut s, k);
        s.append(" += ((");
        s.append(buf);
        s.append("[i] & (");
        s.append(m);
        s.append(")) == (");
        s.append(t);
        s.append("));\n");
        s
    } else if op == VectorOp::Cardinality {
        let mut s = owned("        acc");
        push_usize(&mut s, k);
        s.append(" += (");
        s.append(buf);
        s.append("[i] == (");
        s.append(t);
        s.append("));\n");
        s
    } else if op == VectorOp::Sum {
        let mut s = owned("        acc");
        push_usize(&mut s, k);
        s.append(" += ");
        s.append(buf);
        s.append("[i];\n");
        s
    } else {
        let mut s = owned("        if (");
        s.append(buf);
        s.append("[i] != (");
        s.append(t);
        s.append(")) acc");
        push_usize(&mut s, k);
        s.append(" = 0;\n");
        s
    }
}

/// Copy of accumulator `k` into output slot `slot`.
pub open spec fn out_line(slot: nat, k: nat) -> Seq<char> {
    "    out["@ +
        decimal(slot) +
        "] = acc"@ +
        decimal(k) +
        ";\n"@
}

fn build_out_line(slot: usize, k: usize) -> (s: String)
    ensures
        s@ == out_line(slot as nat, k as nat),
{
    let mut s = owned("    out[");
    push_usize(&mut s, slot);
    s.append("] = acc");
    push_usize(&mut s, k);
    s.append(";\n");
    s
}

/// Opening of an independent-loops function, up to its parameter list.
pub open spec fn indep_set_head(prefix: Seq<char>, kernel: Seq<char>) -> Seq<char> {
    "/* Gate 6B independent per-region loops */\n#include <stdint.h>\n#include <immintrin.h>\n\nstatic void absac_"@ +
        prefix +
        "_"@ +
        kernel +
        "("@
}

fn build_indep_set_head(prefix: &str, kernel: &str) -> (s: String)
    ensures
        s@ == indep_set_head(prefix@, kernel@),
{
    let mut s = owned("/* Gate 6B independent per-region loops */\n#include <stdint.h>\n#include <immintrin.h>\n\nstatic void absac_");
    s.append(prefix);
    s.append("_");
    s.append(kernel);
    s.append("(");
    s
}

/// Opening of the scalar reference function, up to its parameter list.
pub open spec fn ref_head(kernel: Seq<char>) -> Seq<char> {
    "/* Gate 6B scalar reference oracle */\n#include <stdint.h>\n\nvoid "@ +
        kernel +
        "_ref("@
}

fn build_ref_head(kernel: &str) -> (s: String)
    ensures
        s@ == ref_head(kernel@),
{
    let mut s = owned("/* Gate 6B scalar reference oracle */\n#include <stdint.h>\n\nvoid ");
    s.append(kernel);
    s.append("_ref(");
    s
}

/// Scalar reference loop of member `k`.
pub open spec fn ref_member(k: nat, op: VectorOp, masked: bool, buf: Seq<char>, len: Seq<char>, m: Seq<char>, t: Seq<char>) -> Seq<char> {
    if op == VectorOp::Cardinality && masked {
        "    uint64_t acc"@ +
            decimal(k) +
            " = 0;\n    for (uint64_t j = 0; j < "@ +
            len +
            "; j++) acc"@ +
            decimal(k) +
            " += (("@ +
            buf +
            "[j] & ("@ +
            m +
            ")) == ("@ +
            t +
            "));\n"@
    } else if op == VectorOp::Cardinality {
        "    uint64_t acc"@ +
            decimal(k) +
            " = 0;\n    for (uint64_t j = 0; j < "@ +
            len +
            "; j++) acc"@ +
            decimal(k) +
            " += ("@ +
            buf +
            "[j] == ("@ +
            t +
            "));\n"@
    } else if op == VectorOp::Sum {
        "    uint64_t acc"@ +
            decimal(k) +
            " = 0;\n    for (uint64_t j = 0; j < "@ +
            len +
            "; j++) acc"@ +
            decimal(k) +
            " += "@ +
            buf +
            "[j];\n"@
    } else {
        "    uint64_t acc"@ +
            decimal(k) +
            " = 1;\n    for (uint64_t j = 0; j < "@ +
            len +
            "; j++) if ("@ +
            buf +
            "[j] != ("@ +
            t +
            ")) acc"@ +
            decimal(k) +
            " = 0;\n"@
    }
}

fn build_ref_member(k: usize, op: VectorOp, masked: bool, buf: &str, len: &str, m: &str, t: &str) -> (s: String)
    ensures
        s@ == ref_member(k as nat, op, masked, buf@, len@, m@, t@),
{
    if op == VectorOp::Cardinality && masked {
        let mut s = owned("    uint64_t acc");
        push_usize(&mut s, k);
        s.append(" = 0;\n    for (uint64_t j = 0; j < ");
        s.append(len);
        s.append("; j++) acc");
        push_usize(&mut s, k);
        s.append(" += ((");
        s.append(buf);
        s.append("[j] & (");
        s.append(m);
        s.append(")) == (");
        s.append(t);
        s.append("));\n");
        s
    } else if op == VectorOp::Cardinality {
        let mut s = owned("    uint64_t acc");
        push_usize(&mut s, k);
        s.append(" = 0;\n    for (uint64_t j = 0; j < ");
        s.append(len);
        s.append("; j++) acc");
        push_usize(&mut s, k);
        s.append(" += (");
        s.append(buf);
        s.append("[j] == (");
        s.append(t);
        s.append("));\n");
        s
    } else if op == VectorOp::Sum {
        let mut s = owned("    uint64_t acc");
        push_usize(&mut s, k);
        s.append(" = 0;\n    for (uint64_t j = 0; j < ");
        s.append(len);
        s.append("; j++) acc");
        push_usize(&mut s, k);
        s.append(" += ");
        s.append(buf);
        s.append("[j];\n");
        s
    } else {
        let mut s = owned("    uint64_t acc");
        push_usize(&mut s, k);
        s.append(" = 1;\n    for (uint64_t j = 0; j < ");
        s.append(len);
        s.append("; j++) if (");
        s.append(buf);
        s.append("[j] != (");
        s.append(t);
        s.append(")) acc");
        push_usize(&mut s, k);
        s.append(" = 0;\n");
        s
    }
}

/// Call of the reference function.
pub open spec fn ref_call(kernel: Seq<char>, args: Seq<char>) -> Seq<char> {
    kernel +
        "_ref("@ +
        args +
        ", out_ref)"@
}

fn build_ref_call(kernel: &str, args: &str) -> (s: String)
    ensures
        s@ == ref_call(kernel@, args@),
{
    let mut s = owned(kernel);
    s.append("_ref(");
    s.append(args);
    s.append(", out_ref)");
    s
}

/// Call of the fused function in the differential loop.
pub open spec fn fused_call(kernel: Seq<char>, args: Seq<char>) -> Seq<char> {
    "absac_fused_"@ +
        kernel +
        "("@ +
        args +
        ", out_impl);\n            "@
}

fn build_fused_call(kernel: &str, args: &str) -> (s: String)
    ensures
        s@ == fused_call(kernel@, args@),
{
    let mut s = owned("absac_fused_");
    s.append(kernel);
    s.append("(");
    s.append(args);
    s.append(", out_impl);\n            ");
    s
}

/// Call of the independent-loops function in the differential loop.
pub open spec fn threevec_call(kernel: Seq<char>, args: Seq<char>) -> Seq<char> {
    "absac_threevec_"@ +
        kernel +
        "("@ +
        args +
        ", out_impl);\n            "@
}

fn build_threevec_call(kernel: &str, args: &str) -> (s: String)
    ensures
        s@ == threevec_call(kernel@, args@),
{
    let mut s = owned("absac_threevec_");
    s.append(kernel);
    s.append("(");
    s.append(args);
    s.append(", out_impl);\n            ");
    s
}

/// Call of the fused function in the timing loop.
pub open spec fn fused_call_bench(kernel: Seq<char>, args: Seq<char>) -> Seq<char> {
    "absac_fused_"@ +
        kernel +
        "("@ +
        args +
        ", out_impl);\n                "@
}

fn build_fused_call_bench(kernel: &str, args: &str) -> (s: String)
    ensures
        s@ == fused_call_bench(kernel@, args@),
{
    let mut s = owned("absac_fused_");
    s.append(kernel);
    s.append("(");
    s.append(args);
    s.append(", out_impl);\n                ");
    s
}

/// Call of the independent-loops function in the timing loop.
pub open spec fn threevec_call_bench(kernel: Seq<char>, args: Seq<char>) -> Seq<char> {
    "absac_threevec_"@ +
        kernel +
        "("@ +
        args +
        ", out_impl);\n                "@
}

fn build_threevec_call_bench(kernel: &str, args: &str) -> (s: String)
    ensures
        s@ == threevec_call_bench(kernel@, args@),
{
    let mut s = owned("absac_threevec_");
    s.append(kernel);
    s.append("(");
    s.append(args);
    s.append(", out_impl);\n                ");
    s
}

/// Call of the engine-0 function in the timing loop.
pub open spec fn engine0_call_bench(kernel: Seq<char>, args: Seq<char>) -> Seq<char> {
    "absac_engine0_"@ +
        kernel +
        "("@ +
        args +
        ", out_3v);"@
}

fn build_engine0_call_bench(kernel: &str, args: &str) -> (s: String)
    ensures
        s@ == engine0_call_bench(kernel@, args@),
{
    let mut s = owned("absac_engine0_");
    s.append(kernel);
    s.append("(");
    s.append(args);
    s.append(", out_3v);");
    s
}

#[verifier::opaque]
/// The driver's `main`: differential checks over seven byte patterns and nineteen sizes, then timing of engine 0 against the plan.
pub open spec fn driver_main(n: nat, last: nat, kernel: Seq<char>, ref_call: Seq<char>, plan_calls: Seq<char>, plan_calls_bench: Seq<char>, engine0_call_bench: Seq<char>, equal_fill: Seq<char>) -> Seq<char> {
    "\nint main(void) {\n    { cpu_set_t cs; CPU_ZERO(&cs); CPU_SET(0, &cs); sched_setaffinity(0, sizeof(cs), &cs); }\n    const uint64_t NMAX = 1u << 20;\n    uint8_t *buf = (uint8_t *)aligned_alloc(64, NMAX);\n    uint64_t out_ref["@ +
        decimal(n) +
        "], out_3v["@ +
        decimal(n) +
        "], out_impl["@ +
        decimal(n) +
        "];\n    uint64_t checks = 0, failures = 0;\n    uint64_t sizes[] = {0,1,15,16,17,31,32,33,63,64,65,127,128,129,255,256,257,4096,65536};\n    int patterns = 7;\n    for (int p = 0; p < patterns; p++) {\n        for (int s = 0; s < (int)(sizeof(sizes)/sizeof(sizes[0])); s++) {\n            uint64_t n = sizes[s];\n            for (uint64_t j = 0; j < NMAX; j++) {\n                switch (p) {\n                    case 0: buf[j] = (uint8_t)((j * 2654435761u) >> 13); break;   /* pseudo-random */\n                    case 1: buf[j] = 0; break;                                     /* zeros */\n                    case 2: buf[j] = 0x42; break;                                  /* all = val */\n                    case 3: buf[j] = 0x05; break;                                  /* all = target */\n                    case 4: buf[j] = (j & 1) ? 0xFF : 0x00; break;                 /* alternating */\n                    case 5: buf[j] = (j == 0) ? 0x42 : 0x00; break;                /* single hit head */\n                    default: buf[j] = (j + 1 == NMAX) ? 0x42 : 0x00; break;        /* single hit tail */\n                }\n            }\n            "@ +
        ref_call +
        ";\n            "@ +
        plan_calls +
        "\n            for (int k = 0; k < "@ +
        decimal(n) +
        "; k++) {\n                checks++;\n                if (out_impl[k] != out_ref[k]) {\n                    if (failures < 8) printf(\"CORRECTNESS_FAIL kernel="@ +
        kernel +
        " path=plan pattern=%d n=%llu member=%d ref=%llu got=%llu\\n\", p, (unsigned long long)n, k, (unsigned long long)out_ref[k], (unsigned long long)out_impl[k]);\n                    failures++;\n                }\n            }\n        }\n    }\n    printf(\"CORRECTNESS %s checks=%llu failures=%llu\\n\", failures ? \"FAIL\" : \"OK\", (unsigned long long)checks, (unsigned long long)failures);\n\n    uint64_t bench_sizes[] = {4096, 65536};\n    for (int b = 0; b < 2; b++) {\n        uint64_t n = bench_sizes[b];\n        for (int dist = 0; dist < 2; dist++) {\n            for (uint64_t j = 0; j < NMAX; j++) {\n                buf[j] = dist ? (uint8_t)("@ +
        equal_fill +
        ") : (uint8_t)((j * 2654435761u) >> 13);\n            }\n            double t3[25], tf[25];\n            uint64_t iters = 5000;\n            volatile uint64_t offset = 0;\n            for (int t = 0; t < 25; t++) {\n                double t0 = now_sec();\n                for (uint64_t it = 0; it < iters; it++) {\n                    offset = (offset + 1) & 0xFFF;\n                    "@ +
        engine0_call_bench +
        "\n                    g_sink ^= out_3v[0] ^ out_3v["@ +
        decimal(last) +
        "];\n                }\n                t3[t] = (now_sec()-t0)/(double)iters*1e9;\n                double t1 = now_sec();\n                for (uint64_t it = 0; it < iters; it++) {\n                    offset = (offset + 1) & 0xFFF;\n                    "@ +
        plan_calls_bench +
        "g_sink ^= out_impl[0] ^ out_impl["@ +
        decimal(last) +
        "];\n                }\n                tf[t] = (now_sec()-t1)/(double)iters*1e9;\n            }\n            for (int a = 0; a < 24; a++) for (int c = a+1; c < 25; c++) {\n                if (t3[c] < t3[a]) { double tmp=t3[a]; t3[a]=t3[c]; t3[c]=tmp; }\n                if (tf[c] < tf[a]) { double tmp=tf[a]; tf[a]=tf[c]; tf[c]=tmp; }\n            }\n            printf(\"BENCH kernel="@ +
        kernel +
        " n=%llu dist=%s engine0_ns=%.2f plan_ns=%.2f ratio=%.4f\\n\",\n                (unsigned long long)n, dist ? \"equal\" : \"random\", t3[12], tf[12], tf[12]/t3[12]);\n        }\n    }\n    free(buf);\n    return failures ? 1 : 0;\n}\n"@
}

fn build_driver_main(n: usize, last: usize, kernel: &str, ref_call: &str, plan_calls: &str, plan_calls_bench: &str, engine0_call_bench: &str, equal_fill: &str) -> (s: String)
    ensures
        s@ == driver_main(n as nat, last as nat, kernel@, ref_call@, plan_calls@, plan_calls_bench@, engine0_call_bench@, equal_fill@),
{
    reveal(driver_main);
    let mut s = owned("\nint main(void) {\n    { cpu_set_t cs; CPU_ZERO(&cs); CPU_SET(0, &cs); sched_setaffinity(0, sizeof(cs), &cs); }\n    const uint64_t NMAX = 1u << 20;\n    uint8_t *buf = (uint8_t *)aligned_alloc(64, NMAX);\n    uint64_t out_ref[");
    push_usize(&mut s, n);
    s.append("], out_3v[");
    push_usize(&mut s, n);
    s.append("], out_impl[");
    push_usize(&mut s, n);
    s.append("];\n    uint64_t checks = 0, failures = 0;\n    uint64_t sizes[] = {0,1,15,16,17,31,32,33,63,64,65,127,128,129,255,256,257,4096,65536};\n    int patterns = 7;\n    for (int p = 0; p < patterns; p++) {\n        for (int s = 0; s < (int)(sizeof(sizes)/sizeof(sizes[0])); s++) {\n            uint64_t n = sizes[s];\n            for (uint64_t j = 0; j < NMAX; j++) {\n                switch (p) {\n                    case 0: buf[j] = (uint8_t)((j * 2654435761u) >> 13); break;   /* pseudo-random */\n                    case 1: buf[j] = 0; break;                                     /* zeros */\n                    case 2: buf[j] = 0x42; break;                                  /* all = val */\n                    case 3: buf[j] = 0x05; break;                                  /* all = target */\n                    case 4: buf[j] = (j & 1) ? 0xFF : 0x00; break;                 /* alternating */\n                    case 5: buf[j] = (j == 0) ? 0x42 : 0x00; break;                /* single hit head */\n                    default: buf[j] = (j + 1 == NMAX) ? 0x42 : 0x00; break;        /* single hit tail */\n                }\n            }\n            ");
    s.append(ref_call);
    s.append(";\n            ");
    s.append(plan_calls);
    s.append("\n            for (int k = 0; k < ");
    push_usize(&mut s, n);
    s.append("; k++) {\n                checks++;\n                if (out_impl[k] != out_ref[k]) {\n                    if (failures < 8) printf(\"CORRECTNESS_FAIL kernel=");
    s.append(kernel);
    s.append(" path=plan pattern=%d n=%llu member=%d ref=%llu got=%llu\\n\", p, (unsigned long long)n, k, (unsigned long long)out_ref[k], (unsigned long long)out_impl[k]);\n                    failures++;\n                }\n            }\n        }\n    }\n    printf(\"CORRECTNESS %s checks=%llu failures=%llu\\n\", failures ? \"FAIL\" : \"OK\", (unsigned long long)checks, (unsigned long long)failures);\n\n    uint64_t bench_sizes[] = {4096, 65536};\n    for (int b = 0; b < 2; b++) {\n        uint64_t n = bench_sizes[b];\n        for (int dist = 0; dist < 2; dist++) {\n            for (uint64_t j = 0; j < NMAX; j++) {\n                buf[j] = dist ? (uint8_t)(");
    s.append(equal_fill);
    s.append(") : (uint8_t)((j * 2654435761u) >> 13);\n            }\n            double t3[25], tf[25];\n            uint64_t iters = 5000;\n            volatile uint64_t offset = 0;\n            for (int t = 0; t < 25; t++) {\n                double t0 = now_sec();\n                for (uint64_t it = 0; it < iters; it++) {\n                    offset = (offset + 1) & 0xFFF;\n                    ");
    s.append(engine0_call_bench);
    s.append("\n                    g_sink ^= out_3v[0] ^ out_3v[");
    push_usize(&mut s, last);
    s.append("];\n                }\n                t3[t] = (now_sec()-t0)/(double)iters*1e9;\n                double t1 = now_sec();\n                for (uint64_t it = 0; it < iters; it++) {\n                    offset = (offset + 1) & 0xFFF;\n                    ");
    s.append(plan_calls_bench);
    s.append("g_sink ^= out_impl[0] ^ out_impl[");
    push_usize(&mut s, last);
    s.append("];\n                }\n                tf[t] = (now_sec()-t1)/(double)iters*1e9;\n            }\n            for (int a = 0; a < 24; a++) for (int c = a+1; c < 25; c++) {\n                if (t3[c] < t3[a]) { double tmp=t3[a]; t3[a]=t3[c]; t3[c]=tmp; }\n                if (tf[c] < tf[a]) { double tmp=tf[a]; tf[a]=tf[c]; tf[c]=tmp; }\n            }\n            printf(\"BENCH kernel=");
    s.append(kernel);
    s.append(" n=%llu dist=%s engine0_ns=%.2f plan_ns=%.2f ratio=%.4f\\n\",\n                (unsigned long long)n, dist ? \"equal\" : \"random\", t3[12], tf[12], tf[12]/t3[12]);\n        }\n    }\n    free(buf);\n    return failures ? 1 : 0;\n}\n");
    s
}

} // verus!

verus! {

// ── Emitters ────────────────────────────────────────────────────────────

/// The plan of region `m` (meaningful where it has one).
pub open spec fn plan_at(rs: Seq<RegionPlan>, m: usize) -> VectorPlan {
    rs[m as int].plan->0
}

/// The first member, from position `i` of `ord` on, whose region has no plan.
pub open spec fn first_unplanned(rs: Seq<RegionPlan>, ord: Seq<usize>, i: int) -> Option<nat>
    decreases ord.len() - i,
{
    if i < 0 || i >= ord.len() {
        None
    } else if rs[ord[i] as int].plan is None {
        Some(ord[i] as nat)
    } else {
        first_unplanned(rs, ord, i + 1)
    }
}

/// Whether every member's region has a plan.
pub open spec fn all_planned(rs: Seq<RegionPlan>, ord: Seq<usize>) -> bool {
    forall|k: int| 0 <= k < ord.len() ==> (#[trigger] rs[ord[k] as int]).plan is Some
}

/// Whether every cardinality and `All` member has a target expression.
pub open spec fn targets_present(rs: Seq<RegionPlan>, ord: Seq<usize>) -> bool {
    forall|k: int|
        0 <= k < ord.len() ==> (plan_at(rs, #[trigger] ord[k]).operation != VectorOp::Sum ==> pred_target(
            plan_at(rs, ord[k]).predicate,
        ) is Some)
}

/// The first position of `x` in `all` at or after `j`.
pub open spec fn position_from(all: Seq<usize>, x: usize, j: int) -> Option<int>
    decreases all.len() - j,
{
    if j < 0 || j >= all.len() {
        None
    } else if all[j] == x {
        Some(j)
    } else {
        position_from(all, x, j + 1)
    }
}

/// Output slot of the member at position `k`: its position in `all`, or `k`.
pub open spec fn slot_of(all: Seq<usize>, x: usize, k: nat) -> nat {
    match position_from(all, x, 0) {
        Some(j) => j as nat,
        None => k,
    }
}

/// The text one member at position `k` contributes to section `sec`:
/// 0 fused setup, 1 fused 32-byte step, 2 fused sum merge, 3 fused 16-byte
/// step, 4 fused scalar step, 5 independent loop and its output copy,
/// 6 output copy to the member's slot, 7 reference loop, 8 output copy to
/// slot `k`.
pub open spec fn member_piece(sec: nat, k: nat, p: VectorPlan, buf: Seq<char>, len: Seq<char>, slot: nat) -> Seq<char> {
    let op = p.operation;
    let m = pred_mask(p.predicate);
    let t = pred_target(p.predicate);
    let masked = m is Some;
    if sec == 0 {
        acc_setup(k, op) + opt_mask_setup(k, m) + opt_target_setup(k, t)
    } else if sec == 1 {
        fused_body32(k, op, masked)
    } else if sec == 2 {
        fused_sum_merge(k, op)
    } else if sec == 3 {
        fused_body16(k, op, masked, or_empty(m), or_empty(t))
    } else if sec == 4 {
        fused_scalar(k, op, masked, buf, or_empty(m), or_empty(t))
    } else if sec == 5 {
        indep_loop_text(k, p, buf, len) + out_line(slot, k)
    } else if sec == 6 {
        out_line(slot, k)
    } else if sec == 7 {
        ref_member(k, op, masked, buf, len, or_empty(m), or_empty(t))
    } else {
        out_line(k, k)
    }
}

/// Section `sec` for the members `ord`, in order.
pub open spec fn sections(sec: nat, rs: Seq<RegionPlan>, ord: Seq<usize>, buf: Seq<char>, len: Seq<char>, all: Seq<usize>) -> Seq<char>
    decreases ord.len(),
{
    if ord.len() == 0 {
        Seq::empty()
    } else {
        let k = (ord.len() - 1) as nat;
        sections(sec, rs, ord.drop_last(), buf, len, all) + member_piece(
            sec,
            k,
            plan_at(rs, ord.last()),
            buf,
            len,
            slot_of(all, ord.last(), k),
        )
    }
}

/// Parameter declarations each followed by `, ` (the fused signature).
pub open spec fn params_trailing(ps: Seq<RegionParam>) -> Seq<char>
    decreases ps.len(),
{
    if ps.len() == 0 {
        Seq::empty()
    } else {
        let i = (ps.len() - 1) as nat;
        params_trailing(ps.drop_last()) + param_decl(ps.last().c_type@, emitted_param_name(ps.last().name@, i))
            + ", "@
    }
}

/// Parameter declarations separated by `, `.
pub open spec fn params_joined(ps: Seq<RegionParam>) -> Seq<char>
    decreases ps.len(),
{
    if ps.len() == 0 {
        Seq::empty()
    } else {
        let i = (ps.len() - 1) as nat;
        let d = param_decl(ps.last().c_type@, emitted_param_name(ps.last().name@, i));
        if ps.len() == 1 {
            d
        } else {
            params_joined(ps.drop_last()) + ", "@ + d
        }
    }
}

/// The fused pass for members in canonical order `ord` (buffer and length
/// from the first member's plan).
pub open spec fn fused_text(kernel: Seq<char>, rs: Seq<RegionPlan>, ord: Seq<usize>, all: Seq<usize>) -> Seq<char> {
    let p0 = plan_at(rs, ord[0]);
    let buf = p0.buffer_name@;
    let len = p0.length_name@;
    fused_head(kernel) + params_trailing(rs[ord[0] as int].params@) + "uint64_t *out) {\n"@ + sections(
        0,
        rs,
        ord,
        buf,
        len,
        all,
    ) + fused_loop_head(buf, len) + sections(1, rs, ord, buf, len, all) + "        i += 32;\n    }\n"@
        + sections(2, rs, ord, buf, len, all) + fused_head16(buf, len) + sections(3, rs, ord, buf, len, all)
        + fused_head_scalar(len) + sections(4, rs, ord, buf, len, all) + "        i++;\n    }\n"@ + sections(
        6,
        rs,
        ord,
        buf,
        len,
        all,
    ) + "}\n"@
}

/// What `emit_fused` gives: the fused pass, or the error for fewer than two
/// members or for the first member without a plan.
pub open spec fn fused_result(kernel: Seq<char>, rs: Seq<RegionPlan>, ms: Seq<usize>, all: Seq<usize>) -> Result<Seq<char>, Seq<char>> {
    let ord = spec_member_order(rs, ms);
    if ord.len() < 2 {
        Err("fusion needs at least two members"@)
    } else {
        match first_unplanned(rs, ord, 0) {
            Some(m) => Err(no_plan_error(m)),
            None => Ok(fused_text(kernel, rs, ord, all)),
        }
    }
}

proof fn lemma_first_unplanned(rs: Seq<RegionPlan>, ord: Seq<usize>, i: int)
    requires
        0 <= i <= ord.len(),
        forall|k: int| 0 <= k < i ==> (#[trigger] rs[ord[k] as int]).plan is Some,
    ensures
        first_unplanned(rs, ord, i) is None <==> all_planned(rs, ord),
    decreases ord.len() - i,
{
    if i < ord.len() {
        if rs[ord[i] as int].plan is Some {
            lemma_first_unplanned(rs, ord, i + 1);
        }
    }
}

/// The first member of `ord` without a plan, if any.
fn find_unplanned(regions: &[RegionPlan], ord: &Vec<usize>) -> (r: Option<usize>)
    requires
        members_below(ord@, regions@.len() as int),
    ensures
        match r {
            Some(m) => first_unplanned(regions@, ord@, 0) == Some(m as nat),
            None => first_unplanned(regions@, ord@, 0) is None && all_planned(regions@, ord@),
        },
{
    proof {
        lemma_first_unplanned(regions@, ord@, 0);
    }
    let mut i: usize = 0;
    while i < ord.len()
        invariant
            i <= ord@.len(),
            members_below(ord@, regions@.len() as int),
            first_unplanned(regions@, ord@, 0) == first_unplanned(regions@, ord@, i as int),
            forall|k: int| 0 <= k < i ==> (#[trigger] regions@[ord@[k] as int]).plan is Some,
        decreases ord@.len() - i,
    {
        if regions[ord[i]].plan.is_none() {
            return Some(ord[i]);
        }
        i += 1;
    }
    proof {
        lemma_first_unplanned(regions@, ord@, ord@.len() as int);
    }
    None
}

fn slot_in(all: &[usize], x: usize, k: usize) -> (s: usize)
    ensures
        s as nat == slot_of(all@, x, k as nat),
{
    let mut j: usize = 0;
    while j < all.len()
        invariant
            j <= all@.len(),
            position_from(all@, x, 0) == position_from(all@, x, j as int),
        decreases all@.len() - j,
    {
        if all[j] == x {
            return j;
        }
        j += 1;
    }
    k
}

fn build_member_piece(sec: u8, k: usize, p: &VectorPlan, buf: &str, len: &str, slot: usize) -> (s: String)
    ensures
        s@ == member_piece(sec as nat, k as nat, *p, buf@, len@, slot as nat),
{
    let (mask, target) = predicate_exprs(p);
    let op = p.operation;
    let masked = mask.is_some();
    let m = text_or_empty(&mask);
    let t = text_or_empty(&target);
    proof {
        assert(match mask { Some(x) => Some(x@), None => None } == pred_mask(p.predicate));
        assert(match target { Some(x) => Some(x@), None => None } == pred_target(p.predicate));
        assert(m@ == or_empty(pred_mask(p.predicate)));
        assert(t@ == or_empty(pred_target(p.predicate)));
    }
    if sec == 0 {
        let mut s = build_acc_setup(k, op);
        s.append(build_opt_mask_setup(k, &mask).as_str());
        s.append(build_opt_target_setup(k, &target).as_str());
        s
    } else if sec == 1 {
        build_fused_body32(k, op, masked)
    } else if sec == 2 {
        build_fused_sum_merge(k, op)
    } else if sec == 3 {
        build_fused_body16(k, op, masked, m, t)
    } else if sec == 4 {
        build_fused_scalar(k, op, masked, buf, m, t)
    } else if sec == 5 {
        let mut s = String::new();
        let r = emit_independent_loop(&mut s, k, p, buf, len);
        s.append(build_out_line(slot, k).as_str());
        assert(s@ =~= indep_loop_text(k as nat, *p, buf@, len@) + out_line(slot as nat, k as nat));
        s
    } else if sec == 6 {
        build_out_line(slot, k)
    } else if sec == 7 {
        build_ref_member(k, op, masked, buf, len, m, t)
    } else {
        build_out_line(k, k)
    }
}

fn build_sections(sec: u8, regions: &[RegionPlan], ord: &Vec<usize>, buf: &str, len: &str, all: &[usize]) -> (s: String)
    requires
        members_below(ord@, regions@.len() as int),
        all_planned(regions@, ord@),
    ensures
        s@ == sections(sec as nat, regions@, ord@, buf@, len@, all@),
{
    let mut s = String::new();
    let mut k: usize = 0;
    assert(s@ =~= sections(sec as nat, regions@, ord@.subrange(0, 0), buf@, len@, all@));
    while k < ord.len()
        invariant
            k <= ord@.len(),
            members_below(ord@, regions@.len() as int),
            all_planned(regions@, ord@),
            s@ == sections(sec as nat, regions@, ord@.subrange(0, k as int), buf@, len@, all@),
        decreases ord@.len() - k,
    {
        let ghost pre = ord@.subrange(0, k as int + 1);
        assert(pre.drop_last() =~= ord@.subrange(0, k as int));
        let mi = ord[k];
        assert(regions@[ord@[k as int] as int].plan is Some);
        let p = regions[mi].plan.as_ref().unwrap();
        let slot = slot_in(all, mi, k);
        let piece = build_member_piece(sec, k, p, buf, len, slot);
        s.append(piece.as_str());
        k += 1;
    }
    assert(ord@.subrange(0, ord@.len() as int) =~= ord@);
    s
}

fn build_params_trailing(ps: &Vec<RegionParam>) -> (s: String)
    ensures
        s@ == params_trailing(ps@),
{
    let mut s = String::new();
    let mut i: usize = 0;
    assert(s@ =~= params_trailing(ps@.subrange(0, 0)));
    while i < ps.len()
        invariant
            i <= ps@.len(),
            s@ == params_trailing(ps@.subrange(0, i as int)),
        decreases ps@.len() - i,
    {
        let ghost pre = ps@.subrange(0, i as int + 1);
        assert(pre.drop_last() =~= ps@.subrange(0, i as int));
        let nm = c_param_name(ps, i);
        s.append(build_param_decl(ps[i].c_type.as_str(), nm.as_str()).as_str());
        s.append(", ");
        i += 1;
    }
    assert(ps@.subrange(0, ps@.len() as int) =~= ps@);
    s
}

fn build_params_joined(ps: &Vec<RegionParam>) -> (s: String)
    ensures
        s@ == params_joined(ps@),
{
    let mut s = String::new();
    let mut i: usize = 0;
    assert(s@ =~= params_joined(ps@.subrange(0, 0)));
    while i < ps.len()
        invariant
            i <= ps@.len(),
            s@ == params_joined(ps@.subrange(0, i as int)),
        decreases ps@.len() - i,
    {
        let ghost pre = ps@.subrange(0, i as int + 1);
        assert(pre.drop_last() =~= ps@.subrange(0, i as int));
        if i > 0 {
            s.append(", ");
        } else {
            assert(s@ =~= Seq::<char>::empty());
        }
        let nm = c_param_name(ps, i);
        s.append(build_param_decl(ps[i].c_type.as_str(), nm.as_str()).as_str());
        proof {
            if i == 0 {
                assert(s@ =~= params_joined(pre));
            }
        }
        i += 1;
    }
    assert(ps@.subrange(0, ps@.len() as int) =~= ps@);
    s
}

/// Emits the fused single-pass implementation for a compatible member set:
/// one accumulator per member, a shared 32-byte AVX2 main loop, a 16-byte
/// SSE2 tail and a scalar tail; `out[slot]` receives each member's result,
/// `slot` being its position in `all_members` (or its own position).
pub fn emit_fused(kernel: &str, regions: &[RegionPlan], members: &[usize], all_members: &[usize]) -> (r: Result<FusedEmission, String>)
    requires
        members_below(members@, regions@.len() as int),
        all_planned(regions@, members@) ==> targets_present(regions@, members@),
    ensures
        match r {
            Ok(e) => fused_result(kernel@, regions@, members@, all_members@) == Ok::<Seq<char>, Seq<char>>(e.code@)
                && e.ordered_members@ == spec_member_order(regions@, members@),
            Err(e) => fused_result(kernel@, regions@, members@, all_members@) == Err::<Seq<char>, Seq<char>>(e@),
        },
{
    let ordered = member_order(regions, members);
    proof {
        lemma_member_order_members(regions@, members@);
    }
    if ordered.len() < 2 {
        return Err(owned("fusion needs at least two members"));
    }
    match find_unplanned(regions, &ordered) {
        Some(m) => {
            return Err(no_plan_message(m));
        },
        None => {},
    }
    proof {
        lemma_member_order_targets(regions@, members@);
    }
    let first = &regions[ordered[0]];
    let plan0 = regions[ordered[0]].plan.as_ref().unwrap();
    let buf = plan0.buffer_name.as_str();
    let len = plan0.length_name.as_str();
    let mut out = build_fused_head(kernel);
    out.append(build_params_trailing(&first.params).as_str());
    out.append("uint64_t *out) {\n");
    out.append(build_sections(0, regions, &ordered, buf, len, all_members).as_str());
    out.append(build_fused_loop_head(buf, len).as_str());
    out.append(build_sections(1, regions, &ordered, buf, len, all_members).as_str());
    out.append("        i += 32;\n    }\n");
    out.append(build_sections(2, regions, &ordered, buf, len, all_members).as_str());
    out.append(build_fused_head16(buf, len).as_str());
    out.append(build_sections(3, regions, &ordered, buf, len, all_members).as_str());
    out.append(build_fused_head_scalar(len).as_str());
    out.append(build_sections(4, regions, &ordered, buf, len, all_members).as_str());
    out.append("        i++;\n    }\n");
    out.append(build_sections(6, regions, &ordered, buf, len, all_members).as_str());
    out.append("}\n");
    Ok(FusedEmission { code: out, ordered_members: ordered })
}

} // verus!

verus! {

proof fn lemma_with_key_from(rs: Seq<RegionPlan>, ms: Seq<usize>, key: nat)
    ensures
        forall|i: int| 0 <= i < with_key(rs, ms, key).len() ==> ms.contains(#[trigger] with_key(rs, ms, key)[i]),
        forall|j: int| 0 <= j < ms.len() && order_key(rs[ms[j] as int]) == key ==> with_key(rs, ms, key).contains(
            #[trigger] ms[j],
        ),
    decreases ms.len(),
{
    if ms.len() > 0 {
        let d = ms.drop_last();
        lemma_with_key_from(rs, d, key);
        let w = with_key(rs, ms, key);
        let wd = with_key(rs, d, key);
        assert forall|i: int| 0 <= i < w.len() implies ms.contains(#[trigger] w[i]) by {
            if i < wd.len() {
                assert(w[i] == wd[i]);
                let j = choose|j: int| 0 <= j < d.len() && d[j] == wd[i];
                assert(ms[j] == d[j]);
            } else {
                assert(w[i] == ms[ms.len() - 1]);
            }
        }
        assert forall|j: int| 0 <= j < ms.len() && order_key(rs[ms[j] as int]) == key implies w.contains(
            #[trigger] ms[j],
        ) by {
            if j < ms.len() - 1 {
                assert(ms[j] == d[j]);
                assert(wd.contains(d[j]));
                let i = choose|i: int| 0 <= i < wd.len() && wd[i] == d[j];
                assert(w[i] == wd[i]);
            } else {
                assert(w[w.len() - 1] == ms.last());
            }
        }
    }
}

/// The canonical order holds exactly the members.
proof fn lemma_member_order_members(rs: Seq<RegionPlan>, ms: Seq<usize>)
    ensures
        forall|i: int| 0 <= i < spec_member_order(rs, ms).len() ==> ms.contains(
            #[trigger] spec_member_order(rs, ms)[i],
        ),
        forall|j: int| 0 <= j < ms.len() ==> spec_member_order(rs, ms).contains(#[trigger] ms[j]),
        members_below(ms, rs.len() as int) ==> members_below(spec_member_order(rs, ms), rs.len() as int),
{
    let w0 = with_key(rs, ms, 0);
    let w1 = with_key(rs, ms, 1);
    let w2 = with_key(rs, ms, 2);
    let w3 = with_key(rs, ms, 3);
    lemma_with_key_from(rs, ms, 0);
    lemma_with_key_from(rs, ms, 1);
    lemma_with_key_from(rs, ms, 2);
    lemma_with_key_from(rs, ms, 3);
    let o = spec_member_order(rs, ms);
    assert forall|i: int| 0 <= i < o.len() implies ms.contains(#[trigger] o[i]) by {
        if i < w0.len() {
            assert(o[i] == w0[i]);
        } else if i < w0.len() + w1.len() {
            assert(o[i] == w1[i - w0.len()]);
        } else if i < w0.len() + w1.len() + w2.len() {
            assert(o[i] == w2[i - w0.len() - w1.len()]);
        } else {
            assert(o[i] == w3[i - w0.len() - w1.len() - w2.len()]);
        }
    }
    assert forall|j: int| 0 <= j < ms.len() implies o.contains(#[trigger] ms[j]) by {
        let key = order_key(rs[ms[j] as int]);
        if key == 0 {
            let i = choose|i: int| 0 <= i < w0.len() && w0[i] == ms[j];
            assert(o[i] == w0[i]);
        } else if key == 1 {
            let i = choose|i: int| 0 <= i < w1.len() && w1[i] == ms[j];
            assert(o[w0.len() + i] == w1[i]);
        } else if key == 2 {
            let i = choose|i: int| 0 <= i < w2.len() && w2[i] == ms[j];
            assert(o[w0.len() + w1.len() + i] == w2[i]);
        } else {
            let i = choose|i: int| 0 <= i < w3.len() && w3[i] == ms[j];
            assert(o[w0.len() + w1.len() + w2.len() + i] == w3[i]);
        }
    }
    if members_below(ms, rs.len() as int) {
        assert forall|i: int| 0 <= i < o.len() implies #[trigger] o[i] < rs.len() by {
            assert(ms.contains(o[i]));
        }
    }
}

/// Plans and targets of the canonical order are those of the members.
proof fn lemma_member_order_targets(rs: Seq<RegionPlan>, ms: Seq<usize>)
    requires
        all_planned(rs, spec_member_order(rs, ms)),
        all_planned(rs, ms) ==> targets_present(rs, ms),
    ensures
        all_planned(rs, ms),
        targets_present(rs, spec_member_order(rs, ms)),
{
    lemma_member_order_members(rs, ms);
    let o = spec_member_order(rs, ms);
    assert forall|j: int| 0 <= j < ms.len() implies (#[trigger] rs[ms[j] as int]).plan is Some by {
        assert(o.contains(ms[j]));
        let i = choose|i: int| 0 <= i < o.len() && o[i] == ms[j];
        assert(rs[o[i] as int].plan is Some);
    }
    assert forall|i: int| 0 <= i < o.len() implies (plan_at(rs, #[trigger] o[i]).operation != VectorOp::Sum
        ==> pred_target(plan_at(rs, o[i]).predicate) is Some) by {
        assert(ms.contains(o[i]));
        let j = choose|j: int| 0 <= j < ms.len() && ms[j] == o[i];
        assert(plan_at(rs, ms[j]).operation != VectorOp::Sum ==> pred_target(plan_at(rs, ms[j]).predicate) is Some);
    }
}

} // verus!

verus! {

/// The independent-loops function for members in canonical order `ord`,
/// with its signature and buffer taken from region `sig`.
pub open spec fn indep_set_text(prefix: Seq<char>, kernel: Seq<char>, rs: Seq<RegionPlan>, ord: Seq<usize>, sig: usize, all: Seq<usize>) -> Seq<char> {
    let p0 = plan_at(rs, sig);
    indep_set_head(prefix, kernel) + params_joined(rs[sig as int].params@) + ", uint64_t *out) {\n"@
        + sections(5, rs, ord, p0.buffer_name@, p0.length_name@, all) + "}\n"@
}

/// What `emit_independent_set` gives.
pub open spec fn indep_set_result(prefix: Seq<char>, kernel: Seq<char>, rs: Seq<RegionPlan>, ms: Seq<usize>, all: Seq<usize>) -> Result<Seq<char>, Seq<char>> {
    let ord = spec_member_order(rs, ms);
    let sig = if ord.len() == 0 {
        all[0]
    } else {
        ord[0]
    };
    if rs[sig as int].plan is None {
        Err(no_plan_error(sig as nat))
    } else {
        match first_unplanned(rs, ord, 0) {
            Some(m) => Err(no_plan_error(m)),
            None => Ok(indep_set_text(prefix, kernel, rs, ord, sig, all)),
        }
    }
}

/// Emits the deterministic baseline: one function holding each member's
/// independently vectorized loop, exactly as the pipeline would emit them
/// in place for a multi-loop kernel.
pub fn emit_independent_set(prefix: &str, kernel: &str, regions: &[RegionPlan], members: &[usize], all_members: &[usize]) -> (r: Result<String, String>)
    requires
        members_below(members@, regions@.len() as int),
        members_below(all_members@, regions@.len() as int),
        members@.len() > 0 || all_members@.len() > 0,
    ensures
        match r {
            Ok(s) => indep_set_result(prefix@, kernel@, regions@, members@, all_members@) == Ok::<Seq<char>, Seq<char>>(s@),
            Err(e) => indep_set_result(prefix@, kernel@, regions@, members@, all_members@) == Err::<Seq<char>, Seq<char>>(e@),
        },
{
    let ordered = member_order(regions, members);
    proof {
        lemma_member_order_members(regions@, members@);
        if ordered@.len() == 0 && members@.len() > 0 {
            assert(ordered@.contains(members@[0]));
        }
    }
    let signature_member = if ordered.len() == 0 {
        all_members[0]
    } else {
        ordered[0]
    };
    let plan0 = match plan_of(regions, signature_member) {
        Ok(p) => p,
        Err(e) => {
            return Err(e);
        },
    };
    match find_unplanned(regions, &ordered) {
        Some(m) => {
            return Err(no_plan_message(m));
        },
        None => {},
    }
    let buf = plan0.buffer_name.as_str();
    let len = plan0.length_name.as_str();
    let mut out = build_indep_set_head(prefix, kernel);
    out.append(build_params_joined(&regions[signature_member].params).as_str());
    out.append(", uint64_t *out) {\n");
    out.append(build_sections(5, regions, &ordered, buf, len, all_members).as_str());
    out.append("}\n");
    Ok(out)
}

/// The scalar reference oracle for members in canonical order `ord`.
pub open spec fn reference_text(kernel: Seq<char>, rs: Seq<RegionPlan>, ord: Seq<usize>) -> Seq<char> {
    let p0 = plan_at(rs, ord[0]);
    let buf = p0.buffer_name@;
    let len = p0.length_name@;
    ref_head(kernel) + params_joined(rs[ord[0] as int].params@) + ", uint64_t *out) {\n"@ + sections(
        7,
        rs,
        ord,
        buf,
        len,
        ord,
    ) + sections(8, rs, ord, buf, len, ord) + "}\n"@
}

/// What `emit_reference` gives.
pub open spec fn reference_result(kernel: Seq<char>, rs: Seq<RegionPlan>, ms: Seq<usize>) -> Result<Seq<char>, Seq<char>> {
    let ord = spec_member_order(rs, ms);
    match first_unplanned(rs, ord, 0) {
        Some(m) => Err(no_plan_error(m)),
        None => Ok(reference_text(kernel, rs, ord)),
    }
}

/// Emits a scalar reference oracle for each member (independent of the
/// fused and per-region code paths); `out[k]` is the k-th member in
/// canonical order.
pub fn emit_reference(kernel: &str, regions: &[RegionPlan], members: &[usize]) -> (r: Result<String, String>)
    requires
        members@.len() > 0,
        members_below(members@, regions@.len() as int),
        all_planned(regions@, members@) ==> targets_present(regions@, members@),
    ensures
        match r {
            Ok(s) => reference_result(kernel@, regions@, members@) == Ok::<Seq<char>, Seq<char>>(s@),
            Err(e) => reference_result(kernel@, regions@, members@) == Err::<Seq<char>, Seq<char>>(e@),
        },
{
    let ordered = member_order(regions, members);
    proof {
        lemma_member_order_members(regions@, members@);
        assert(ordered@.contains(members@[0]));
    }
    match find_unplanned(regions, &ordered) {
        Some(m) => {
            return Err(no_plan_message(m));
        },
        None => {},
    }
    proof {
        lemma_member_order_targets(regions@, members@);
    }
    let plan0 = regions[ordered[0]].plan.as_ref().unwrap();
    let buf = plan0.buffer_name.as_str();
    let len = plan0.length_name.as_str();
    let mut out = build_ref_head(kernel);
    out.append(build_params_joined(&regions[ordered[0]].params).as_str());
    out.append(", uint64_t *out) {\n");
    out.append(build_sections(7, regions, &ordered, buf, len, ordered.as_slice()).as_str());
    out.append(build_sections(8, regions, &ordered, buf, len, ordered.as_slice()).as_str());
    out.append("}\n");
    Ok(out)
}

} // verus!

verus! {

// ── Driver ──────────────────────────────────────────────────────────────

/// The fill value after considering member `m`: an `All` member's target,
/// or the driver argument it names (`p{i}`), replaces the previous value.
pub open spec fn fill_step(rs: Seq<RegionPlan>, m: usize, args: Seq<Seq<char>>, prev: Seq<char>) -> Seq<char> {
    match rs[m as int].plan {
        Some(p) => if p.operation == VectorOp::All {
            match pred_target(p.predicate) {
                Some(t) => {
                    let digits = trim_start_char(t, 'p');
                    if t.len() > 0 && t[0] == 'p' && parses_usize(digits) {
                        let idx = parse_nat(digits)->0;
                        if idx < args.len() {
                            args[idx as int]
                        } else {
                            prev
                        }
                    } else {
                        t
                    }
                },
                None => prev,
            }
        } else {
            prev
        },
        None => prev,
    }
}

/// The byte value the "equal" benchmark distribution is filled with, after
/// the first `n` members: `0x42` unless an `All` member says otherwise.
pub open spec fn equal_fill(rs: Seq<RegionPlan>, all: Seq<usize>, args: Seq<Seq<char>>, n: int) -> Seq<char>
    decreases n,
{
    if n <= 0 {
        "0x42"@
    } else {
        fill_step(rs, all[n - 1], args, equal_fill(rs, all, args, n - 1))
    }
}

pub open spec fn driver_head() -> Seq<char> {
    "#define _GNU_SOURCE\n#include <stdint.h>\n#include <stdio.h>\n"@
        + "#include <stdlib.h>\n#include <string.h>\n#include <time.h>\n#include <sched.h>\n\n"@
}

pub open spec fn driver_helpers() -> Seq<char> {
    "static volatile uint64_t g_sink = 0;\n"@
        + "static double now_sec(void){struct timespec ts;clock_gettime(CLOCK_MONOTONIC,&ts);return (double)ts.tv_sec+(double)ts.tv_nsec*1e-9;}\n\n"@
}

/// The calls of the plan under test (fused pass, independent loops, or
/// both), each followed by the padding `pad`-style line break.
pub open spec fn plan_calls(kernel: Seq<char>, args: Seq<char>, with_fused: bool, with_indep: bool) -> Seq<char> {
    (if with_fused {
        fused_call(kernel, args)
    } else {
        Seq::empty()
    }) + (if with_indep {
        threevec_call(kernel, args)
    } else {
        Seq::empty()
    })
}

pub open spec fn plan_calls_bench(kernel: Seq<char>, args: Seq<char>, with_fused: bool, with_indep: bool) -> Seq<char> {
    (if with_fused {
        fused_call_bench(kernel, args)
    } else {
        Seq::empty()
    }) + (if with_indep {
        threevec_call_bench(kernel, args)
    } else {
        Seq::empty()
    })
}

#[verifier::opaque]
/// The whole driver, given the three emitted functions.
pub open spec fn driver_text(
    kernel: Seq<char>,
    rs: Seq<RegionPlan>,
    all: Seq<usize>,
    fused_code: Option<Seq<char>>,
    with_fused: bool,
    with_indep: bool,
    threevec: Seq<char>,
    engine0: Seq<char>,
    reference: Seq<char>,
) -> Seq<char> {
    let args = spec_scalar_args(rs, all, "buf"@, "n"@);
    let bench_args = spec_scalar_args(rs, all, "buf + offset"@, "n"@);
    let arg_list = join(args, ", "@);
    let bench_arg_list = join(bench_args, ", "@);
    let n = all.len();
    driver_head() + (match fused_code {
        Some(c) => c + "\n"@,
        None => Seq::empty(),
    }) + threevec + "\n"@ + engine0 + "\n"@ + reference + "\n"@ + driver_helpers() + driver_main(
        n,
        (n - 1) as nat,
        kernel,
        ref_call(kernel, arg_list),
        plan_calls(kernel, arg_list, with_fused, with_indep),
        plan_calls_bench(kernel, bench_arg_list, with_fused, with_indep),
        engine0_call_bench(kernel, bench_arg_list),
        equal_fill(rs, all, args, n as int),
    )
}

/// What `build_driver` gives: the driver, or the first error of the
/// independent-loops, engine-0 or reference emission.
pub open spec fn driver_result(
    kernel: Seq<char>,
    rs: Seq<RegionPlan>,
    fused_members: Seq<usize>,
    independent_members: Seq<usize>,
    all: Seq<usize>,
    fused_code: Option<Seq<char>>,
) -> Result<Seq<char>, Seq<char>> {
    match indep_set_result("threevec"@, kernel, rs, independent_members, all) {
        Err(e) => Err(e),
        Ok(t1) => match indep_set_result("engine0"@, kernel, rs, all, all) {
            Err(e) => Err(e),
            Ok(t2) => match reference_result(kernel, rs, all) {
                Err(e) => Err(e),
                Ok(t3) => Ok(
                    driver_text(
                        kernel,
                        rs,
                        all,
                        fused_code,
                        fused_members.len() > 0,
                        independent_members.len() > 0,
                        t1,
                        t2,
                        t3,
                    ),
                ),
            },
        },
    }
}

fn build_equal_fill(regions: &[RegionPlan], all_members: &[usize], args: &Vec<String>) -> (s: String)
    requires
        members_below(all_members@, regions@.len() as int),
    ensures
        s@ == equal_fill(regions@, all_members@, string_views(args@), all_members@.len() as int),
{
    let ghost av = string_views(args@);
    let mut fill = owned("0x42");
    let mut i: usize = 0;
    while i < all_members.len()
        invariant
            i <= all_members@.len(),
            members_below(all_members@, regions@.len() as int),
            av == string_views(args@),
            fill@ == equal_fill(regions@, all_members@, av, i as int),
        decreases all_members@.len() - i,
    {
        let m = all_members[i];
        match &regions[m].plan {
            Some(plan) => {
                if plan.operation == VectorOp::All {
                    let (_mask, target) = predicate_exprs(plan);
                    match target {
                        Some(t) => {
                            let tv = chars_of(t.as_str());
                            let digits = trim_start_char_vec(&tv, 'p');
                            let starts_p = tv.len() > 0 && tv[0] == 'p';
                            let parsed = parse_usize(&digits);
                            if starts_p && parsed.is_some() {
                                let idx = parsed.unwrap();
                                if idx < args.len() {
                                    assert(av[idx as int] == args@[idx as int]@);
                                    fill = owned(args[idx].as_str());
                                }
                            } else {
                                fill = t;
                            }
                        },
                        None => {},
                    }
                }
            },
            None => {},
        }
        i += 1;
    }
    fill
}

/// Builds the standalone differential and benchmark driver for one kernel:
/// the fused pass (if any), the independent loops of `independent_members`,
/// the engine-0 loops of every member, the scalar reference, and a `main`
/// that checks the plan against the reference on seven byte patterns and
/// nineteen sizes, then times it against engine 0.
pub fn build_driver(
    kernel: &str,
    regions: &[RegionPlan],
    fused_members: &[usize],
    independent_members: &[usize],
    all_members: &[usize],
    fused: Option<&FusedEmission>,
) -> (r: Result<String, String>)
    requires
        all_members@.len() > 0,
        members_below(all_members@, regions@.len() as int),
        members_below(independent_members@, regions@.len() as int),
        all_planned(regions@, all_members@) ==> targets_present(regions@, all_members@),
    ensures
        match r {
            Ok(s) => driver_result(
                kernel@,
                regions@,
                fused_members@,
                independent_members@,
                all_members@,
                match fused {
                    Some(f) => Some(f.code@),
                    None => None,
                },
            ) == Ok::<Seq<char>, Seq<char>>(s@),
            Err(e) => driver_result(
                kernel@,
                regions@,
                fused_members@,
                independent_members@,
                all_members@,
                match fused {
                    Some(f) => Some(f.code@),
                    None => None,
                },
            ) == Err::<Seq<char>, Seq<char>>(e@),
        },
{
    let t1 = match emit_independent_set("threevec", kernel, regions, independent_members, all_members) {
        Ok(t) => t,
        Err(e) => {
            return Err(e);
        },
    };
    let t2 = match emit_independent_set("engine0", kernel, regions, all_members, all_members) {
        Ok(t) => t,
        Err(e) => {
            return Err(e);
        },
    };
    let t3 = match emit_reference(kernel, regions, all_members) {
        Ok(t) => t,
        Err(e) => {
            return Err(e);
        },
    };
    let fused_code: Option<&String> = match fused {
        Some(f) => Some(&f.code),
        None => None,
    };
    let out = build_driver_text(kernel, regions, fused_members, independent_members, all_members, fused_code, &t1, &t2, &t3);
    Ok(out)
}

fn build_driver_text(
    kernel: &str,
    regions: &[RegionPlan],
    fused_members: &[usize],
    independent_members: &[usize],
    all_members: &[usize],
    fused: Option<&String>,
    t1: &String,
    t2: &String,
    t3: &String,
) -> (out: String)
    requires
        all_members@.len() > 0,
        members_below(all_members@, regions@.len() as int),
    ensures
        out@ == driver_text(
            kernel@,
            regions@,
            all_members@,
            match fused {
                Some(c) => Some(c@),
                None => None,
            },
            fused_members@.len() > 0,
            independent_members@.len() > 0,
            t1@,
            t2@,
            t3@,
        ),
{
    reveal(driver_text);
    let n = all_members.len();
    let args = scalar_args(regions, all_members, "buf", "n");
    let bench_args = scalar_args(regions, all_members, "buf + offset", "n");
    let mut out = owned("#define _GNU_SOURCE\n#include <stdint.h>\n#include <stdio.h>\n");
    out.append("#include <stdlib.h>\n#include <string.h>\n#include <time.h>\n#include <sched.h>\n\n");
    match fused {
        Some(f) => {
            out.append(f.as_str());
            out.append("\n");
        },
        None => {},
    }
    out.append(t1.as_str());
    out.append("\n");
    out.append(t2.as_str());
    out.append("\n");
    out.append(t3.as_str());
    out.append("\n");
    out.append("static volatile uint64_t g_sink = 0;\n");
    out.append(
        "static double now_sec(void){struct timespec ts;clock_gettime(CLOCK_MONOTONIC,&ts);return (double)ts.tv_sec+(double)ts.tv_nsec*1e-9;}\n\n",
    );
    let arg_list = join_strings(&args, ", ");
    let bench_arg_list = join_strings(&bench_args, ", ");
    let ref_call = build_ref_call(kernel, arg_list.as_str());
    let mut calls = String::new();
    let mut calls_bench = String::new();
    if fused_members.len() > 0 {
        calls.append(build_fused_call(kernel, arg_list.as_str()).as_str());
        calls_bench.append(build_fused_call_bench(kernel, bench_arg_list.as_str()).as_str());
    }
    if independent_members.len() > 0 {
        calls.append(build_threevec_call(kernel, arg_list.as_str()).as_str());
        calls_bench.append(build_threevec_call_bench(kernel, bench_arg_list.as_str()).as_str());
    }
    assert(calls@ =~= plan_calls(kernel@, arg_list@, fused_members@.len() > 0, independent_members@.len() > 0));
    assert(calls_bench@ =~= plan_calls_bench(kernel@, bench_arg_list@, fused_members@.len() > 0, independent_members@.len() > 0));
    let engine0_call = build_engine0_call_bench(kernel, bench_arg_list.as_str());
    let fill = build_equal_fill(regions, all_members, &args);
    let main = build_driver_main(
        n,
        n - 1,
        kernel,
        ref_call.as_str(),
        calls.as_str(),
        calls_bench.as_str(),
        engine0_call.as_str(),
        fill.as_str(),
    );
    out.append(main.as_str());
    out
}

} // verus!

verus! {

// ── Laws ────────────────────────────────────────────────────────────────

/// The vector width of a region's plan.
pub open spec fn width_of(r: RegionPlan) -> usize {
    r.plan->0.vector_width
}

/// A group whose members are fusable regions below `n`, in increasing
/// order, all traversing what the first member traverses, and pairwise
/// free of dependency edges.
pub open spec fn group_ok(rs: Seq<RegionPlan>, g: Seq<usize>, n: int) -> bool {
    &&& g.len() > 0
    &&& forall|a: int| 0 <= a < g.len() ==> #[trigger] g[a] < n && n <= rs.len() && fusable(rs[g[a] as int])
    &&& forall|a: int|
        0 <= a < g.len() ==> spec_buffer_param(rs[#[trigger] g[a] as int]) == spec_buffer_param(rs[g[0] as int])
            && spec_length_param(rs[g[a] as int]) == spec_length_param(rs[g[0] as int]) && width_of(
            rs[g[a] as int],
        ) == width_of(rs[g[0] as int])
    &&& forall|a: int, b: int|
        0 <= a < b < g.len() ==> #[trigger] g[a] < #[trigger] g[b] && !rs[g[a] as int].deps@.contains(g[b])
            && !rs[g[b] as int].deps@.contains(g[a])
}

proof fn lemma_first_fit_spec(rs: Seq<RegionPlan>, gs: Seq<Seq<usize>>, i: int, j: int)
    ensures
        first_fit(rs, gs, i, j) matches Some(k) ==> gs[k].len() > 0 && compatible(rs, gs[k][0] as int, rs[i])
            && independent(rs, gs[k], i),
    decreases gs.len() - j,
{
    if !(j < 0 || j >= gs.len()) && !(gs[j].len() > 0 && compatible(rs, gs[j][0] as int, rs[i])
        && independent(rs, gs[j], i)) {
        lemma_first_fit_spec(rs, gs, i, j + 1);
    }
}

proof fn lemma_groups_ok(rs: Seq<RegionPlan>, n: int)
    requires
        0 <= n <= rs.len(),
        rs.len() <= usize::MAX,
    ensures
        forall|c: int| 0 <= c < groups_upto(rs, n).len() ==> group_ok(rs, #[trigger] groups_upto(rs, n)[c], n),
    decreases n,
{
    if n > 0 {
        lemma_groups_ok(rs, n - 1);
        let g = groups_upto(rs, n - 1);
        let i = n - 1;
        assert forall|c: int| 0 <= c < g.len() implies group_ok(rs, #[trigger] g[c], n) by {
            assert(group_ok(rs, g[c], n - 1));
        }
        if fusable(rs[i]) {
            lemma_first_fit(rs, g, i, 0);
            lemma_first_fit_spec(rs, g, i, 0);
            match first_fit(rs, g, i, 0) {
                Some(j) => {
                    let old_g = g[j];
                    let ng = old_g.push(i as usize);
                    assert(group_ok(rs, old_g, n));
                    assert(compatible(rs, old_g[0] as int, rs[i]));
                    assert(independent(rs, old_g, i));
                    assert(ng[0] == old_g[0]);
                    assert forall|a: int| 0 <= a < ng.len() implies #[trigger] ng[a] < n && n <= rs.len()
                        && fusable(rs[ng[a] as int]) by {
                        if a < old_g.len() {
                            assert(ng[a] == old_g[a]);
                        }
                    }
                    assert forall|a: int| 0 <= a < ng.len() implies spec_buffer_param(
                        rs[#[trigger] ng[a] as int],
                    ) == spec_buffer_param(rs[ng[0] as int]) && spec_length_param(rs[ng[a] as int])
                        == spec_length_param(rs[ng[0] as int]) && width_of(rs[ng[a] as int]) == width_of(
                        rs[ng[0] as int],
                    ) by {
                        if a < old_g.len() {
                            assert(ng[a] == old_g[a]);
                        }
                    }
                    assert forall|a: int, b: int| 0 <= a < b < ng.len() implies #[trigger] ng[a] < #[trigger] ng[b]
                        && !rs[ng[a] as int].deps@.contains(ng[b]) && !rs[ng[b] as int].deps@.contains(
                        ng[a],
                    ) by {
                        assert(ng[a] == old_g[a]);
                        if b < old_g.len() {
                            assert(ng[b] == old_g[b]);
                        } else {
                            assert(ng[b] == i);
                            assert(old_g[a] < n - 1);
                            assert(!rs[i].deps@.contains(old_g[a]) && !rs[old_g[a] as int].deps@.contains(
                                i as usize,
                            ));
                        }
                    }
                    let res = g.update(j, ng);
                    assert forall|c: int| 0 <= c < res.len() implies group_ok(rs, #[trigger] res[c], n) by {
                        if c != j {
                            assert(res[c] == g[c]);
                        }
                    }
                },
                None => {
                    let ng = seq![i as usize];
                    assert(ng[0] == i);
                    assert(group_ok(rs, ng, n));
                    let res = g.push(ng);
                    assert forall|c: int| 0 <= c < res.len() implies group_ok(rs, #[trigger] res[c], n) by {
                        if c < g.len() {
                            assert(res[c] == g[c]);
                        }
                    }
                },
            }
        }
    }
}

proof fn lemma_multi_member(gs: Seq<Seq<usize>>)
    ensures
        forall|c: int|
            0 <= c < multi_member(gs).len() ==> (#[trigger] multi_member(gs)[c]).len() >= 2 && gs.contains(
                multi_member(gs)[c],
            ),
    decreases gs.len(),
{
    if gs.len() > 0 {
        lemma_multi_member(gs.drop_last());
        let m = multi_member(gs);
        let md = multi_member(gs.drop_last());
        assert forall|c: int| 0 <= c < m.len() implies (#[trigger] m[c]).len() >= 2 && gs.contains(m[c]) by {
            if c < md.len() {
                assert(m[c] == md[c]);
                let k = choose|k: int| 0 <= k < gs.drop_last().len() && gs.drop_last()[k] == md[c];
                assert(gs[k] == gs.drop_last()[k]);
            } else {
                assert(m[c] == gs.last());
                assert(gs[gs.len() - 1] == gs.last());
            }
        }
    }
}

/// Every fusion candidate has at least two members, and its members are
/// distinct regions that have a derived plan and no dependency parameters,
/// share the same buffer and length parameter positions and the same
/// vector width, and have no dependency edge between any two of them.
pub proof fn law_fusion_candidates_compatible(rs: Seq<RegionPlan>, c: int, a: int, b: int)
    requires
        rs.len() <= usize::MAX,
        0 <= c < spec_fusion_candidates(rs).len(),
        0 <= a < b < spec_fusion_candidates(rs)[c].len(),
    ensures
        ({
            let g = spec_fusion_candidates(rs)[c];
            &&& g.len() >= 2
            &&& g[a] < g[b] < rs.len()
            &&& rs[g[a] as int].plan is Some && rs[g[b] as int].plan is Some
            &&& rs[g[a] as int].dep_sources@.len() == 0 && rs[g[b] as int].dep_sources@.len() == 0
            &&& spec_buffer_param(rs[g[a] as int]) is Some
            &&& spec_buffer_param(rs[g[a] as int]) == spec_buffer_param(rs[g[b] as int])
            &&& spec_length_param(rs[g[a] as int]) is Some
            &&& spec_length_param(rs[g[a] as int]) == spec_length_param(rs[g[b] as int])
            &&& width_of(rs[g[a] as int]) == width_of(rs[g[b] as int])
            &&& !rs[g[a] as int].deps@.contains(g[b]) && !rs[g[b] as int].deps@.contains(g[a])
        }),
{
    let gs = groups_upto(rs, rs.len() as int);
    lemma_groups_ok(rs, rs.len() as int);
    lemma_multi_member(gs);
    let g = spec_fusion_candidates(rs)[c];
    let k = choose|k: int| 0 <= k < gs.len() && gs[k] == g;
    assert(group_ok(rs, gs[k], rs.len() as int));
    assert(g[a] < rs.len() && fusable(rs[g[a] as int]));
    assert(g[b] < rs.len() && fusable(rs[g[b] as int]));
    assert(spec_buffer_param(rs[g[a] as int]) == spec_buffer_param(rs[g[0] as int]));
    assert(spec_buffer_param(rs[g[b] as int]) == spec_buffer_param(rs[g[0] as int]));
    assert(g[a] < g[b]);
}

/// The canonical member order holds exactly the given members: each of
/// its entries is a member and each member occurs in it.
pub proof fn law_member_order_same_members(rs: Seq<RegionPlan>, ms: Seq<usize>)
    ensures
        forall|i: int| 0 <= i < spec_member_order(rs, ms).len() ==> ms.contains(
            #[trigger] spec_member_order(rs, ms)[i],
        ),
        forall|j: int| 0 <= j < ms.len() ==> spec_member_order(rs, ms).contains(#[trigger] ms[j]),
        spec_member_order(rs, ms).len() == ms.len(),
{
    lemma_member_order_members(rs, ms);
    lemma_with_key_total(rs, ms);
}

proof fn lemma_with_key_total(rs: Seq<RegionPlan>, ms: Seq<usize>)
    ensures
        with_key(rs, ms, 0).len() + with_key(rs, ms, 1).len() + with_key(rs, ms, 2).len() + with_key(rs, ms, 3).len()
            == ms.len(),
    decreases ms.len(),
{
    if ms.len() > 0 {
        lemma_with_key_total(rs, ms.drop_last());
    }
}

} // verus!
