use sir::gate5a::{
    emit_plan, engine0_selection, enumerate_plans, CandidatePlan, ControlFlow, ReductionStrategy,
    TailStrategy, UnrollFactor, ISA,
};

#[test]
fn enumerate_k18_plans() {
    let plans = enumerate_plans("k18_all_equal");
    // Should have multiple plans
    assert!(plans.len() > 5);
    // All should be k18
    assert!(plans.iter().all(|p| p.kernel == "k18_all_equal"));
    // No duplicates
    let unique: std::collections::HashSet<_> = plans.iter().collect();
    assert_eq!(unique.len(), plans.len());
}

#[test]
fn enumerate_k43_plans() {
    let plans = enumerate_plans("k43_sum_ascii");
    assert!(plans.len() > 3);
    // No MovemaskPopcount for Sum
    assert!(plans.iter().all(|p| p.reduction != ReductionStrategy::MovemaskPopcount));
    // No EarlyExit for Sum
    assert!(plans.iter().all(|p| p.control != ControlFlow::EarlyExit));
}

#[test]
fn enumerate_k50_plans() {
    let plans = enumerate_plans("k50_count_masked");
    assert!(plans.len() > 3);
    // No Psadbw for Cardinality
    assert!(plans.iter().all(|p| p.reduction != ReductionStrategy::Psadbw));
    // No EarlyExit for Cardinality
    assert!(plans.iter().all(|p| p.control != ControlFlow::EarlyExit));
}

#[test]
fn engine0_picks_best_known() {
    let k18 = engine0_selection("k18_all_equal");
    assert_eq!(k18.isa, ISA::AVX2);
    assert_eq!(k18.reduction, ReductionStrategy::MovemaskPopcount);
    assert_eq!(k18.control, ControlFlow::EarlyExit);

    let k43 = engine0_selection("k43_sum_ascii");
    assert_eq!(k43.isa, ISA::AVX2);
    assert_eq!(k43.reduction, ReductionStrategy::Psadbw);

    let k50 = engine0_selection("k50_count_masked");
    assert_eq!(k50.isa, ISA::AVX2);
    assert_eq!(k50.reduction, ReductionStrategy::MovemaskPopcount);
}

#[test]
fn no_invalid_combinations() {
    for kernel in &["k18_all_equal", "k43_sum_ascii", "k50_count_masked"] {
        let plans = enumerate_plans(kernel);
        for p in &plans {
            // Scalar only with ScalarLoop
            if p.isa == ISA::Scalar {
                assert_eq!(p.reduction, ReductionStrategy::ScalarLoop);
            }
            // Non-scalar never with ScalarLoop
            if p.isa != ISA::Scalar {
                assert_ne!(p.reduction, ReductionStrategy::ScalarLoop);
            }
            // NarrowerVector tail only with AVX2
            if p.tail == TailStrategy::NarrowerVector {
                assert_eq!(p.isa, ISA::AVX2);
            }
            // EarlyExit only for k18
            if p.control == ControlFlow::EarlyExit {
                assert_eq!(*kernel, "k18_all_equal");
            }
        }
    }
}

#[test]
fn plan_counts_per_kernel() {
    assert_eq!(enumerate_plans("k18_all_equal").len(), 33);
    assert_eq!(enumerate_plans("k43_sum_ascii").len(), 18);
    assert_eq!(enumerate_plans("k50_count_masked").len(), 18);
    let other = enumerate_plans("popcount");
    assert_eq!(other.len(), 3);
    assert!(other.iter().all(|p| p.isa == ISA::Scalar && p.reduction == ReductionStrategy::ScalarLoop));
    let ids: Vec<u32> = enumerate_plans("k18_all_equal").iter().map(|p| p.id).collect();
    assert_eq!(ids, (0..33).collect::<Vec<u32>>());
}

#[test]
fn plan_order_follows_nested_loops() {
    let plans = enumerate_plans("k18_all_equal");
    assert_eq!(plans[0].isa, ISA::Scalar);
    assert_eq!(plans[0].unroll, UnrollFactor::U1);
    assert_eq!(plans[3].isa, ISA::SSE2);
    assert_eq!(plans[3].reduction, ReductionStrategy::MovemaskPopcount);
    assert_eq!(plans[3].control, ControlFlow::FullReduction);
    assert_eq!(plans[4].control, ControlFlow::EarlyExit);
    assert_eq!(plans[9].isa, ISA::AVX2);
    assert_eq!(plans[9].reduction, ReductionStrategy::LaneAccumulation);
    assert_eq!(plans[11].tail, TailStrategy::NarrowerVector);
    assert_eq!(plans[32].reduction, ReductionStrategy::MovemaskPopcount);
    assert_eq!(plans[32].unroll, UnrollFactor::U4);
    assert_eq!(plans[32].tail, TailStrategy::NarrowerVector);
    assert_eq!(plans[32].control, ControlFlow::EarlyExit);
}

#[test]
fn engine0_plan_is_enumerated() {
    for kernel in &["k18_all_equal", "k43_sum_ascii", "k50_count_masked"] {
        let e = engine0_selection(kernel);
        assert_eq!(e.id, 0);
        assert_eq!(e.unroll, UnrollFactor::U1);
        assert_eq!(e.tail, TailStrategy::NarrowerVector);
        assert!(enumerate_plans(kernel).iter().any(|p| p.isa == e.isa
            && p.reduction == e.reduction
            && p.unroll == e.unroll
            && p.tail == e.tail
            && p.control == e.control));
    }
}

#[test]
fn isa_width_and_unroll_count() {
    assert_eq!(ISA::Scalar.width(), 1);
    assert_eq!(ISA::SSE2.width(), 16);
    assert_eq!(ISA::AVX2.width(), 32);
    assert_eq!(UnrollFactor::U1.count(), 1);
    assert_eq!(UnrollFactor::U2.count(), 2);
    assert_eq!(UnrollFactor::U4.count(), 4);
}

fn plan(kernel: &str, id: u32, isa: ISA, reduction: ReductionStrategy, unroll: UnrollFactor, tail: TailStrategy, control: ControlFlow) -> CandidatePlan {
    CandidatePlan { id, kernel: kernel.to_string(), isa, reduction, unroll, tail, control }
}

#[test]
fn emit_scalar_all_equal_plan() {
    let p = plan("k18_all_equal", 3, ISA::Scalar, ReductionStrategy::ScalarLoop, UnrollFactor::U1, TailStrategy::Scalar, ControlFlow::FullReduction);
    let c = emit_plan(&p, "const uint8_t *buf, uint64_t n, uint8_t val", "buf", "n", "");
    assert_eq!(
        c,
        "uint64_t k18_all_equal_c3(const uint8_t *buf, uint64_t n, uint8_t val) {\n    for (uint64_t i = 0; i < n; i++) {\n        if (buf[i] != val) return 0;\n    }\n    return 1;\n}\n"
    );
}

#[test]
fn emit_avx2_all_equal_early_exit() {
    let p = plan("k18_all_equal", 12, ISA::AVX2, ReductionStrategy::MovemaskPopcount, UnrollFactor::U2, TailStrategy::NarrowerVector, ControlFlow::EarlyExit);
    let c = emit_plan(&p, "P", "buf", "n", "");
    let expected = "uint64_t k18_all_equal_c12(P) {\n    __m256i val_v = _mm256_set1_epi8((char)val);\n    uint64_t i = 0;\n    while (i + 64 <= n) {\n        __m256i chunk0 = _mm256_loadu_si256((__m256i *)(buf + i + 0));\n        __m256i cmp0 = _mm256_cmpeq_epi8(chunk0, val_v);\n        int mask0 = _mm256_movemask_epi8(cmp0);\n        if (mask0 != -1) return 0;\n        __m256i chunk1 = _mm256_loadu_si256((__m256i *)(buf + i + 32));\n        __m256i cmp1 = _mm256_cmpeq_epi8(chunk1, val_v);\n        int mask1 = _mm256_movemask_epi8(cmp1);\n        if (mask1 != -1) return 0;\n        i += 64;\n    }\n    while (i + 16 <= n) {\n        __m128i chunk = _mm_loadu_si128((__m128i *)(buf + i));\n        __m128i cmp = _mm_cmpeq_epi8(chunk, _mm_set1_epi8((char)val));\n        int mask = _mm_movemask_epi8(cmp);\n        if (mask != 0xFFFF) return 0;\n        i += 16;\n    }\n    while (i < n) {\n        if (buf[i] != val) return 0;\n        i++;\n    }\n    return 1;\n}\n";
    assert_eq!(c, expected);
}

#[test]
fn emit_sse2_all_equal_full_reduction() {
    let p = plan("k18_all_equal", 1, ISA::SSE2, ReductionStrategy::MovemaskPopcount, UnrollFactor::U1, TailStrategy::Scalar, ControlFlow::FullReduction);
    let c = emit_plan(&p, "P", "b", "len", "");
    assert!(c.contains("    __m128i val_v = _mm_set1_epi8((char)val);\n"));
    assert!(c.contains("    while (i + 16 <= len) {\n        int all_match = 1;\n        __m128i chunk0 = _mm_loadu_si128((__m128i *)(b + i + 0));\n"));
    assert!(c.contains("        if (mask0 != 0xFFFF) all_match = 0;\n        if (!all_match) return 0;\n        i += 16;\n    }\n    while (i < len) {\n"));
    assert!(!c.contains("while (i + 16 <= len) {\n        __m128i chunk ="));
}

#[test]
fn emit_sum_plans() {
    let p = plan("k43_sum_ascii", 5, ISA::AVX2, ReductionStrategy::Psadbw, UnrollFactor::U1, TailStrategy::Scalar, ControlFlow::FullReduction);
    let c = emit_plan(&p, "P", "buf", "n", "");
    assert!(c.starts_with("uint64_t k43_sum_ascii_c5(P) {\n    __m256i zero = _mm256_setzero_si256();\n    __m256i acc = zero;\n    uint64_t i = 0;\n    while (i + 32 <= n) {\n        __m256i chunk0 = _mm256_loadu_si256((__m256i *)(buf + i + 0));\n        __m256i sums0 = _mm256_sad_epu8(chunk0, zero);\n        acc = _mm256_add_epi64(acc, sums0);\n        i += 32;\n    }\n"));
    assert!(c.ends_with("    while (i < n) {\n        sum += buf[i];\n        i++;\n    }\n    return sum;\n}\n"));
    let lane = plan("k43_sum_ascii", 6, ISA::AVX2, ReductionStrategy::LaneAccumulation, UnrollFactor::U2, TailStrategy::NarrowerVector, ControlFlow::FullReduction);
    let c = emit_plan(&lane, "P", "buf", "n", "");
    assert!(c.contains("    while (i + 8 <= n) {\n        __m256i chunk0 = _mm256_cvtepu8_epi64(_mm_cvtsi32_si128(*(const uint32_t *)(buf + i + 0)));\n"));
    assert!(c.contains("(buf + i + 4)));\n"));
    assert!(c.contains("        __m128i sums = _mm_sad_epu8(chunk, _mm_setzero_si128());\n"));
    let sse = plan("k43_sum_ascii", 7, ISA::SSE2, ReductionStrategy::Psadbw, UnrollFactor::U4, TailStrategy::Scalar, ControlFlow::FullReduction);
    let c = emit_plan(&sse, "P", "buf", "n", "");
    assert!(c.contains("    while (i + 64 <= n) {\n"));
    assert!(c.contains("        __m128i chunk3 = _mm_loadu_si128((__m128i *)(buf + i + 48));\n"));
    assert!(c.contains("    uint64_t sum = (uint64_t)_mm_cvtsi128_si64(acc) + (uint64_t)_mm_extract_epi64(acc, 1);\n"));
}

#[test]
fn emit_count_masked_plans() {
    let p = plan("k50_count_masked", 9, ISA::SSE2, ReductionStrategy::LaneAccumulation, UnrollFactor::U1, TailStrategy::Scalar, ControlFlow::FullReduction);
    let c = emit_plan(&p, "P", "buf", "n", "mask, target");
    assert!(c.contains("    __m128i mask_v = _mm_set1_epi8((char)mask);\n    __m128i target_v = _mm_set1_epi8((char)target);\n"));
    assert!(c.contains("        __m128i sums0 = _mm128_sad_epu8(bits0, zero);\n        acc = _mm128_add_epi64(acc, sums0);\n"));
    assert!(c.contains("    uint64_t count = (uint64_t)_mm_cvtsi128_si64(acc) + (uint64_t)_mm_extract_epi64(acc, 1);\n"));
    let q = plan("k50_count_masked", 2, ISA::Scalar, ReductionStrategy::ScalarLoop, UnrollFactor::U1, TailStrategy::Scalar, ControlFlow::FullReduction);
    assert_eq!(emit_plan(&q, "P", "buf", "n", ""), "uint64_t k50_count_masked_c2(P) {\n    uint64_t count = 0;\n    for (uint64_t i = 0; i < n; i++) {\n        count += ((buf[i] & mask) == target);\n    }\n    return count;\n}\n");
    let r = plan("k50_count_masked", 10, ISA::AVX2, ReductionStrategy::MovemaskPopcount, UnrollFactor::U1, TailStrategy::NarrowerVector, ControlFlow::FullReduction);
    let c = emit_plan(&r, "P", "buf", "n", "");
    assert!(c.contains("        int bits0 = _mm256_movemask_epi8(cmp0);\n        count += __builtin_popcount(bits0);\n"));
    assert!(c.contains("        int bits = _mm_movemask_epi8(cmp);\n        count += __builtin_popcount(bits);\n        i += 16;\n"));
}

#[test]
fn emit_unknown_kernel_has_empty_body() {
    let p = plan("other", 0, ISA::Scalar, ReductionStrategy::ScalarLoop, UnrollFactor::U1, TailStrategy::Scalar, ControlFlow::FullReduction);
    assert_eq!(emit_plan(&p, "", "b", "n", ""), "uint64_t other_c0() {\n}\n");
}

#[test]
fn vector_loop_step_is_lanes_times_unroll() {
    let p = plan("k50_count_masked", 3, ISA::SSE2, ReductionStrategy::MovemaskPopcount, UnrollFactor::U4, TailStrategy::Scalar, ControlFlow::FullReduction);
    let c = emit_plan(&p, "P", "buf", "n", "");
    assert!(c.starts_with("uint64_t k50_count_masked_c3(P) {\n"));
    assert!(c.ends_with("}\n"));
    assert!(c.contains("    while (i + 64 <= n) {\n"));
    let q = plan("k18_all_equal", 4, ISA::AVX2, ReductionStrategy::MovemaskPopcount, UnrollFactor::U1, TailStrategy::Scalar, ControlFlow::EarlyExit);
    assert!(emit_plan(&q, "P", "buf", "len", "").contains("    while (i + 32 <= len) {\n"));
}
