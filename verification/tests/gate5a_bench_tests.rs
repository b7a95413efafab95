use sir::gate5a::{enumerate_plans, CandidatePlan, ControlFlow, ReductionStrategy, TailStrategy, UnrollFactor, ISA};
use sir::gate5a_bench::{bench_source, gate5a_bench_source, BENCH_FOOTER, BENCH_HARNESS, BENCH_HEADER};

const BLOCK_START: &str = "    {\n        uint64_t n = sizes[";

fn count(hay: &str, needle: &str) -> usize {
    hay.matches(needle).count()
}

#[test]
fn bench_source_without_plans_is_the_fixed_frame() {
    let src = bench_source(&vec![], &vec![], &vec![]);
    assert_eq!(src, format!("{}{}{}", BENCH_HEADER, BENCH_HARNESS, BENCH_FOOTER));
    assert!(src.starts_with("#define _GNU_SOURCE\n#include <stdint.h>\n"));
    assert!(src.ends_with("    free(buf); free(eqbuf);\n    return 0;\n}\n"));
}

#[test]
fn bench_source_blocks_for_one_plan() {
    let plan = CandidatePlan {
        id: 7,
        kernel: "k43_sum_ascii".to_string(),
        isa: ISA::SSE2,
        reduction: ReductionStrategy::Psadbw,
        unroll: UnrollFactor::U2,
        tail: TailStrategy::Scalar,
        control: ControlFlow::FullReduction,
    };
    let src = bench_source(&vec![], &vec![plan], &vec![]);
    assert!(src.contains("uint64_t k43_sum_ascii_c7(const uint8_t *buf, uint64_t n) {\n"));
    assert_eq!(count(&src, BLOCK_START), 4);
    assert!(src.contains("        uint64_t r_orig = k43_sum_ascii_orig(b, n);\n"));
    assert!(src.contains("        uint64_t r_plan = k43_sum_ascii_c7(b, n);\n"));
    assert!(src.contains("                g_sink ^= k43_sum_ascii_c7(b + offset, n);\n"));
    assert!(src.contains("                g_sink ^= k43_sum_ascii_orig(b + offset, n);\n"));
    assert!(src.contains(
        "        printf(\"k43_sum_ascii,7,SSE2,Psadbw,U2,Scalar,FullReduction,%lu,random,%d,%.1f,%.3f\\n\",\n               (unsigned long)sizes[3], correct, median, speedup);\n    }\n"
    ));
    assert!(!src.contains("all_equal,%d"));
}

#[test]
fn all_equal_buffer_only_for_k18() {
    let plan = CandidatePlan {
        id: 0,
        kernel: "k18_all_equal".to_string(),
        isa: ISA::Scalar,
        reduction: ReductionStrategy::ScalarLoop,
        unroll: UnrollFactor::U1,
        tail: TailStrategy::Scalar,
        control: ControlFlow::EarlyExit,
    };
    let src = bench_source(&vec![plan], &vec![], &vec![]);
    assert_eq!(count(&src, BLOCK_START), 8);
    assert_eq!(count(&src, "        uint8_t *b = eqbuf;\n"), 4);
    assert!(src.contains("        uint64_t r_plan = k18_all_equal_c0(b, n, val);\n"));
    assert!(src.contains("k18_all_equal,0,Scalar,ScalarLoop,U1,Scalar,EarlyExit,%lu,all_equal,"));
}

#[test]
fn full_bench_source_covers_every_plan() {
    let src = gate5a_bench_source();
    let n18 = enumerate_plans("k18_all_equal").len();
    let n43 = enumerate_plans("k43_sum_ascii").len();
    let n50 = enumerate_plans("k50_count_masked").len();
    assert!(n18 > 0 && n43 > 0 && n50 > 0);
    assert_eq!(count(&src, BLOCK_START), 4 * (2 * n18 + n43 + n50));
    assert!(src.starts_with(BENCH_HEADER));
    assert!(src.ends_with(BENCH_FOOTER));
    for p in enumerate_plans("k50_count_masked") {
        let row = format!(
            "printf(\"k50_count_masked,{},{:?},{:?},{:?},{:?},{:?},%lu,random,",
            p.id, p.isa, p.reduction, p.unroll, p.tail, p.control
        );
        assert_eq!(count(&src, &row), 4);
        let def = format!(
            "uint64_t k50_count_masked_c{}(const uint8_t *buf, uint64_t n, uint8_t mask, uint8_t target) {{\n",
            p.id
        );
        assert!(src.contains(&def));
    }
    let opens = src.matches('{').count();
    let closes = src.matches('}').count();
    assert_eq!(opens, closes);
}
