use sir::gate6b::{
    build_driver, c_param_name, eligible_members, emit_fused, emit_independent_set,
    emit_reference, fusion_candidates, member_order, scalar_args, RegionParam, RegionPlan,
};
use sir::vector_plan::{TailPolicy, VectorOp, VectorPlan, VectorPredicate};

fn param(name: &str, c_type: &str, is_buffer: bool) -> RegionParam {
    RegionParam { name: name.to_string(), c_type: c_type.to_string(), is_buffer }
}

fn params() -> Vec<RegionParam> {
    vec![
        param("buf", "const uint8_t *", true),
        param("len", "uint64_t", false),
        param("%2", "uint8_t", false),
        param("%3", "uint8_t", false),
    ]
}

fn region(op: Option<VectorOp>, predicate: Option<VectorPredicate>) -> RegionPlan {
    RegionPlan {
        dep_sources: vec![],
        params: params(),
        plan: op.map(|operation| VectorPlan {
            operation,
            buffer_name: "buf".to_string(),
            length_name: "len".to_string(),
            predicate,
            vector_width: 32,
            tail: TailPolicy::NarrowerVector,
        }),
        concepts: vec![],
        deps: vec![],
    }
}

fn card() -> RegionPlan {
    region(
        Some(VectorOp::Cardinality),
        Some(VectorPredicate::MaskedEqual { mask: "p2".to_string(), target: "p3".to_string() }),
    )
}

fn sum() -> RegionPlan {
    region(Some(VectorOp::Sum), Some(VectorPredicate::Identity))
}

fn all() -> RegionPlan {
    region(Some(VectorOp::All), Some(VectorPredicate::Equal("p2".to_string())))
}

fn unplanned() -> RegionPlan {
    region(None, None)
}

#[test]
fn parameters_are_found_by_any_of_their_names() {
    let r = card();
    assert_eq!(r.param_index("buf"), Some(0));
    assert_eq!(r.param_index("len"), Some(1));
    assert_eq!(r.param_index("p2"), Some(2));
    assert_eq!(r.param_index("3"), Some(3));
    assert_eq!(r.param_index("%3"), Some(3));
    assert_eq!(r.param_index("x"), None);
    assert_eq!(r.buffer_param(), Some(0));
    assert_eq!(r.length_param(), Some(1));
    assert_eq!(r.operation(), Some(VectorOp::Cardinality));
    assert_eq!(unplanned().buffer_param(), None);
    assert_eq!(unplanned().operation(), None);
    assert_eq!(c_param_name(&params(), 0), "buf");
    assert_eq!(c_param_name(&params(), 2), "p2");
    assert_eq!(c_param_name(&params(), 9), "v9");
}

#[test]
fn compatible_independent_regions_form_one_group() {
    let mut with_deps = sum();
    with_deps.dep_sources = vec![Some(0)];
    let regions = vec![all(), card(), sum(), unplanned(), with_deps];
    let c = fusion_candidates(&regions);
    assert_eq!(c.len(), 1);
    assert_eq!(c[0].members, vec![0, 1, 2]);
}

#[test]
fn dependent_regions_are_not_fused_together() {
    let mut dependent = sum();
    dependent.deps = vec![0];
    let mut other_width = card();
    if let Some(p) = other_width.plan.as_mut() {
        p.vector_width = 16;
    }
    let regions = vec![all(), card(), dependent, other_width, sum()];
    let c = fusion_candidates(&regions);
    let groups: Vec<Vec<usize>> = c.into_iter().map(|g| g.members).collect();
    assert_eq!(groups, vec![vec![0, 1, 4]]);
}

#[test]
fn members_are_ordered_by_operation() {
    let regions = vec![all(), card(), sum(), unplanned(), card()];
    assert_eq!(member_order(&regions, &[0, 1, 2, 3, 4]), vec![1, 4, 2, 0, 3]);
    assert_eq!(member_order(&regions, &[3, 0]), vec![0, 3]);
    let mut dep = sum();
    dep.dep_sources = vec![None];
    let regions = vec![all(), card(), sum(), unplanned(), dep];
    assert_eq!(eligible_members(&regions), vec![1, 2, 0]);
}

#[test]
fn driver_arguments() {
    let regions = vec![card()];
    assert_eq!(scalar_args(&regions, &[0], "buf", "n"), vec!["buf", "n", "15", "5"]);
    let mut many = card();
    many.params = vec![
        param("%0", "uint8_t", false),
        param("%1", "uint8_t", false),
        param("%2", "uint8_t", false),
        param("%3", "uint8_t", false),
        param("%4", "uint8_t", false),
        param("%5", "uint8_t", false),
    ];
    let regions = vec![many];
    assert_eq!(
        scalar_args(&regions, &[0], "b", "l"),
        vec!["15", "5", "66", "51", "119", "119"]
    );
}

#[test]
fn fused_emission_errors() {
    let regions = vec![card(), sum(), unplanned()];
    assert_eq!(emit_fused("k", &regions, &[0], &[0]).err(), Some("fusion needs at least two members".to_string()));
    assert_eq!(
        emit_fused("k", &regions, &[0, 2, 1], &[0, 1, 2]).err(),
        Some("region 2 has no derived plan".to_string())
    );
    assert_eq!(
        emit_independent_set("threevec", "k", &regions, &[2], &[0]).err(),
        Some("region 2 has no derived plan".to_string())
    );
    assert_eq!(emit_reference("k", &regions, &[2, 0]).err(), Some("region 2 has no derived plan".to_string()));
}

#[test]
fn fused_emission_text() {
    let regions = vec![all(), card(), sum()];
    let f = emit_fused("kern", &regions, &[0, 1, 2], &[0, 1, 2]).ok().unwrap();
    assert_eq!(f.ordered_members, vec![1, 2, 0]);
    let code = f.code;
    assert!(code.starts_with("/* Gate 6B fused pass — generated by ABSAC from per-region plans */\n#include <stdint.h>\n#include <immintrin.h>\n\nstatic inline void absac_fused_kern(const uint8_t * buf, uint64_t len, uint8_t p2, uint8_t p3, uint64_t *out) {\n    uint64_t acc0 = 0;\n    __m256i mask0_v = _mm256_set1_epi8((char)(p2));\n    __m256i tgt0_v = _mm256_set1_epi8((char)(p3));\n    __m256i acc1_v = _mm256_setzero_si256();\n    uint64_t acc1 = 0;\n    uint64_t acc2 = 1;\n    __m256i tgt2_v = _mm256_set1_epi8((char)(p2));\n    __m256i zero = _mm256_setzero_si256();\n    uint64_t i = 0;\n    while (i + 32 <= len) {\n"));
    assert!(code.contains("        acc1_v = _mm256_add_epi64(acc1_v, _mm256_sad_epu8(chunk, zero));\n"));
    assert!(code.contains("        acc0 += ((buf[i] & (p2)) == (p3));\n        acc1 += buf[i];\n        if (buf[i] != (p2)) acc2 = 0;\n        i++;\n    }\n    out[1] = acc0;\n    out[2] = acc1;\n    out[0] = acc2;\n}\n"));
    assert!(code.ends_with("}\n"));
}

#[test]
fn reference_text_for_one_member() {
    let regions = vec![card()];
    let r = emit_reference("kern", &regions, &[0]).ok().unwrap();
    assert_eq!(
        r,
        "/* Gate 6B scalar reference oracle */\n#include <stdint.h>\n\nvoid kern_ref(const uint8_t * buf, uint64_t len, uint8_t p2, uint8_t p3, uint64_t *out) {\n    uint64_t acc0 = 0;\n    for (uint64_t j = 0; j < len; j++) acc0 += ((buf[j] & (p2)) == (p3));\n    out[0] = acc0;\n}\n"
    );
}

#[test]
fn independent_set_text() {
    let regions = vec![sum()];
    let s = emit_independent_set("engine0", "kern", &regions, &[0], &[0]).ok().unwrap();
    assert!(s.starts_with("/* Gate 6B independent per-region loops */\n#include <stdint.h>\n#include <immintrin.h>\n\nstatic void absac_engine0_kern(const uint8_t * buf, uint64_t len, uint8_t p2, uint8_t p3, uint64_t *out) {\n    __m256i acc0_v = _mm256_setzero_si256();\n    uint64_t acc0 = 0;\n"));
    assert!(s.ends_with("            acc0 += buf[i];\n            i++;\n        }\n    }\n    out[0] = acc0;\n}\n"));
}

#[test]
fn driver_text_calls_and_fill() {
    let regions = vec![all(), card(), sum()];
    let fused = emit_fused("kern", &regions, &[0, 1, 2], &[0, 1, 2]).ok().unwrap();
    let d = build_driver("kern", &regions, &[0, 1, 2], &[], &[0, 1, 2], Some(&fused)).ok().unwrap();
    assert!(d.starts_with("#define _GNU_SOURCE\n#include <stdint.h>\n#include <stdio.h>\n#include <stdlib.h>\n#include <string.h>\n#include <time.h>\n#include <sched.h>\n\n/* Gate 6B fused pass"));
    assert!(d.contains("    uint64_t out_ref[3], out_3v[3], out_impl[3];\n"));
    assert!(d.contains("            kern_ref(buf, n, 15, 5, out_ref);\n            absac_fused_kern(buf, n, 15, 5, out_impl);\n            \n"));
    assert!(d.contains("absac_engine0_kern(buf + offset, n, 15, 5, out_3v);"));
    assert!(d.contains("buf[j] = dist ? (uint8_t)(15) : (uint8_t)((j * 2654435761u) >> 13);"));
    assert!(d.contains("g_sink ^= out_3v[0] ^ out_3v[2];"));
    assert!(d.contains("static void absac_threevec_kern("));
    let bad = vec![all(), unplanned()];
    assert_eq!(
        build_driver("kern", &bad, &[], &[0], &[0, 1], None).err(),
        Some("region 1 has no derived plan".to_string())
    );
}
