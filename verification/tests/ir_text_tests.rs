use sir::chars::{lines_vec, split_vec, tokens_vec, trim_vec};
use sir::emit_prelude::bitvector_prelude;
use sir::harness::generate_harness;
use sir::ir_scan::{
    external_globals, extract_params, extract_return_type, function_names, ir_signature,
    llvm_c_type,
};
use sir::numparse::{parse_i128, parse_u32};

fn chars(s: &str) -> Vec<char> {
    s.chars().collect()
}

fn strings(v: Vec<Vec<char>>) -> Vec<String> {
    v.into_iter().map(|c| c.into_iter().collect()).collect()
}

#[test]
fn lines_follow_str_lines() {
    let text = "a\r\nb\n\nc\r";
    assert_eq!(strings(lines_vec(&chars(text))), text.lines().map(|l| l.to_string()).collect::<Vec<_>>());
    assert_eq!(strings(lines_vec(&chars("x\n"))), vec!["x".to_string()]);
    assert!(lines_vec(&chars("")).is_empty());
}

#[test]
fn tokens_and_split_follow_str() {
    let text = "  define  i32\t@f( a ,b) ";
    let expected: Vec<String> = text.split_whitespace().map(|t| t.to_string()).collect();
    assert_eq!(strings(tokens_vec(&chars(text))), expected);
    let expected: Vec<String> = text.split(',').map(|t| t.to_string()).collect();
    assert_eq!(strings(split_vec(&chars(text), ',')), expected);
    let trimmed: String = trim_vec(&chars(text)).into_iter().collect();
    assert_eq!(trimmed, text.trim());
}

#[test]
fn function_names_reads_define_lines() {
    let ll = "; comment\ndefine i32 @foo(i32 %a) {\n  ret i32 %a\n}\n\n  define internal fastcc i64 @baz.1(ptr %p) #0 {\ndeclare i32 @ext(i32)\n";
    assert_eq!(function_names(ll), vec!["foo".to_string(), "baz.1".to_string()]);
    assert!(function_names("").is_empty());
}

#[test]
fn external_globals_are_unique_and_unquoted() {
    let ll = "@g = external global i32\n  @g = external global i32\n@\"q x\" = external global i8\n@h = global i32 0\n@k  = external constant [4 x i8]\n";
    assert_eq!(external_globals(ll), vec!["g".to_string(), "k".to_string()]);
}

#[test]
fn ir_signature_reads_return_and_parameter_types() {
    let ll = "define dso_local i32 @foo(i32 noundef %a, ptr nocapture %b) #0 {\n  ret i32 0\n}\ndefine void @f(ptr byval(%struct.S) %s, i64 %n) {\n";
    assert_eq!(
        ir_signature(ll, "foo"),
        Some(("i32".to_string(), vec!["i32".to_string(), "ptr".to_string()]))
    );
    assert_eq!(
        ir_signature(ll, "f"),
        Some(("void".to_string(), vec!["ptr".to_string(), "i64".to_string()]))
    );
    assert_eq!(ir_signature(ll, "missing"), None);
    assert_eq!(ir_signature("define i8 @g() {\n", "g"), Some(("i8".to_string(), vec![])));
}

#[test]
fn llvm_c_types() {
    assert_eq!(llvm_c_type("void"), "void");
    assert_eq!(llvm_c_type("i1"), "bool");
    assert_eq!(llvm_c_type("i8"), "uint8_t");
    assert_eq!(llvm_c_type("i16"), "uint16_t");
    assert_eq!(llvm_c_type("i32"), "uint32_t");
    assert_eq!(llvm_c_type("i64"), "uint64_t");
    assert_eq!(llvm_c_type("float"), "float");
    assert_eq!(llvm_c_type("double"), "double");
    assert_eq!(llvm_c_type("ptr"), "const uint8_t *");
    assert_eq!(llvm_c_type("ptr addrspace(1)"), "const uint8_t *");
    assert_eq!(llvm_c_type("i128"), "uint64_t");
}

#[test]
fn return_type_of_define_line() {
    assert_eq!(extract_return_type("define dso_local zeroext i8 @f(i8 %x)"), "uint8_t");
    assert_eq!(extract_return_type("  define internal void @f()"), "void");
    assert_eq!(extract_return_type("define ptr @f()"), "const uint8_t *");
    assert_eq!(extract_return_type("define i37 @f()"), "uint37_t");
    assert_eq!(extract_return_type("define i128 @f()"), "uint64_t");
    assert_eq!(extract_return_type("define float @f()"), "i64");
    assert_eq!(extract_return_type("no at sign"), "i64");
}

#[test]
fn params_of_define_line() {
    let p = extract_params("define i32 @f(i32 %a, ptr %b, i1 zeroext %c, double %d, i24 %e)");
    let expected: Vec<(String, String)> = vec![
        ("p0".to_string(), "uint32_t".to_string()),
        ("p1".to_string(), "const uint8_t *".to_string()),
        ("p2".to_string(), "bool".to_string()),
        ("p3".to_string(), "uint64_t".to_string()),
        ("p4".to_string(), "uint24_t".to_string()),
    ];
    assert_eq!(p, expected);
    assert!(extract_params("define void @g()").is_empty());
    assert!(extract_params("no parens").is_empty());
}

#[test]
fn harness_for_small_kernel() {
    let kernel = "#include <stdint.h>\n#include <stdio.h>\nint f(const uint8_t *buf0, uint64_t len) { return 0; }\n";
    let params = vec![
        ("%0".to_string(), "const uint8_t *".to_string()),
        ("len".to_string(), "uint64_t".to_string()),
        ("%2".to_string(), "uint32_t".to_string()),
    ];
    let h = generate_harness("f", kernel, &params, "uint32_t", 10, 2);
    let mut e = String::new();
    e.push_str("#define _POSIX_C_SOURCE 199309L\n#include <stdint.h>\n#include <time.h>\n#include <stdio.h>\n#include <stdlib.h>\n\n");
    e.push_str("#include <stdint.h>\nint f(const uint8_t *buf0, uint64_t len) { return 0; }\n");
    e.push_str("int main(int argc, char **argv) {\n");
    e.push_str("    uint32_t seed = (argc > 1) ? (uint32_t)strtoul(argv[1], NULL, 0) : 0x9e3779b9u;\n");
    e.push_str("    uint8_t buf0[4096];\n");
    e.push_str("    for (int j = 0; j < 4096; j++) buf0[j] = (uint8_t)(seed + (uint32_t)(j * 31 + 17));\n");
    e.push_str("    uint64_t len = 4096;\n");
    e.push_str("    uint32_t scalar1 = 42;\n");
    e.push_str("\n    for (int i = 0; i < 2; i++) {\n");
    e.push_str("        volatile uint32_t r = f(scalar0, len, scalar2);\n        (void)r;\n    }\n");
    e.push_str("    struct timespec start, end;\n");
    e.push_str("    clock_gettime(CLOCK_MONOTONIC, &start);\n");
    e.push_str("    uint32_t total = 0;\n");
    e.push_str("    for (int i = 0; i < 10; i++) {\n");
    e.push_str("        volatile uint32_t v_total = (uint32_t) total;\n");
    e.push_str("        total = v_total + (uint32_t)(i & 1); /* prevent fold */\n");
    e.push_str("    }\n");
    e.push_str("    clock_gettime(CLOCK_MONOTONIC, &end);\n");
    e.push_str("    double elapsed = (double)(end.tv_sec - start.tv_sec) + (double)(end.tv_nsec - start.tv_nsec) / 1e9;\n");
    e.push_str("    printf(\"%.9f\\n\", elapsed);\n");
    e.push_str("    fprintf(stderr, \"checksum: ok\\n\");\n");
    e.push_str("    return 0;\n");
    e.push_str("}\n");
    assert_eq!(h, e);
    let opens = h.matches('{').count();
    let closes = h.matches('}').count();
    assert_eq!(opens, closes);
}

#[test]
fn harness_keeps_kernel_without_preamble_lines() {
    let kernel = "  #define _POSIX_C_SOURCE 1\n#include <time.h>\n#include <stdlib.h>\nint g(void);";
    let h = generate_harness("g", kernel, &[], "int", 1, 1);
    assert!(h.contains("#include <stdlib.h>\n\nint g(void);\nint main"));
    assert!(h.contains("volatile int r = g();"));
}

#[test]
fn decimal_parsing() {
    assert_eq!(parse_u32(&chars("+42")), Some(42));
    assert_eq!(parse_u32(&chars("4294967295")), Some(u32::MAX));
    assert_eq!(parse_u32(&chars("4294967296")), None);
    assert_eq!(parse_u32(&chars("-1")), None);
    assert_eq!(parse_u32(&chars("")), None);
    assert_eq!(parse_u32(&chars("+")), None);
    assert_eq!(parse_u32(&chars("1a")), None);
    assert_eq!(parse_i128(&chars("-170141183460469231731687303715884105728")), Some(i128::MIN));
    assert_eq!(parse_i128(&chars("170141183460469231731687303715884105727")), Some(i128::MAX));
    assert_eq!(parse_i128(&chars("170141183460469231731687303715884105728")), None);
    assert_eq!(parse_i128(&chars("-17")), Some(-17));
    assert_eq!(parse_i128(&chars("-")), None);
}

#[test]
fn prelude_defines_the_vector_type() {
    let p = bitvector_prelude();
    assert!(p.starts_with("\n#include <string.h>\n"));
    assert!(p.contains("typedef struct { uint64_t w[8]; } sir_bv;"));
    assert!(p.contains("static uint64_t __sir_bv_popcount(sir_bv a)"));
}
