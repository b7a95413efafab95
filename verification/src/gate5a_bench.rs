//! The C source of the plan-landscape benchmark: every candidate plan of
//! the three kernels, the original scalar kernels, and a `main` that checks
//! each plan against the original and times both at four buffer sizes
//! (and, for `k18_all_equal`, on an all-equal buffer too), printing one CSV
//! line per plan, buffer and size.
use vstd::prelude::*;
use crate::text::{decimal, owned, push_decimal, push_usize};
use crate::gate5a::{CandidatePlan, ISA, ReductionStrategy, UnrollFactor, TailStrategy, ControlFlow, plan_text,
    plans_match, enumerate_plans, emit_plan};

verus! {

/// The `Debug` name of an ISA.
pub open spec fn isa_name(i: ISA) -> Seq<char> {
    match i {
        ISA::Scalar => "Scalar"@,
        ISA::SSE2 => "SSE2"@,
        ISA::AVX2 => "AVX2"@,
    }
}

/// The `Debug` name of a reduction strategy.
pub open spec fn reduction_name(r: ReductionStrategy) -> Seq<char> {
    match r {
        ReductionStrategy::ScalarLoop => "ScalarLoop"@,
        ReductionStrategy::LaneAccumulation => "LaneAccumulation"@,
        ReductionStrategy::MovemaskPopcount => "MovemaskPopcount"@,
        ReductionStrategy::Psadbw => "Psadbw"@,
    }
}

/// The `Debug` name of an unroll factor.
pub open spec fn unroll_name(u: UnrollFactor) -> Seq<char> {
    match u {
        UnrollFactor::U1 => "U1"@,
        UnrollFactor::U2 => "U2"@,
        UnrollFactor::U4 => "U4"@,
    }
}

/// The `Debug` name of a tail strategy.
pub open spec fn tail_name(t: TailStrategy) -> Seq<char> {
    match t {
        TailStrategy::Scalar => "Scalar"@,
        TailStrategy::NarrowerVector => "NarrowerVector"@,
    }
}

/// The `Debug` name of a control-flow shape.
pub open spec fn control_name(c: ControlFlow) -> Seq<char> {
    match c {
        ControlFlow::FullReduction => "FullReduction"@,
        ControlFlow::EarlyExit => "EarlyExit"@,
    }
}

fn append_isa(s: &mut String, i: ISA)
    ensures
        final(s)@ == old(s)@ + isa_name(i),
{
    match i {
        ISA::Scalar => s.append("Scalar"),
        ISA::SSE2 => s.append("SSE2"),
        ISA::AVX2 => s.append("AVX2"),
    }
}

fn append_reduction(s: &mut String, r: ReductionStrategy)
    ensures
        final(s)@ == old(s)@ + reduction_name(r),
{
    match r {
        ReductionStrategy::ScalarLoop => s.append("ScalarLoop"),
        ReductionStrategy::LaneAccumulation => s.append("LaneAccumulation"),
        ReductionStrategy::MovemaskPopcount => s.append("MovemaskPopcount"),
        ReductionStrategy::Psadbw => s.append("Psadbw"),
    }
}

fn append_unroll(s: &mut String, u: UnrollFactor)
    ensures
        final(s)@ == old(s)@ + unroll_name(u),
{
    match u {
        UnrollFactor::U1 => s.append("U1"),
        UnrollFactor::U2 => s.append("U2"),
        UnrollFactor::U4 => s.append("U4"),
    }
}

fn append_tail(s: &mut String, t: TailStrategy)
    ensures
        final(s)@ == old(s)@ + tail_name(t),
{
    match t {
        TailStrategy::Scalar => s.append("Scalar"),
        TailStrategy::NarrowerVector => s.append("NarrowerVector"),
    }
}

fn append_control(s: &mut String, c: ControlFlow)
    ensures
        final(s)@ == old(s)@ + control_name(c),
{
    match c {
        ControlFlow::FullReduction => s.append("FullReduction"),
        ControlFlow::EarlyExit => s.append("EarlyExit"),
    }
}

// ── The kernels ─────────────────────────────────────────────────────────

/// The kernels, in order: `k18_all_equal`, `k43_sum_ascii`,
/// `k50_count_masked`.
pub open spec fn kernel_name(k: nat) -> Seq<char> {
    if k == 0 {
        "k18_all_equal"@
    } else if k == 1 {
        "k43_sum_ascii"@
    } else {
        "k50_count_masked"@
    }
}

/// The C parameter list of kernel `k`.
pub open spec fn kernel_params(k: nat) -> Seq<char> {
    if k == 0 {
        "const uint8_t *buf, uint64_t n, uint8_t val"@
    } else if k == 1 {
        "const uint8_t *buf, uint64_t n"@
    } else {
        "const uint8_t *buf, uint64_t n, uint8_t mask, uint8_t target"@
    }
}

/// The arguments of kernel `k` after the buffer and length.
pub open spec fn kernel_extra_args(k: nat) -> Seq<char> {
    if k == 0 {
        ", val"@
    } else if k == 1 {
        ""@
    } else {
        ", mask, target"@
    }
}

fn kernel_name_str(k: usize) -> (s: &'static str)
    requires
        k < 3,
    ensures
        s@ == kernel_name(k as nat),
{
    if k == 0 {
        "k18_all_equal"
    } else if k == 1 {
        "k43_sum_ascii"
    } else {
        "k50_count_masked"
    }
}

fn kernel_params_str(k: usize) -> (s: &'static str)
    requires
        k < 3,
    ensures
        s@ == kernel_params(k as nat),
{
    if k == 0 {
        "const uint8_t *buf, uint64_t n, uint8_t val"
    } else if k == 1 {
        "const uint8_t *buf, uint64_t n"
    } else {
        "const uint8_t *buf, uint64_t n, uint8_t mask, uint8_t target"
    }
}

fn kernel_extra_str(k: usize) -> (s: &'static str)
    requires
        k < 3,
    ensures
        s@ == kernel_extra_args(k as nat),
{
    if k == 0 {
        ", val"
    } else if k == 1 {
        ""
    } else {
        ", mask, target"
    }
}
// ── Fixed text ──────────────────────────────────────────────────────────

/// Includes and the three original scalar kernels.
pub const BENCH_HEADER: &'static str = "#define _GNU_SOURCE\n#include <stdint.h>\n#include <stdio.h>\n#include <stdlib.h>\n#include <string.h>\n#include <time.h>\n#include <sched.h>\n#include <immintrin.h>\n\nstatic uint64_t k18_all_equal_orig(const uint8_t *buf, uint64_t n, uint8_t val) {\n    uint64_t all = 1;\n    for (uint64_t i = 0; i < n; i++) all &= (buf[i] == val);\n    return all;\n}\n\nstatic uint64_t k43_sum_ascii_orig(const uint8_t *buf, uint64_t n) {\n    uint64_t sum = 0;\n    for (uint64_t i = 0; i < n; i++) sum += buf[i];\n    return sum;\n}\n\nstatic uint64_t k50_count_masked_orig(const uint8_t *buf, uint64_t n, uint8_t mask, uint8_t target) {\n    uint64_t count = 0;\n    for (uint64_t i = 0; i < n; i++) count += ((buf[i] & mask) == target);\n    return count;\n}\n\n";

/// The timer, the start of `main`, the buffers and the CSV header line.
pub const BENCH_HARNESS: &'static str = "static volatile uint64_t g_sink = 0;\nstatic inline double now_sec(void) {\n    struct timespec ts; clock_gettime(CLOCK_MONOTONIC, &ts);\n    return (double)ts.tv_sec + (double)ts.tv_nsec * 1e-9;\n}\n\nint main(void) {\n    cpu_set_t cpuset; CPU_ZERO(&cpuset); CPU_SET(0, &cpuset);\n    sched_setaffinity(0, sizeof(cpuset), &cpuset);\n    uint8_t *buf = aligned_alloc(64, 1048576);\n    srand(42);\n    for (int i = 0; i < 1048576; i++) buf[i] = (uint8_t)(rand() & 0xFF);\n    uint8_t val = 0x42, mask = 0x0F, target = 0x05;\n    uint64_t sizes[] = {64, 256, 4096, 65536};\n    int nsizes = 4;\n    uint64_t iters = 20000;\n    volatile uint64_t offset = 0;\n\n    // Also prepare all-equal buffer for k18\n    uint8_t *eqbuf = aligned_alloc(64, 1048576);\n    memset(eqbuf, val, 1048576);\n\n    printf(\"kernel,plan_id,isa,reduction,unroll,tail,control,size,distribution,correct,median_ns,speedup_vs_orig\\n\");\n\n";

/// The end of `main`.
pub const BENCH_FOOTER: &'static str = "    free(buf); free(eqbuf);\n    return 0;\n}\n";

pub const BLOCK_OPEN: &'static str = "    {\n        uint64_t n = sizes[";
pub const SIZE_CLOSE: &'static str = "];\n";
pub const BUF_EQUAL: &'static str = "        uint8_t *b = eqbuf;\n";
pub const BUF_RANDOM: &'static str = "        uint8_t *b = buf;\n";
pub const CHECK_ORIG: &'static str = "        // Correctness check\n        uint64_t r_orig = ";
pub const ORIG_ARGS: &'static str = "_orig(b, n";
pub const CHECK_PLAN: &'static str = ");\n        uint64_t r_plan = ";
pub const PLAN_SUFFIX: &'static str = "_c";
pub const PLAN_ARGS: &'static str = "(b, n";
pub const TIME_PLAN: &'static str = ");\n        int correct = (r_orig == r_plan);\n        // Benchmark\n        double times[15];\n        for (int t = 0; t < 15; t++) {\n            double t0 = now_sec();\n            for (uint64_t i = 0; i < iters; i++) {\n                offset = (offset + 1) & 0xFFF;\n                g_sink ^= ";
pub const OFFSET_ARGS: &'static str = "(b + offset, n";
pub const TIME_ORIG: &'static str = ");\n            }\n            times[t] = (now_sec() - t0) / iters * 1e9;\n        }\n        // Sort for median\n        for (int i = 0; i < 14; i++) for (int j = i+1; j < 15; j++)\n            if (times[j] < times[i]) { double tmp = times[i]; times[i] = times[j]; times[j] = tmp; }\n        double median = times[7];\n        // Benchmark original\n        double orig_times[15];\n        for (int t = 0; t < 15; t++) {\n            double t0 = now_sec();\n            for (uint64_t i = 0; i < iters; i++) {\n                offset = (offset + 1) & 0xFFF;\n                g_sink ^= ";
pub const ORIG_OFFSET_ARGS: &'static str = "_orig(b + offset, n";
pub const REPORT: &'static str = ");\n            }\n            orig_times[t] = (now_sec() - t0) / iters * 1e9;\n        }\n        for (int i = 0; i < 14; i++) for (int j = i+1; j < 15; j++)\n            if (orig_times[j] < orig_times[i]) { double tmp = orig_times[i]; orig_times[i] = orig_times[j]; orig_times[j] = tmp; }\n        double orig_median = orig_times[7];\n        double speedup = (orig_median > 0) ? median / orig_median : 0;\n        printf(\"";
pub const FIELD_SEP: &'static str = ",";
pub const SIZE_FIELD: &'static str = ",%lu,";
pub const ROW_END: &'static str = ",%d,%.1f,%.3f\\n\",\n               (unsigned long)sizes[";
pub const BLOCK_CLOSE: &'static str = "], correct, median, speedup);\n    }\n";
pub const PLAN_SEP: &'static str = "\n";
pub const BUF_NAME: &'static str = "buf";
pub const LEN_NAME: &'static str = "n";
pub const DIST_RANDOM: &'static str = "random";
pub const DIST_EQUAL: &'static str = "all_equal";

// ── One measurement block ───────────────────────────────────────────────

/// The name of a buffer distribution.
pub open spec fn dist_name(all_equal: bool) -> Seq<char> {
    if all_equal { DIST_EQUAL@ } else { DIST_RANDOM@ }
}

/// The line that picks the buffer of a distribution.
pub open spec fn buffer_line(all_equal: bool) -> Seq<char> {
    if all_equal { BUF_EQUAL@ } else { BUF_RANDOM@ }
}

/// Opening of a block: the size, the buffer, and the two calls compared for
/// correctness.
pub open spec fn block_check(k: nat, id: nat, all_equal: bool, si: nat) -> Seq<char> {
    BLOCK_OPEN@ + decimal(si) + SIZE_CLOSE@ + buffer_line(all_equal) + CHECK_ORIG@ + kernel_name(k)
        + ORIG_ARGS@ + kernel_extra_args(k) + CHECK_PLAN@ + kernel_name(k) + PLAN_SUFFIX@ + decimal(id)
        + PLAN_ARGS@ + kernel_extra_args(k)
}

/// The timing loops of the plan and of the original kernel.
pub open spec fn block_timing(k: nat, id: nat) -> Seq<char> {
    TIME_PLAN@ + kernel_name(k) + PLAN_SUFFIX@ + decimal(id) + OFFSET_ARGS@ + kernel_extra_args(k)
        + TIME_ORIG@ + kernel_name(k) + ORIG_OFFSET_ARGS@ + kernel_extra_args(k)
}

/// The plan's description in a CSV row: kernel, id and the five choices.
pub open spec fn plan_row(k: nat, p: CandidatePlan) -> Seq<char> {
    kernel_name(k) + FIELD_SEP@ + decimal(p.id as nat) + FIELD_SEP@ + plan_choices(p)
}

/// The five choices of a plan, comma-separated, by their `Debug` names.
pub open spec fn plan_choices(p: CandidatePlan) -> Seq<char> {
    isa_name(p.isa) + FIELD_SEP@ + reduction_name(p.reduction) + FIELD_SEP@ + unroll_name(p.unroll) + FIELD_SEP@
        + tail_name(p.tail) + FIELD_SEP@ + control_name(p.control)
}

/// The end of a block: the `printf` of its CSV row.
pub open spec fn block_report(k: nat, p: CandidatePlan, all_equal: bool, si: nat) -> Seq<char> {
    REPORT@ + plan_row(k, p) + SIZE_FIELD@ + dist_name(all_equal) + ROW_END@ + decimal(si) + BLOCK_CLOSE@
}

/// The block that checks and times plan `p` of kernel `k` on one buffer at
/// size index `si`.
pub open spec fn block(k: nat, p: CandidatePlan, all_equal: bool, si: nat) -> Seq<char> {
    block_check(k, p.id as nat, all_equal, si) + block_timing(k, p.id as nat) + block_report(k, p, all_equal, si)
}

fn push_block_check(s: &mut String, k: usize, id: u32, all_equal: bool, si: usize)
    requires
        k < 3,
    ensures
        final(s)@ == old(s)@ + block_check(k as nat, id as nat, all_equal, si as nat),
{
    let name = kernel_name_str(k);
    let extra = kernel_extra_str(k);
    s.append(BLOCK_OPEN);
    push_usize(s, si);
    s.append(SIZE_CLOSE);
    if all_equal {
        s.append(BUF_EQUAL);
    } else {
        s.append(BUF_RANDOM);
    }
    s.append(CHECK_ORIG);
    s.append(name);
    s.append(ORIG_ARGS);
    s.append(extra);
    s.append(CHECK_PLAN);
    s.append(name);
    s.append(PLAN_SUFFIX);
    push_decimal(s, id as u64);
    s.append(PLAN_ARGS);
    s.append(extra);
    assert(s@ =~= old(s)@ + block_check(k as nat, id as nat, all_equal, si as nat));
}

fn push_block_timing(s: &mut String, k: usize, id: u32)
    requires
        k < 3,
    ensures
        final(s)@ == old(s)@ + block_timing(k as nat, id as nat),
{
    let name = kernel_name_str(k);
    let extra = kernel_extra_str(k);
    s.append(TIME_PLAN);
    s.append(name);
    s.append(PLAN_SUFFIX);
    push_decimal(s, id as u64);
    s.append(OFFSET_ARGS);
    s.append(extra);
    s.append(TIME_ORIG);
    s.append(name);
    s.append(ORIG_OFFSET_ARGS);
    s.append(extra);
    assert(s@ =~= old(s)@ + block_timing(k as nat, id as nat));
}

fn push_plan_row(s: &mut String, k: usize, p: &CandidatePlan)
    requires
        k < 3,
    ensures
        final(s)@ == old(s)@ + plan_row(k as nat, *p),
{
    s.append(kernel_name_str(k));
    s.append(FIELD_SEP);
    push_decimal(s, p.id as u64);
    s.append(FIELD_SEP);
    push_plan_choices(s, p);
    assert(s@ =~= old(s)@ + plan_row(k as nat, *p));
}

fn push_plan_choices(s: &mut String, p: &CandidatePlan)
    ensures
        final(s)@ == old(s)@ + plan_choices(*p),
{
    append_isa(s, p.isa);
    s.append(FIELD_SEP);
    append_reduction(s, p.reduction);
    s.append(FIELD_SEP);
    append_unroll(s, p.unroll);
    s.append(FIELD_SEP);
    append_tail(s, p.tail);
    s.append(FIELD_SEP);
    append_control(s, p.control);
    assert(s@ =~= old(s)@ + plan_choices(*p));
}

fn push_block(s: &mut String, k: usize, p: &CandidatePlan, all_equal: bool, si: usize)
    requires
        k < 3,
    ensures
        final(s)@ == old(s)@ + block(k as nat, *p, all_equal, si as nat),
{
    let ghost s0 = s@;
    push_block_check(s, k, p.id, all_equal, si);
    let ghost s1 = s@;
    push_block_timing(s, k, p.id);
    let ghost s2 = s@;
    push_block_report(s, k, p, all_equal, si);
    assert(s@ =~= s0 + block(k as nat, *p, all_equal, si as nat)) by {
        assert(s1 == s0 + block_check(k as nat, p.id as nat, all_equal, si as nat));
        assert(s2 == s1 + block_timing(k as nat, p.id as nat));
    }
}

fn push_block_report(s: &mut String, k: usize, p: &CandidatePlan, all_equal: bool, si: usize)
    requires
        k < 3,
    ensures
        final(s)@ == old(s)@ + block_report(k as nat, *p, all_equal, si as nat),
{
    s.append(REPORT);
    push_plan_row(s, k, p);
    s.append(SIZE_FIELD);
    if all_equal {
        s.append(DIST_EQUAL);
    } else {
        s.append(DIST_RANDOM);
    }
    s.append(ROW_END);
    push_usize(s, si);
    s.append(BLOCK_CLOSE);
    assert(s@ =~= old(s)@ + block_report(k as nat, *p, all_equal, si as nat));
}

// ── The whole source ────────────────────────────────────────────────────

/// The blocks of plan `p` of kernel `k` on one buffer, for size indices
/// below `n`.
pub open spec fn size_blocks(k: nat, p: CandidatePlan, all_equal: bool, n: nat) -> Seq<char>
    decreases n,
{
    if n == 0 {
        Seq::empty()
    } else {
        size_blocks(k, p, all_equal, (n - 1) as nat) + block(k, p, all_equal, (n - 1) as nat)
    }
}

/// All blocks of one plan: the four sizes on the random buffer and, for
/// `k18_all_equal`, the four sizes on the all-equal buffer too.
pub open spec fn plan_blocks(k: nat, p: CandidatePlan) -> Seq<char> {
    size_blocks(k, p, false, 4) + if k == 0 { size_blocks(k, p, true, 4) } else { Seq::empty() }
}

/// The blocks of every plan of kernel `k`, in order.
pub open spec fn kernel_blocks(k: nat, ps: Seq<CandidatePlan>) -> Seq<char>
    decreases ps.len(),
{
    if ps.len() == 0 {
        Seq::empty()
    } else {
        kernel_blocks(k, ps.drop_last()) + plan_blocks(k, ps.last())
    }
}

/// The C functions of every plan of kernel `k`, each followed by a blank
/// line, emitted with the kernel's parameter list over `buf` and `n`.
pub open spec fn plan_defs(k: nat, ps: Seq<CandidatePlan>) -> Seq<char>
    decreases ps.len(),
{
    if ps.len() == 0 {
        Seq::empty()
    } else {
        plan_defs(k, ps.drop_last()) + plan_text(ps.last(), kernel_params(k), BUF_NAME@, LEN_NAME@) + PLAN_SEP@
    }
}

/// The benchmark source for the given plans of the three kernels.
pub open spec fn bench_text(p18: Seq<CandidatePlan>, p43: Seq<CandidatePlan>, p50: Seq<CandidatePlan>) -> Seq<char> {
    BENCH_HEADER@ + plan_defs(0, p18) + plan_defs(1, p43) + plan_defs(2, p50) + BENCH_HARNESS@
        + kernel_blocks(0, p18) + kernel_blocks(1, p43) + kernel_blocks(2, p50) + BENCH_FOOTER@
}

fn push_size_blocks(s: &mut String, k: usize, p: &CandidatePlan, all_equal: bool)
    requires
        k < 3,
    ensures
        final(s)@ == old(s)@ + size_blocks(k as nat, *p, all_equal, 4),
{
    let ghost s0 = s@;
    let mut si: usize = 0;
    while si < 4
        invariant
            k < 3,
            si <= 4,
            s@ == s0 + size_blocks(k as nat, *p, all_equal, si as nat),
        decreases 4 - si,
    {
        push_block(s, k, p, all_equal, si);
        si += 1;
        assert(s@ =~= s0 + size_blocks(k as nat, *p, all_equal, si as nat));
    }
}

fn push_plan_blocks(s: &mut String, k: usize, p: &CandidatePlan)
    requires
        k < 3,
    ensures
        final(s)@ == old(s)@ + plan_blocks(k as nat, *p),
{
    let ghost s0 = s@;
    push_size_blocks(s, k, p, false);
    if k == 0 {
        push_size_blocks(s, k, p, true);
    }
    assert(s@ =~= s0 + plan_blocks(k as nat, *p));
}

fn push_kernel_blocks(s: &mut String, k: usize, ps: &Vec<CandidatePlan>)
    requires
        k < 3,
    ensures
        final(s)@ == old(s)@ + kernel_blocks(k as nat, ps@),
{
    let ghost s0 = s@;
    let mut i: usize = 0;
    while i < ps.len()
        invariant
            k < 3,
            i <= ps@.len(),
            s@ == s0 + kernel_blocks(k as nat, ps@.subrange(0, i as int)),
        decreases ps@.len() - i,
    {
        push_plan_blocks(s, k, &ps[i]);
        proof {
            let next = ps@.subrange(0, i + 1);
            assert(next.drop_last() =~= ps@.subrange(0, i as int));
            assert(next.last() == ps@[i as int]);
        }
        i += 1;
        assert(s@ =~= s0 + kernel_blocks(k as nat, ps@.subrange(0, i as int)));
    }
    assert(ps@.subrange(0, ps@.len() as int) =~= ps@);
}

fn push_plan_defs(s: &mut String, k: usize, ps: &Vec<CandidatePlan>)
    requires
        k < 3,
    ensures
        final(s)@ == old(s)@ + plan_defs(k as nat, ps@),
{
    let ghost s0 = s@;
    let params = kernel_params_str(k);
    let mut i: usize = 0;
    while i < ps.len()
        invariant
            k < 3,
            params@ == kernel_params(k as nat),
            i <= ps@.len(),
            s@ == s0 + plan_defs(k as nat, ps@.subrange(0, i as int)),
        decreases ps@.len() - i,
    {
        let code = emit_plan(&ps[i], params, BUF_NAME, LEN_NAME, kernel_extra_str(k));
        s.append(code.as_str());
        s.append(PLAN_SEP);
        proof {
            let next = ps@.subrange(0, i + 1);
            assert(next.drop_last() =~= ps@.subrange(0, i as int));
            assert(next.last() == ps@[i as int]);
        }
        i += 1;
        assert(s@ =~= s0 + plan_defs(k as nat, ps@.subrange(0, i as int)));
    }
    assert(ps@.subrange(0, ps@.len() as int) =~= ps@);
}

/// The benchmark source for the given plans of `k18_all_equal`,
/// `k43_sum_ascii` and `k50_count_masked`: the includes and original
/// kernels, every plan's C function, then `main` with one block per plan,
/// buffer and size.
pub fn bench_source(p18: &Vec<CandidatePlan>, p43: &Vec<CandidatePlan>, p50: &Vec<CandidatePlan>) -> (c: String)
    ensures
        c@ == bench_text(p18@, p43@, p50@),
{
    let mut c = owned(BENCH_HEADER);
    push_plan_defs(&mut c, 0, p18);
    push_plan_defs(&mut c, 1, p43);
    push_plan_defs(&mut c, 2, p50);
    c.append(BENCH_HARNESS);
    push_kernel_blocks(&mut c, 0, p18);
    push_kernel_blocks(&mut c, 1, p43);
    push_kernel_blocks(&mut c, 2, p50);
    c.append(BENCH_FOOTER);
    assert(c@ =~= bench_text(p18@, p43@, p50@));
    c
}

/// The full benchmark source over every candidate plan that
/// `enumerate_plans` yields for the three kernels.
pub fn gate5a_bench_source() -> (c: String)
    ensures
        exists|p18: Seq<CandidatePlan>, p43: Seq<CandidatePlan>, p50: Seq<CandidatePlan>|
            {
                &&& plans_match(p18, "k18_all_equal"@, 108)
                &&& plans_match(p43, "k43_sum_ascii"@, 108)
                &&& plans_match(p50, "k50_count_masked"@, 108)
                &&& c@ == #[trigger] bench_text(p18, p43, p50)
            },
{
    let p18 = enumerate_plans(kernel_name_str(0));
    let p43 = enumerate_plans(kernel_name_str(1));
    let p50 = enumerate_plans(kernel_name_str(2));
    let c = bench_source(&p18, &p43, &p50);
    assert(plans_match(p18@, "k18_all_equal"@, 108));
    assert(plans_match(p43@, "k43_sum_ascii"@, 108));
    assert(plans_match(p50@, "k50_count_masked"@, 108));
    c
}

} // verus!
