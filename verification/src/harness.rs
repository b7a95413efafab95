//! The C benchmark harness that times one kernel: its source without the
//! includes the harness provides, input buffers and scalars, a warm-up loop
//! and a timed loop.
use vstd::prelude::*;
use crate::chars::{trim_start, starts_with, first_index, contains, lines, views, trim_start_char, trim_start_vec, starts_with_vec, lines_vec, contains_vec, contains_char_vec, trim_start_char_vec};
use crate::ir_scan::pair_views;
use crate::text::{chars_of, owned, decimal, push_usize, append_chars, str_eq};

verus! {

/// Whether a kernel line (without leading whitespace) is one of the
/// preamble lines the harness writes itself.
pub open spec fn excluded_line(t: Seq<char>) -> bool {
    starts_with(t, "#include <time.h>"@) || starts_with(t, "#include <stdio.h>"@) || starts_with(
        t,
        "#include <stdlib.h>"@,
    ) || starts_with(t, "#define _POSIX"@)
}

/// The kernel lines the harness keeps, in order.
pub open spec fn kept_lines(ls: Seq<Seq<char>>) -> Seq<Seq<char>>
    decreases ls.len(),
{
    if ls.len() == 0 {
        Seq::empty()
    } else {
        let prev = kept_lines(ls.drop_last());
        if excluded_line(trim_start(ls.last())) {
            prev
        } else {
            prev.push(ls.last())
        }
    }
}

/// `parts` joined with `sep` between consecutive parts (`[T]::join`).
pub open spec fn join(parts: Seq<Seq<char>>, sep: Seq<char>) -> Seq<char>
    decreases parts.len(),
{
    if parts.len() == 0 {
        Seq::empty()
    } else if parts.len() == 1 {
        parts[0]
    } else {
        join(parts.drop_last(), sep) + sep + parts.last()
    }
}

/// Whether a parameter's C type is a pointer.
pub open spec fn is_pointer(ptype: Seq<char>) -> bool {
    first_index(ptype, '*') is Some
}

/// Whether a parameter name starts with `%` (an unnamed LLVM value).
pub open spec fn is_unnamed(pname: Seq<char>) -> bool {
    pname.len() > 0 && pname[0] == '%'
}

/// The C name of a parameter: `prefix{k}` for an unnamed value.
pub open spec fn c_name(pname: Seq<char>, prefix: Seq<char>, k: nat) -> Seq<char> {
    if is_unnamed(pname) {
        prefix + decimal(k)
    } else {
        pname
    }
}

/// Number of pointer parameters.
pub open spec fn count_pointers(pv: Seq<(Seq<char>, Seq<char>)>) -> nat
    decreases pv.len(),
{
    if pv.len() == 0 {
        0
    } else {
        count_pointers(pv.drop_last()) + if is_pointer(pv.last().1) {
            1nat
        } else {
            0nat
        }
    }
}

/// One 4096-byte array declaration per pointer parameter.
pub open spec fn buffer_decls(pv: Seq<(Seq<char>, Seq<char>)>) -> Seq<char>
    decreases pv.len(),
{
    if pv.len() == 0 {
        Seq::empty()
    } else {
        let prev = buffer_decls(pv.drop_last());
        if is_pointer(pv.last().1) {
            prev + "    uint8_t "@ + c_name(pv.last().0, "buf"@, count_pointers(pv.drop_last()))
                + "[4096];\n"@
        } else {
            prev
        }
    }
}

/// One fill loop per pointer parameter, seeded from `seed`.
pub open spec fn buffer_inits(pv: Seq<(Seq<char>, Seq<char>)>) -> Seq<char>
    decreases pv.len(),
{
    if pv.len() == 0 {
        Seq::empty()
    } else {
        let prev = buffer_inits(pv.drop_last());
        if is_pointer(pv.last().1) {
            prev + "    for (int j = 0; j < 4096; j++) "@ + c_name(
                pv.last().0,
                "buf"@,
                count_pointers(pv.drop_last()),
            ) + "[j] = (uint8_t)(seed + (uint32_t)(j * 31 + 17));\n"@
        } else {
            prev
        }
    }
}

/// The value given to a scalar parameter: 4096 for a length or count
/// (a name holding `n`), 42 otherwise.
pub open spec fn scalar_value(pname: Seq<char>) -> Seq<char> {
    if pname == "len"@ || first_index(pname, 'n') is Some || contains(pname, "count"@) {
        "4096"@
    } else {
        "42"@
    }
}

/// One declaration per scalar parameter; every unnamed scalar is named
/// `scalar{nb}`, with `nb` the number of pointer parameters.
pub open spec fn scalar_decls(pv: Seq<(Seq<char>, Seq<char>)>, nb: nat) -> Seq<char>
    decreases pv.len(),
{
    if pv.len() == 0 {
        Seq::empty()
    } else {
        let prev = scalar_decls(pv.drop_last(), nb);
        if !is_pointer(pv.last().1) {
            prev + "    "@ + pv.last().1 + " "@ + c_name(pv.last().0, "scalar"@, nb) + " = "@
                + scalar_value(pv.last().0) + ";\n"@
        } else {
            prev
        }
    }
}

/// The argument passed for a parameter.
pub open spec fn call_arg(pname: Seq<char>) -> Seq<char> {
    if is_unnamed(pname) {
        "scalar"@ + trim_start_char(pname, '%')
    } else {
        pname
    }
}

/// The call expression `f(args)`.
pub open spec fn call_text(func_name: Seq<char>, pv: Seq<(Seq<char>, Seq<char>)>) -> Seq<char> {
    func_name + "("@ + join(pv.map_values(|p: (Seq<char>, Seq<char>)| call_arg(p.0)), ", "@)
        + ")"@
}

pub open spec fn harness_preamble() -> Seq<char> {
    "#define _POSIX_C_SOURCE 199309L\n"@ + "#include <stdint.h>\n"@ + "#include <time.h>\n"@
        + "#include <stdio.h>\n"@ + "#include <stdlib.h>\n\n"@
}

pub open spec fn main_head() -> Seq<char> {
    "int main(int argc, char **argv) {\n"@
        + "    uint32_t seed = (argc > 1) ? (uint32_t)strtoul(argv[1], NULL, 0) : 0x9e3779b9u;\n"@
}

pub open spec fn warmup_loop(return_type: Seq<char>, call: Seq<char>, warmup: nat) -> Seq<char> {
    "\n    for (int i = 0; i < "@ + decimal(warmup) + "; i++) {\n"@ + "        volatile "@
        + return_type + " r = "@ + call + ";\n        (void)r;\n    }\n"@
}

pub open spec fn timed_loop(return_type: Seq<char>, iterations: nat) -> Seq<char> {
    "    struct timespec start, end;\n"@ + "    clock_gettime(CLOCK_MONOTONIC, &start);\n"@
        + "    "@ + return_type + " total = 0;\n"@ + "    for (int i = 0; i < "@ + decimal(
        iterations,
    ) + "; i++) {\n"@ + "        volatile "@ + return_type + " v_total = ("@ + return_type
        + ") total;\n"@ + "        total = v_total + ("@ + return_type
        + ")(i & 1); /* prevent fold */\n"@ + "    }\n"@
        + "    clock_gettime(CLOCK_MONOTONIC, &end);\n"@
        + "    double elapsed = (double)(end.tv_sec - start.tv_sec) + (double)(end.tv_nsec - start.tv_nsec) / 1e9;\n"@
        + "    printf(\"%.9f\\n\", elapsed);\n"@ + "    fprintf(stderr, \"checksum: ok\\n\");\n"@
        + "    return 0;\n"@ + "}\n"@
}

/// The whole harness text.
pub open spec fn harness_text(
    func_name: Seq<char>,
    kernel_source: Seq<char>,
    pv: Seq<(Seq<char>, Seq<char>)>,
    return_type: Seq<char>,
    iterations: nat,
    warmup: nat,
) -> Seq<char> {
    harness_preamble() + join(kept_lines(lines(kernel_source)), "\n"@) + "\n"@ + main_head()
        + buffer_decls(pv) + buffer_inits(pv) + scalar_decls(pv, count_pointers(pv))
        + warmup_loop(return_type, call_text(func_name, pv), warmup) + timed_loop(
        return_type,
        iterations,
    )
}

// ── Builders ────────────────────────────────────────────────────────────

fn build_preamble() -> (s: String)
    ensures
        s@ == harness_preamble(),
{
    let mut s = owned("#define _POSIX_C_SOURCE 199309L\n");
    s.append("#include <stdint.h>\n");
    s.append("#include <time.h>\n");
    s.append("#include <stdio.h>\n");
    s.append("#include <stdlib.h>\n\n");
    s
}

fn is_excluded(t: &Vec<char>) -> (b: bool)
    ensures
        b == excluded_line(t@),
{
    starts_with_vec(t, &chars_of("#include <time.h>")) || starts_with_vec(
        t,
        &chars_of("#include <stdio.h>"),
    ) || starts_with_vec(t, &chars_of("#include <stdlib.h>")) || starts_with_vec(
        t,
        &chars_of("#define _POSIX"),
    )
}

fn build_kernel_text(kernel_source: &str) -> (s: String)
    ensures
        s@ == join(kept_lines(lines(kernel_source@)), "\n"@),
{
    let ls = lines_vec(&chars_of(kernel_source));
    let mut kept: Vec<Vec<char>> = Vec::new();
    let mut i: usize = 0;
    assert(views(kept@) =~= kept_lines(views(ls@).subrange(0, 0)));
    while i < ls.len()
        invariant
            i <= ls@.len(),
            views(kept@) == kept_lines(views(ls@).subrange(0, i as int)),
        decreases ls@.len() - i,
    {
        let ghost pre = views(ls@).subrange(0, i as int + 1);
        assert(pre.drop_last() =~= views(ls@).subrange(0, i as int));
        assert(pre.last() == ls@[i as int]@);
        let t = trim_start_vec(&ls[i]);
        if !is_excluded(&t) {
            let ghost old_kept = kept@;
            let line = crate::chars::copy_chars(&ls[i]);
            kept.push(line);
            assert(views(kept@) =~= views(old_kept).push(pre.last()));
        }
        i += 1;
    }
    assert(views(ls@).subrange(0, ls@.len() as int) =~= views(ls@));
    let mut s = String::new();
    let mut k: usize = 0;
    assert(s@ =~= join(views(kept@).subrange(0, 0), "\n"@));
    while k < kept.len()
        invariant
            k <= kept@.len(),
            s@ == join(views(kept@).subrange(0, k as int), "\n"@),
        decreases kept@.len() - k,
    {
        let ghost pre = views(kept@).subrange(0, k as int + 1);
        assert(pre.drop_last() =~= views(kept@).subrange(0, k as int));
        assert(pre.last() == kept@[k as int]@);
        if k > 0 {
            s.append("\n");
        } else {
            assert(s@ =~= Seq::<char>::empty());
        }
        append_chars(&mut s, &kept[k]);
        proof {
            if k == 0 {
                assert(pre.len() == 1);
                assert(s@ =~= pre[0]);
            }
        }
        k += 1;
    }
    assert(views(kept@).subrange(0, kept@.len() as int) =~= views(kept@));
    s
}

fn build_main_head() -> (s: String)
    ensures
        s@ == main_head(),
{
    let mut s = owned("int main(int argc, char **argv) {\n");
    s.append(
        "    uint32_t seed = (argc > 1) ? (uint32_t)strtoul(argv[1], NULL, 0) : 0x9e3779b9u;\n",
    );
    s
}

fn unnamed(pname: &str) -> (b: bool)
    ensures
        b == is_unnamed(pname@),
{
    let v = chars_of(pname);
    v.len() > 0 && v[0] == '%'
}

fn pointer_type(ptype: &str) -> (b: bool)
    ensures
        b == is_pointer(ptype@),
{
    contains_char_vec(&chars_of(ptype), '*')
}

fn push_c_name(s: &mut String, pname: &str, prefix: &str, k: usize)
    ensures
        final(s)@ == old(s)@ + c_name(pname@, prefix@, k as nat),
{
    if unnamed(pname) {
        s.append(prefix);
        push_usize(s, k);
        assert(final(s)@ =~= old(s)@ + (prefix@ + decimal(k as nat)));
    } else {
        s.append(pname);
    }
}

fn build_buffers(params: &[(String, String)]) -> (r: (String, String, usize))
    ensures
        r.0@ == buffer_decls(pair_views(params@)),
        r.1@ == buffer_inits(pair_views(params@)),
        r.2 == count_pointers(pair_views(params@)),
{
    let ghost pv = pair_views(params@);
    let mut decls = String::new();
    let mut inits = String::new();
    let mut nb: usize = 0;
    let mut i: usize = 0;
    assert(decls@ =~= buffer_decls(pv.subrange(0, 0)));
    assert(inits@ =~= buffer_inits(pv.subrange(0, 0)));
    while i < params.len()
        invariant
            i <= params@.len(),
            pv == pair_views(params@),
            decls@ == buffer_decls(pv.subrange(0, i as int)),
            inits@ == buffer_inits(pv.subrange(0, i as int)),
            nb == count_pointers(pv.subrange(0, i as int)),
            nb <= i,
        decreases params@.len() - i,
    {
        let ghost pre = pv.subrange(0, i as int + 1);
        assert(pre.drop_last() =~= pv.subrange(0, i as int));
        assert(pre.last() == (params@[i as int].0@, params@[i as int].1@));
        let pname = params[i].0.as_str();
        let ptype = params[i].1.as_str();
        if pointer_type(ptype) {
            decls.append("    uint8_t ");
            push_c_name(&mut decls, pname, "buf", nb);
            decls.append("[4096];\n");
            inits.append("    for (int j = 0; j < 4096; j++) ");
            push_c_name(&mut inits, pname, "buf", nb);
            inits.append("[j] = (uint8_t)(seed + (uint32_t)(j * 31 + 17));\n");
            nb += 1;
        }
        i += 1;
    }
    assert(pv.subrange(0, params@.len() as int) =~= pv);
    (decls, inits, nb)
}

fn push_scalar_value(s: &mut String, pname: &str)
    ensures
        final(s)@ == old(s)@ + scalar_value(pname@),
{
    let v = chars_of(pname);
    if str_eq(pname, "len") || contains_char_vec(&v, 'n') || contains_vec(&v, &chars_of("count")) {
        s.append("4096");
    } else {
        s.append("42");
    }
}

fn build_scalars(params: &[(String, String)], nb: usize) -> (s: String)
    ensures
        s@ == scalar_decls(pair_views(params@), nb as nat),
{
    let ghost pv = pair_views(params@);
    let mut s = String::new();
    let mut i: usize = 0;
    assert(s@ =~= scalar_decls(pv.subrange(0, 0), nb as nat));
    while i < params.len()
        invariant
            i <= params@.len(),
            pv == pair_views(params@),
            s@ == scalar_decls(pv.subrange(0, i as int), nb as nat),
        decreases params@.len() - i,
    {
        let ghost pre = pv.subrange(0, i as int + 1);
        assert(pre.drop_last() =~= pv.subrange(0, i as int));
        assert(pre.last() == (params@[i as int].0@, params@[i as int].1@));
        let pname = params[i].0.as_str();
        let ptype = params[i].1.as_str();
        if !pointer_type(ptype) {
            s.append("    ");
            s.append(ptype);
            s.append(" ");
            push_c_name(&mut s, pname, "scalar", nb);
            s.append(" = ");
            push_scalar_value(&mut s, pname);
            s.append(";\n");
        }
        i += 1;
    }
    assert(pv.subrange(0, params@.len() as int) =~= pv);
    s
}

fn push_call_arg(s: &mut String, pname: &str)
    ensures
        final(s)@ == old(s)@ + call_arg(pname@),
{
    if unnamed(pname) {
        s.append("scalar");
        let rest = trim_start_char_vec(&chars_of(pname), '%');
        append_chars(s, &rest);
        assert(final(s)@ =~= old(s)@ + ("scalar"@ + trim_start_char(pname@, '%')));
    } else {
        s.append(pname);
    }
}

fn build_call(func_name: &str, params: &[(String, String)]) -> (s: String)
    ensures
        s@ == call_text(func_name@, pair_views(params@)),
{
    let ghost pv = pair_views(params@);
    let ghost args = pv.map_values(|p: (Seq<char>, Seq<char>)| call_arg(p.0));
    let mut joined = String::new();
    let mut i: usize = 0;
    assert(joined@ =~= join(args.subrange(0, 0), ", "@));
    while i < params.len()
        invariant
            i <= params@.len(),
            pv == pair_views(params@),
            args == pv.map_values(|p: (Seq<char>, Seq<char>)| call_arg(p.0)),
            joined@ == join(args.subrange(0, i as int), ", "@),
        decreases params@.len() - i,
    {
        let ghost pre = args.subrange(0, i as int + 1);
        assert(pre.drop_last() =~= args.subrange(0, i as int));
        assert(pre.last() == call_arg(params@[i as int].0@));
        if i > 0 {
            joined.append(", ");
        } else {
            assert(joined@ =~= Seq::<char>::empty());
        }
        push_call_arg(&mut joined, params[i].0.as_str());
        proof {
            if i == 0 {
                assert(joined@ =~= pre[0]);
            }
        }
        i += 1;
    }
    assert(args.subrange(0, params@.len() as int) =~= args);
    let mut s = owned(func_name);
    s.append("(");
    s.append(joined.as_str());
    s.append(")");
    s
}

fn build_warmup(return_type: &str, call: &str, warmup: usize) -> (s: String)
    ensures
        s@ == warmup_loop(return_type@, call@, warmup as nat),
{
    let mut s = owned("\n    for (int i = 0; i < ");
    push_usize(&mut s, warmup);
    s.append("; i++) {\n");
    s.append("        volatile ");
    s.append(return_type);
    s.append(" r = ");
    s.append(call);
    s.append(";\n        (void)r;\n    }\n");
    s
}

fn build_timed(return_type: &str, iterations: usize) -> (s: String)
    ensures
        s@ == timed_loop(return_type@, iterations as nat),
{
    let mut s = owned("    struct timespec start, end;\n");
    s.append("    clock_gettime(CLOCK_MONOTONIC, &start);\n");
    s.append("    ");
    s.append(return_type);
    s.append(" total = 0;\n");
    s.append("    for (int i = 0; i < ");
    push_usize(&mut s, iterations);
    s.append("; i++) {\n");
    s.append("        volatile ");
    s.append(return_type);
    s.append(" v_total = (");
    s.append(return_type);
    s.append(") total;\n");
    s.append("        total = v_total + (");
    s.append(return_type);
    s.append(")(i & 1); /* prevent fold */\n");
    s.append("    }\n");
    s.append("    clock_gettime(CLOCK_MONOTONIC, &end);\n");
    s.append(
        "    double elapsed = (double)(end.tv_sec - start.tv_sec) + (double)(end.tv_nsec - start.tv_nsec) / 1e9;\n",
    );
    s.append("    printf(\"%.9f\\n\", elapsed);\n");
    s.append("    fprintf(stderr, \"checksum: ok\\n\");\n");
    s.append("    return 0;\n");
    s.append("}\n");
    s
}

/// Generates the C benchmark harness for a kernel: the kernel source
/// without the includes the harness writes itself, one 4096-byte input
/// buffer per pointer parameter, a value per scalar parameter, `warmup`
/// untimed calls and a timed loop of `iterations` rounds.
pub fn generate_harness(
    func_name: &str,
    kernel_source: &str,
    params: &[(String, String)],
    return_type: &str,
    iterations: usize,
    warmup: usize,
) -> (buf: String)
    ensures
        buf@ == harness_text(
            func_name@,
            kernel_source@,
            pair_views(params@),
            return_type@,
            iterations as nat,
            warmup as nat,
        ),
{
    let mut buf = build_preamble();
    let kernel = build_kernel_text(kernel_source);
    buf.append(kernel.as_str());
    buf.append("\n");
    let head = build_main_head();
    buf.append(head.as_str());
    let (decls, inits, nb) = build_buffers(params);
    buf.append(decls.as_str());
    buf.append(inits.as_str());
    let scalars = build_scalars(params, nb);
    buf.append(scalars.as_str());
    let call = build_call(func_name, params);
    let warm = build_warmup(return_type, call.as_str(), warmup);
    buf.append(warm.as_str());
    let timed = build_timed(return_type, iterations);
    buf.append(timed.as_str());
    buf
}

} // verus!

verus! {

/// The strings of `v` joined with `sep` between consecutive ones.
pub fn join_strings(v: &Vec<String>, sep: &str) -> (s: String)
    ensures
        s@ == join(crate::text::string_views(v@), sep@),
{
    let ghost sv = crate::text::string_views(v@);
    let mut s = String::new();
    let mut k: usize = 0;
    assert(s@ =~= join(sv.subrange(0, 0), sep@));
    while k < v.len()
        invariant
            k <= v@.len(),
            sv == crate::text::string_views(v@),
            s@ == join(sv.subrange(0, k as int), sep@),
        decreases v@.len() - k,
    {
        let ghost pre = sv.subrange(0, k as int + 1);
        assert(pre.drop_last() =~= sv.subrange(0, k as int));
        assert(pre.last() == v@[k as int]@);
        if k > 0 {
            s.append(sep);
        } else {
            assert(s@ =~= Seq::<char>::empty());
        }
        s.append(v[k].as_str());
        proof {
            if k == 0 {
                assert(s@ =~= pre[0]);
            }
        }
        k += 1;
    }
    assert(sv.subrange(0, v@.len() as int) =~= sv);
    s
}

/// The end of every harness: a single `    }` line closing the timing loop,
/// then, still inside `main`, the end time, the elapsed-time `printf`, the
/// checksum line and `return 0;`, and the one brace that closes `main`.
pub open spec fn harness_tail() -> Seq<char> {
    "    }\n"@ + "    clock_gettime(CLOCK_MONOTONIC, &end);\n"@
        + "    double elapsed = (double)(end.tv_sec - start.tv_sec) + (double)(end.tv_nsec - start.tv_nsec) / 1e9;\n"@
        + "    printf(\"%.9f\\n\", elapsed);\n"@ + "    fprintf(stderr, \"checksum: ok\\n\");\n"@
        + "    return 0;\n"@ + "}\n"@
}

/// Every harness ends with `harness_tail()`: the timing loop is closed by
/// one `    }` line and `main` by one `}` after its `return 0;`.
pub proof fn law_harness_tail(
    func_name: Seq<char>,
    kernel_source: Seq<char>,
    pv: Seq<(Seq<char>, Seq<char>)>,
    return_type: Seq<char>,
    iterations: nat,
    warmup: nat,
)
    ensures
        crate::chars::occurs_at(
            harness_text(func_name, kernel_source, pv, return_type, iterations, warmup),
            harness_tail(),
            harness_text(func_name, kernel_source, pv, return_type, iterations, warmup).len()
                - harness_tail().len(),
        ),
{
    let t = harness_text(func_name, kernel_source, pv, return_type, iterations, warmup);
    let tl = timed_loop(return_type, iterations);
    assert(tl =~= ("    struct timespec start, end;\n"@ + "    clock_gettime(CLOCK_MONOTONIC, &start);\n"@
        + "    "@ + return_type + " total = 0;\n"@ + "    for (int i = 0; i < "@ + decimal(iterations)
        + "; i++) {\n"@ + "        volatile "@ + return_type + " v_total = ("@ + return_type + ") total;\n"@
        + "        total = v_total + ("@ + return_type + ")(i & 1); /* prevent fold */\n"@) + harness_tail());
    assert(t.subrange(t.len() - harness_tail().len(), t.len() as int) =~= harness_tail());
}

} // verus!
