//! Line-level reading of textual LLVM IR: the functions a module defines,
//! the globals it declares `external`, the raw signature of a definition,
//! and the C types that stand for LLVM scalar and pointer types.
use vstd::prelude::*;
use crate::chars::{trim, occurs_at, starts_with, first_index, last_index, find, contains, split_char, lines, tokens, views, trim_vec, starts_with_vec, first_index_vec, last_index_vec, find_vec, contains_vec, contains_char_vec, contains_chars, chars_eq, slice_chars, copy_chars, split_vec, lines_vec, tokens_vec};
use crate::text::{chars_of, string_of, string_views, strings_of, str_eq, owned, decimal, push_usize, append_chars};

verus! {

// ── Function names ──────────────────────────────────────────────────────

/// The name a `define ... @name(` line declares, if it is such a line.
pub open spec fn define_name(line: Seq<char>) -> Option<Seq<char>> {
    let t = trim(line);
    if !starts_with(t, "define "@) {
        None
    } else {
        match first_index(t, '@') {
            None => None,
            Some(at) => {
                let rest = t.subrange(at + 1, t.len() as int);
                match first_index(rest, '(') {
                    None => None,
                    Some(p) => Some(rest.subrange(0, p)),
                }
            },
        }
    }
}

/// The values held by the `Some` entries of `s`, in order.
pub open spec fn somes(s: Seq<Option<Seq<char>>>) -> Seq<Seq<char>>
    decreases s.len(),
{
    if s.len() == 0 {
        Seq::empty()
    } else {
        let p = somes(s.drop_last());
        match s.last() {
            Some(x) => p.push(x),
            None => p,
        }
    }
}

/// Names of the functions an IR module defines, in order of definition.
pub open spec fn spec_function_names(ll: Seq<char>) -> Seq<Seq<char>> {
    somes(lines(ll).map_values(|l: Seq<char>| define_name(l)))
}

pub open spec fn opt_chars(o: Option<Vec<char>>) -> Option<Seq<char>> {
    match o {
        Some(v) => Some(v@),
        None => None,
    }
}

fn define_name_of(line: &Vec<char>) -> (r: Option<Vec<char>>)
    ensures
        opt_chars(r) == define_name(line@),
{
    let t = trim_vec(line);
    let def = chars_of("define ");
    if !starts_with_vec(&t, &def) {
        return None;
    }
    match first_index_vec(&t, '@') {
        None => None,
        Some(at) => {
            let rest = slice_chars(&t, at + 1, t.len());
            match first_index_vec(&rest, '(') {
                None => None,
                Some(p) => Some(slice_chars(&rest, 0, p)),
            }
        },
    }
}

/// Function names defined in the module (`define ... @name(`), in order.
pub fn function_names(ll: &str) -> (names: Vec<String>)
    ensures
        string_views(names@) == spec_function_names(ll@),
{
    let v = chars_of(ll);
    let ls = lines_vec(&v);
    let ghost ms = views(ls@).map_values(|l: Seq<char>| define_name(l));
    let mut out: Vec<Vec<char>> = Vec::new();
    let mut i: usize = 0;
    assert(ms.subrange(0, 0) =~= Seq::<Option<Seq<char>>>::empty());
    assert(views(out@) =~= Seq::<Seq<char>>::empty());
    while i < ls.len()
        invariant
            i <= ls@.len(),
            ms.len() == ls@.len(),
            ms == views(ls@).map_values(|l: Seq<char>| define_name(l)),
            views(out@) == somes(ms.subrange(0, i as int)),
        decreases ls@.len() - i,
    {
        let d = define_name_of(&ls[i]);
        assert(views(ls@)[i as int] == ls@[i as int]@);
        assert(ms[i as int] == opt_chars(d));
        assert(ms.subrange(0, i as int + 1).drop_last() =~= ms.subrange(0, i as int));
        let ghost old_out = out@;
        match d {
            Some(n) => {
                out.push(n);
                assert(views(out@) =~= views(old_out).push(ms[i as int]->0));
            },
            None => {},
        }
        i += 1;
    }
    assert(ms.subrange(0, ms.len() as int) =~= ms);
    assert(views(ls@) == lines(v@));
    strings_of(&out)
}

// ── External globals ────────────────────────────────────────────────────

/// The global a line `@name = external ...` declares, if it is such a line.
pub open spec fn global_name(line: Seq<char>) -> Option<Seq<char>> {
    let t = trim(line);
    if !(t.len() > 0 && t[0] == '@') || !contains(t, "= external"@) {
        None
    } else {
        match first_index(t, '=') {
            None => None,
            Some(eq) => Some(trim(t.subrange(1, eq))),
        }
    }
}

/// The globals declared `external` in `ls`, without quoted names and
/// without repetitions, in order of first declaration.
pub open spec fn collect_globals(ls: Seq<Seq<char>>) -> Seq<Seq<char>>
    decreases ls.len(),
{
    if ls.len() == 0 {
        Seq::empty()
    } else {
        let prev = collect_globals(ls.drop_last());
        match global_name(ls.last()) {
            Some(n) => if first_index(n, '"') is None && !prev.contains(n) {
                prev.push(n)
            } else {
                prev
            },
            None => prev,
        }
    }
}

fn global_name_of(line: &Vec<char>) -> (r: Option<Vec<char>>)
    ensures
        opt_chars(r) == global_name(line@),
{
    let t = trim_vec(line);
    let ext = chars_of("= external");
    if !(t.len() > 0 && t[0] == '@') || !contains_vec(&t, &ext) {
        return None;
    }
    match first_index_vec(&t, '=') {
        None => None,
        Some(eq) => {
            let name = slice_chars(&t, 1, eq);
            Some(trim_vec(&name))
        },
    }
}

/// Internal globals declared `external` in the module (the names a driver
/// must define so that the renamed reference IR links), without names
/// holding a double quote and without repetitions.
pub fn external_globals(ll: &str) -> (names: Vec<String>)
    ensures
        string_views(names@) == collect_globals(lines(ll@)),
{
    let v = chars_of(ll);
    let ls = lines_vec(&v);
    let mut out: Vec<Vec<char>> = Vec::new();
    let mut i: usize = 0;
    assert(views(out@) =~= collect_globals(views(ls@).subrange(0, 0)));
    while i < ls.len()
        invariant
            i <= ls@.len(),
            views(out@) == collect_globals(views(ls@).subrange(0, i as int)),
        decreases ls@.len() - i,
    {
        let g = global_name_of(&ls[i]);
        let ghost pre = views(ls@).subrange(0, i as int + 1);
        assert(pre.drop_last() =~= views(ls@).subrange(0, i as int));
        assert(pre.last() == ls@[i as int]@);
        let ghost old_out = out@;
        match g {
            Some(n) => {
                if !contains_char_vec(&n, '"') && !contains_chars(&out, &n) {
                    out.push(n);
                    assert(views(out@) =~= views(old_out).push(global_name(pre.last())->0));
                }
            },
            None => {},
        }
        i += 1;
    }
    assert(views(ls@).subrange(0, ls@.len() as int) =~= views(ls@));
    strings_of(&out)
}

// ── Signatures ──────────────────────────────────────────────────────────

/// The text `@name(` that opens the parameter list of a definition.
pub open spec fn sig_needle(name: Seq<char>) -> Seq<char> {
    seq!['@'] + name + seq!['(']
}

/// Position of the parenthesis closing a list whose text starts at `i`,
/// with `depth` inner lists open; the length if none closes it.
pub open spec fn close_from(s: Seq<char>, i: int, depth: nat) -> int
    decreases s.len() - i,
{
    if i < 0 || i >= s.len() {
        s.len() as int
    } else if s[i] == '(' {
        close_from(s, i + 1, depth + 1)
    } else if s[i] == ')' {
        if depth == 0 {
            i
        } else {
            close_from(s, i + 1, (depth - 1) as nat)
        }
    } else {
        close_from(s, i + 1, depth)
    }
}

proof fn lemma_close_from(s: Seq<char>, i: int, depth: nat)
    requires
        0 <= i,
    ensures
        0 <= close_from(s, i, depth) <= s.len(),
    decreases s.len() - i,
{
    if i < s.len() {
        if s[i] == '(' {
            lemma_close_from(s, i + 1, depth + 1);
        } else if s[i] == ')' {
            if depth != 0 {
                lemma_close_from(s, i + 1, (depth - 1) as nat);
            }
        } else {
            lemma_close_from(s, i + 1, depth);
        }
    }
}

/// The first token of each non-blank parameter text, or `None` where a
/// non-blank parameter has no token.
pub open spec fn param_types(parts: Seq<Seq<char>>) -> Option<Seq<Seq<char>>>
    decreases parts.len(),
{
    if parts.len() == 0 {
        Some(Seq::empty())
    } else {
        match param_types(parts.drop_last()) {
            None => None,
            Some(ps) => {
                let p = trim(parts.last());
                if p.len() == 0 {
                    Some(ps)
                } else {
                    let tk = tokens(p);
                    if tk.len() == 0 {
                        None
                    } else {
                        Some(ps.push(tk[0]))
                    }
                }
            },
        }
    }
}

/// Return-type token and parameter-type tokens of a definition line `t`
/// that holds `needle`.
pub open spec fn line_sig(t: Seq<char>, needle: Seq<char>) -> Option<(Seq<char>, Seq<Seq<char>>)> {
    match find(t, needle) {
        None => None,
        Some(at) => {
            let toks = tokens(t.subrange(0, at));
            if toks.len() == 0 {
                None
            } else {
                let after = t.subrange(at + needle.len(), t.len() as int);
                let end = close_from(after, 0, 0);
                match param_types(split_char(after.subrange(0, end), ',')) {
                    None => None,
                    Some(ps) => Some((toks.last(), ps)),
                }
            }
        },
    }
}

/// The signature read from the first definition line, at or after line
/// `i`, that holds `needle`.
pub open spec fn sig_search(ls: Seq<Seq<char>>, needle: Seq<char>, i: int) -> Option<(Seq<char>, Seq<Seq<char>>)>
    decreases ls.len() - i,
{
    if i < 0 || i >= ls.len() {
        None
    } else {
        let t = trim(ls[i]);
        if starts_with(t, "define "@) && contains(t, needle) {
            line_sig(t, needle)
        } else {
            sig_search(ls, needle, i + 1)
        }
    }
}

/// `(return type, parameter types)` of the definition of `name`, as raw
/// LLVM tokens.
pub open spec fn spec_ir_signature(ll: Seq<char>, name: Seq<char>) -> Option<(Seq<char>, Seq<Seq<char>>)> {
    sig_search(lines(ll), sig_needle(name), 0)
}

fn close_index(s: &Vec<char>) -> (r: usize)
    ensures
        r == close_from(s@, 0, 0),
        r <= s@.len(),
{
    proof {
        lemma_close_from(s@, 0, 0);
    }
    let mut depth: usize = 0;
    let mut i: usize = 0;
    while i < s.len()
        invariant
            i <= s@.len(),
            depth <= i,
            close_from(s@, 0, 0) == close_from(s@, i as int, depth as nat),
        decreases s@.len() - i,
    {
        let c = s[i];
        if c == '(' {
            depth += 1;
        } else if c == ')' {
            if depth == 0 {
                return i;
            }
            depth -= 1;
        }
        i += 1;
    }
    i
}

fn param_types_of(parts: &Vec<Vec<char>>) -> (r: Option<Vec<Vec<char>>>)
    ensures
        match r {
            Some(ps) => param_types(views(parts@)) == Some(views(ps@)),
            None => param_types(views(parts@)) is None,
        },
{
    let mut ps: Vec<Vec<char>> = Vec::new();
    let mut i: usize = 0;
    assert(views(parts@).subrange(0, 0) =~= Seq::<Seq<char>>::empty());
    assert(views(ps@) =~= Seq::<Seq<char>>::empty());
    while i < parts.len()
        invariant
            i <= parts@.len(),
            param_types(views(parts@).subrange(0, i as int)) == Some(views(ps@)),
        decreases parts@.len() - i,
    {
        let ghost pre = views(parts@).subrange(0, i as int + 1);
        assert(pre.drop_last() =~= views(parts@).subrange(0, i as int));
        assert(pre.last() == parts@[i as int]@);
        let p = trim_vec(&parts[i]);
        if p.len() > 0 {
            let tk = tokens_vec(&p);
            if tk.len() == 0 {
                proof {
                    lemma_param_types_none(views(parts@), i as int + 1);
                }
                return None;
            }
            let first = copy_chars(&tk[0]);
            let ghost old_ps = ps@;
            ps.push(first);
            assert(views(ps@) =~= views(old_ps).push(views(tk@)[0]));
        }
        i += 1;
    }
    assert(views(parts@).subrange(0, parts@.len() as int) =~= views(parts@));
    Some(ps)
}

proof fn lemma_param_types_none(parts: Seq<Seq<char>>, n: int)
    requires
        0 <= n <= parts.len(),
        param_types(parts.subrange(0, n)) is None,
    ensures
        param_types(parts) is None,
    decreases parts.len() - n,
{
    if n < parts.len() {
        assert(parts.subrange(0, n + 1).drop_last() =~= parts.subrange(0, n));
        lemma_param_types_none(parts, n + 1);
    } else {
        assert(parts.subrange(0, n) =~= parts);
    }
}

fn line_sig_of(t: &Vec<char>, needle: &Vec<char>) -> (r: Option<(Vec<char>, Vec<Vec<char>>)>)
    ensures
        match r {
            Some((ret, ps)) => line_sig(t@, needle@) == Some((ret@, views(ps@))),
            None => line_sig(t@, needle@) is None,
        },
{
    match find_vec(t, needle) {
        None => None,
        Some(at) => {
            let before = slice_chars(t, 0, at);
            let toks = tokens_vec(&before);
            if toks.len() == 0 {
                return None;
            }
            let ret = copy_chars(&toks[toks.len() - 1]);
            assert(ret@ == views(toks@).last());
            assert(occurs_at(t@, needle@, at as int));
            let tl = t.len();
            let nl = needle.len();
            assert(at + nl <= tl);
            let after = slice_chars(t, at + nl, tl);
            let end = close_index(&after);
            let inner = slice_chars(&after, 0, end);
            let parts = split_vec(&inner, ',');
            match param_types_of(&parts) {
                None => None,
                Some(ps) => Some((ret, ps)),
            }
        },
    }
}

/// `(return type, parameter types)` of the definition of `name`, raw LLVM
/// tokens, read from the first `define` line that holds `@name(`.
pub fn ir_signature(ll: &str, name: &str) -> (r: Option<(String, Vec<String>)>)
    ensures
        match r {
            Some((ret, ps)) => spec_ir_signature(ll@, name@) == Some((ret@, string_views(ps@))),
            None => spec_ir_signature(ll@, name@) is None,
        },
{
    let v = chars_of(ll);
    let ls = lines_vec(&v);
    let mut needle: Vec<char> = Vec::new();
    needle.push('@');
    let nv = chars_of(name);
    let mut k: usize = 0;
    while k < nv.len()
        invariant
            k <= nv@.len(),
            needle@ == seq!['@'] + nv@.subrange(0, k as int),
        decreases nv@.len() - k,
    {
        needle.push(nv[k]);
        k += 1;
        assert(needle@ =~= seq!['@'] + nv@.subrange(0, k as int));
    }
    needle.push('(');
    assert(nv@.subrange(0, nv@.len() as int) =~= nv@);
    assert(needle@ =~= sig_needle(name@));
    let def = chars_of("define ");
    let mut i: usize = 0;
    while i < ls.len()
        invariant
            i <= ls@.len(),
            views(ls@) == lines(ll@),
            needle@ == sig_needle(name@),
            def@ == "define "@,
            spec_ir_signature(ll@, name@) == sig_search(views(ls@), needle@, i as int),
        decreases ls@.len() - i,
    {
        let t = trim_vec(&ls[i]);
        assert(views(ls@)[i as int] == ls@[i as int]@);
        if starts_with_vec(&t, &def) && contains_vec(&t, &needle) {
            return match line_sig_of(&t, &needle) {
                None => None,
                Some((ret, ps)) => {
                    let rs = string_of(&ret);
                    let pss = strings_of(&ps);
                    Some((rs, pss))
                },
            };
        }
        i += 1;
    }
    None
}

// ── C types ─────────────────────────────────────────────────────────────

/// C type for a raw LLVM scalar or pointer type token.
pub open spec fn spec_llvm_c_type(raw: Seq<char>) -> Seq<char> {
    if raw == "void"@ {
        "void"@
    } else if raw == "i1"@ {
        "bool"@
    } else if raw == "i8"@ {
        "uint8_t"@
    } else if raw == "i16"@ {
        "uint16_t"@
    } else if raw == "i32"@ {
        "uint32_t"@
    } else if raw == "i64"@ {
        "uint64_t"@
    } else if raw == "float"@ {
        "float"@
    } else if raw == "double"@ {
        "double"@
    } else if starts_with(raw, "ptr"@) {
        "const uint8_t *"@
    } else {
        "uint64_t"@
    }
}

/// C type for a raw LLVM scalar/pointer type token.
pub fn llvm_c_type(raw: &str) -> (c: String)
    ensures
        c@ == spec_llvm_c_type(raw@),
{
    if str_eq(raw, "void") {
        owned("void")
    } else if str_eq(raw, "i1") {
        owned("bool")
    } else if str_eq(raw, "i8") {
        owned("uint8_t")
    } else if str_eq(raw, "i16") {
        owned("uint16_t")
    } else if str_eq(raw, "i32") {
        owned("uint32_t")
    } else if str_eq(raw, "i64") {
        owned("uint64_t")
    } else if str_eq(raw, "float") {
        owned("float")
    } else if str_eq(raw, "double") {
        owned("double")
    } else if starts_with_vec(&chars_of(raw), &chars_of("ptr")) {
        owned("const uint8_t *")
    } else {
        owned("uint64_t")
    }
}

/// C type for an integer width written after `i` (`i128` has no C type of
/// its own and maps to 64 bits).
pub open spec fn width_c_type(w: Seq<char>) -> Seq<char> {
    if w == "1"@ {
        "bool"@
    } else if w == "8"@ {
        "uint8_t"@
    } else if w == "16"@ {
        "uint16_t"@
    } else if w == "32"@ {
        "uint32_t"@
    } else if w == "64"@ {
        "uint64_t"@
    } else if w == "128"@ {
        "uint64_t"@
    } else {
        "uint"@ + w + "_t"@
    }
}

fn width_c_type_of(w: &Vec<char>) -> (c: String)
    ensures
        c@ == width_c_type(w@),
{
    if chars_eq(w, &chars_of("1")) {
        owned("bool")
    } else if chars_eq(w, &chars_of("8")) {
        owned("uint8_t")
    } else if chars_eq(w, &chars_of("16")) {
        owned("uint16_t")
    } else if chars_eq(w, &chars_of("32")) {
        owned("uint32_t")
    } else if chars_eq(w, &chars_of("64")) {
        owned("uint64_t")
    } else if chars_eq(w, &chars_of("128")) {
        owned("uint64_t")
    } else {
        let mut s = owned("uint");
        append_chars(&mut s, w);
        s.append("_t");
        s
    }
}

/// An LLVM integer type `i<N>` of 8, 16, 32 or 64 bits is the C unsigned
/// integer of `N` bits, `uint<N>_t`, whether it is read as a type token or
/// as a width after `i`; `i1` is `bool` either way.
pub proof fn law_integer_c_types()
    ensures
        spec_llvm_c_type("i1"@) == "bool"@ && width_c_type("1"@) == "bool"@,
        spec_llvm_c_type("i8"@) == "uint"@ + "8"@ + "_t"@ && width_c_type("8"@) == "uint"@ + "8"@ + "_t"@,
        spec_llvm_c_type("i16"@) == "uint"@ + "16"@ + "_t"@ && width_c_type("16"@) == "uint"@ + "16"@ + "_t"@,
        spec_llvm_c_type("i32"@) == "uint"@ + "32"@ + "_t"@ && width_c_type("32"@) == "uint"@ + "32"@ + "_t"@,
        spec_llvm_c_type("i64"@) == "uint"@ + "64"@ + "_t"@ && width_c_type("64"@) == "uint"@ + "64"@ + "_t"@,
{
    reveal_strlit("void");
    reveal_strlit("i1");
    reveal_strlit("i8");
    reveal_strlit("i16");
    reveal_strlit("i32");
    reveal_strlit("i64");
    reveal_strlit("float");
    reveal_strlit("double");
    reveal_strlit("ptr");
    reveal_strlit("1");
    reveal_strlit("8");
    reveal_strlit("16");
    reveal_strlit("32");
    reveal_strlit("64");
    reveal_strlit("128");
    reveal_strlit("bool");
    reveal_strlit("uint8_t");
    reveal_strlit("uint16_t");
    reveal_strlit("uint32_t");
    reveal_strlit("uint64_t");
    reveal_strlit("uint");
    reveal_strlit("_t");
    assert("uint"@ + "8"@ + "_t"@ =~= "uint8_t"@);
    assert("uint"@ + "16"@ + "_t"@ =~= "uint16_t"@);
    assert("uint"@ + "32"@ + "_t"@ =~= "uint32_t"@);
    assert("uint"@ + "64"@ + "_t"@ =~= "uint64_t"@);
    assert("i8"@[1] != "i1"@[1]);
    assert("i16"@[1] != "i32"@[1] && "i16"@[1] != "i64"@[1] && "i32"@[1] != "i64"@[1]);
    assert("16"@[0] != "32"@[0] && "16"@[0] != "64"@[0] && "32"@[0] != "64"@[0]);
    assert("8"@[0] != "1"@[0]);
    assert("i1"@.len() != "void"@.len() && "i1"@.len() != "float"@.len() && "i1"@.len() != "double"@.len());
    assert("i8"@.len() != "void"@.len() && "i8"@.len() != "float"@.len() && "i8"@.len() != "double"@.len());
    assert("i16"@.len() != "void"@.len() && "i16"@.len() != "i1"@.len() && "i16"@.len() != "i8"@.len());
    assert("i32"@.len() != "void"@.len() && "i32"@.len() != "i1"@.len() && "i32"@.len() != "i8"@.len());
    assert("i64"@.len() != "void"@.len() && "i64"@.len() != "i1"@.len() && "i64"@.len() != "i8"@.len());
    assert("16"@.len() != "1"@.len() && "16"@.len() != "8"@.len());
    assert("32"@.len() != "1"@.len() && "32"@.len() != "8"@.len());
    assert("64"@.len() != "1"@.len() && "64"@.len() != "8"@.len());
}


/// The C return type read from the tokens before `@`, scanning from the
/// `n`-th token backwards to the nearest integer, `void` or `ptr` token.
pub open spec fn ret_from_tokens(toks: Seq<Seq<char>>, n: int) -> Option<Seq<char>>
    decreases n,
{
    if n <= 0 {
        None
    } else {
        let t = toks[n - 1];
        if t.len() > 0 && t[0] == 'i' {
            Some(width_c_type(t.subrange(1, t.len() as int)))
        } else if t == "void"@ {
            Some("void"@)
        } else if t == "ptr"@ {
            Some("const uint8_t *"@)
        } else {
            ret_from_tokens(toks, n - 1)
        }
    }
}

/// The C return type of an LLVM IR `define` line; `i64` where none is found.
pub open spec fn spec_extract_return_type(define_line: Seq<char>) -> Seq<char> {
    let t = trim(define_line);
    match first_index(t, '@') {
        None => "i64"@,
        Some(at) => {
            let toks = tokens(t.subrange(0, at));
            match ret_from_tokens(toks, toks.len() as int) {
                Some(r) => r,
                None => "i64"@,
            }
        },
    }
}

/// Extracts the C return type from an LLVM IR define line.
pub fn extract_return_type(define_line: &str) -> (r: String)
    ensures
        r@ == spec_extract_return_type(define_line@),
{
    let t = trim_vec(&chars_of(define_line));
    match first_index_vec(&t, '@') {
        None => owned("i64"),
        Some(at) => {
            let before = slice_chars(&t, 0, at);
            let toks = tokens_vec(&before);
            let void_t = chars_of("void");
            let ptr_t = chars_of("ptr");
            let mut n: usize = toks.len();
            while n > 0
                invariant
                    n <= toks@.len(),
                    first_index(trim(define_line@), '@') == Some(at as int),
                    views(toks@) == tokens(trim(define_line@).subrange(0, at as int)),
                    void_t@ == "void"@,
                    ptr_t@ == "ptr"@,
                    ret_from_tokens(views(toks@), toks@.len() as int) == ret_from_tokens(
                        views(toks@),
                        n as int,
                    ),
                decreases n,
            {
                let tok = &toks[n - 1];
                assert(views(toks@)[n - 1] == tok@);
                if tok.len() > 0 && tok[0] == 'i' {
                    let w = slice_chars(tok, 1, tok.len());
                    return width_c_type_of(&w);
                } else if chars_eq(tok, &void_t) {
                    return owned("void");
                } else if chars_eq(tok, &ptr_t) {
                    return owned("const uint8_t *");
                }
                n -= 1;
            }
            owned("i64")
        },
    }
}

// ── Parameters ──────────────────────────────────────────────────────────

/// C type of an LLVM parameter type token.
pub open spec fn param_c_type(ptype: Seq<char>) -> Seq<char> {
    if starts_with(ptype, "ptr"@) {
        "const uint8_t *"@
    } else if ptype.len() > 0 && ptype[0] == 'i' {
        width_c_type(ptype.subrange(1, ptype.len() as int))
    } else {
        "uint64_t"@
    }
}

/// `(name, C type)` of each non-blank parameter text; the k-th is named
/// `p{k}`, and its type is read from its first token (`ptr` if none).
pub open spec fn params_of(parts: Seq<Seq<char>>) -> Seq<(Seq<char>, Seq<char>)>
    decreases parts.len(),
{
    if parts.len() == 0 {
        Seq::empty()
    } else {
        let prev = params_of(parts.drop_last());
        let p = trim(parts.last());
        if p.len() == 0 {
            prev
        } else {
            let tk = tokens(p);
            let ptype = if tk.len() == 0 {
                "ptr"@
            } else {
                tk[0]
            };
            prev.push(("p"@ + decimal(prev.len()), param_c_type(ptype)))
        }
    }
}

/// The parameters of a `define` line: those between its first `(` and its
/// last `)`, none if it lacks either.
pub open spec fn spec_extract_params(define_line: Seq<char>) -> Seq<(Seq<char>, Seq<char>)> {
    match (first_index(define_line, '('), last_index(define_line, ')')) {
        (Some(o), Some(c)) => params_of(split_char(define_line.subrange(o + 1, c), ',')),
        _ => Seq::empty(),
    }
}

/// Whether the first `(` of a line comes before its last `)` wherever it
/// has both (the parameter text between them is then well formed).
pub open spec fn parens_ordered(define_line: Seq<char>) -> bool {
    match (first_index(define_line, '('), last_index(define_line, ')')) {
        (Some(o), Some(c)) => o < c,
        _ => true,
    }
}

pub open spec fn pair_views(v: Seq<(String, String)>) -> Seq<(Seq<char>, Seq<char>)> {
    v.map_values(|p: (String, String)| (p.0@, p.1@))
}

fn param_c_type_of(ptype: &Vec<char>) -> (c: String)
    ensures
        c@ == param_c_type(ptype@),
{
    if starts_with_vec(ptype, &chars_of("ptr")) {
        owned("const uint8_t *")
    } else if ptype.len() > 0 && ptype[0] == 'i' {
        let w = slice_chars(ptype, 1, ptype.len());
        width_c_type_of(&w)
    } else {
        owned("uint64_t")
    }
}

/// Extracts `(p{k}, C type)` for each parameter of an LLVM IR define line.
pub fn extract_params(define_line: &str) -> (result: Vec<(String, String)>)
    requires
        parens_ordered(define_line@),
    ensures
        pair_views(result@) == spec_extract_params(define_line@),
{
    let line = chars_of(define_line);
    let mut result: Vec<(String, String)> = Vec::new();
    let open = first_index_vec(&line, '(');
    let close = last_index_vec(&line, ')');
    match (open, close) {
        (Some(o), Some(c)) => {
            let inner = slice_chars(&line, o + 1, c);
            let parts = split_vec(&inner, ',');
            let ghost ps = views(parts@);
            let mut i: usize = 0;
            let mut idx: usize = 0;
            assert(ps.subrange(0, 0) =~= Seq::<Seq<char>>::empty());
            assert(pair_views(result@) =~= Seq::<(Seq<char>, Seq<char>)>::empty());
            while i < parts.len()
                invariant
                    i <= parts@.len(),
                    ps == views(parts@),
                    pair_views(result@) == params_of(ps.subrange(0, i as int)),
                    idx == result@.len(),
                    idx <= i,
                decreases parts@.len() - i,
            {
                let ghost pre = ps.subrange(0, i as int + 1);
                assert(pre.drop_last() =~= ps.subrange(0, i as int));
                assert(pre.last() == parts@[i as int]@);
                let p = trim_vec(&parts[i]);
                if p.len() > 0 {
                    let tk = tokens_vec(&p);
                    let ctype = if tk.len() == 0 {
                        param_c_type_of(&chars_of("ptr"))
                    } else {
                        assert(views(tk@)[0] == tk@[0]@);
                        param_c_type_of(&tk[0])
                    };
                    let mut name = owned("p");
                    push_usize(&mut name, idx);
                    let ghost old_r = result@;
                    result.push((name, ctype));
                    assert(pair_views(result@) =~= pair_views(old_r).push((name@, ctype@)));
                    idx += 1;
                }
                i += 1;
            }
            assert(ps.subrange(0, parts@.len() as int) =~= ps);
            result
        },
        _ => result,
    }
}

} // verus!
