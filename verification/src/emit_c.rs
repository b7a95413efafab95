//! The C emitter's statements: a function's signature, a `v<id>` statement
//! per computing node in dataflow order, its loop as a pre-tested `while`
//! over carried values, and its return.
use vstd::prelude::*;
use crate::emit::{c_type, c_type_text, scalar_c_text, expr_text, emit_expr, operand_text, emit_operand, carrier_views};
use crate::emit_order::{topo_spec, topo_order, closure_spec, dependency_closure, contains_id};
use crate::emit_prelude::{BITVECTOR_PRELUDE, bitvector_prelude};
use crate::ir::{Function, IrType, Node, NodeId, NodeKind, Param, elem_as_type, elem_as_type_exec};
use crate::text::{chars_of, decimal, owned, push_decimal, push_usize};
use crate::visit::node_of;

verus! {

// ── Statements ──────────────────────────────────────────────────────────

/// The statement `<indent><type> v<id> = <expr>;` of node `id` (nothing if
/// the arena lacks it).
pub open spec fn stmt_text(f: Function, c: Seq<(NodeId, Seq<char>)>, id: NodeId, indent: Seq<char>) -> Seq<char> {
    match node_of(f.arena@, id) {
        Some(n) => indent + c_type_text(n.ty) + " v"@ + decimal(id.id as nat) + " = "@ + expr_text(f, c, n) + ";\n"@,
        None => Seq::empty(),
    }
}

/// The statements of `ids`, in order.
pub open spec fn stmts_text(f: Function, c: Seq<(NodeId, Seq<char>)>, ids: Seq<NodeId>, indent: Seq<char>) -> Seq<
    char,
>
    decreases ids.len(),
{
    if ids.len() == 0 {
        Seq::empty()
    } else {
        stmts_text(f, c, ids.drop_last(), indent) + stmt_text(f, c, ids.last(), indent)
    }
}

/// The statements of those of `ids` not yet emitted, each once.
pub open spec fn fresh_stmts_text(
    f: Function,
    c: Seq<(NodeId, Seq<char>)>,
    ids: Seq<NodeId>,
    emitted: Seq<NodeId>,
    indent: Seq<char>,
) -> Seq<char>
    decreases ids.len(),
{
    if ids.len() == 0 {
        Seq::empty()
    } else if emitted.contains(ids[0]) {
        fresh_stmts_text(f, c, ids.drop_first(), emitted, indent)
    } else {
        stmt_text(f, c, ids[0], indent) + fresh_stmts_text(f, c, ids.drop_first(), emitted.push(ids[0]), indent)
    }
}

fn push_stmt(s: &mut String, f: &Function, c: &Vec<(NodeId, String)>, id: NodeId, indent: &str)
    ensures
        final(s)@ == old(s)@ + stmt_text(*f, carrier_views(c@), id, indent@),
{
    match f.get_node(id) {
        Some(n) => {
            let ghost s0 = s@;
            s.append(indent);
            s.append(c_type(&n.ty).as_str());
            s.append(" v");
            push_decimal(s, id.id);
            s.append(" = ");
            s.append(emit_expr(f, c, n).as_str());
            s.append(";\n");
            assert(s@ =~= s0 + stmt_text(*f, carrier_views(c@), id, indent@));
        },
        None => {
            assert(s@ =~= old(s)@ + stmt_text(*f, carrier_views(c@), id, indent@));
        },
    }
}

fn push_stmts(s: &mut String, f: &Function, c: &Vec<(NodeId, String)>, ids: &Vec<NodeId>, indent: &str)
    ensures
        final(s)@ == old(s)@ + stmts_text(*f, carrier_views(c@), ids@, indent@),
{
    let ghost s0 = s@;
    let mut i: usize = 0;
    assert(s@ =~= s0 + stmts_text(*f, carrier_views(c@), ids@.subrange(0, 0), indent@));
    while i < ids.len()
        invariant
            i <= ids@.len(),
            s@ == s0 + stmts_text(*f, carrier_views(c@), ids@.subrange(0, i as int), indent@),
        decreases ids@.len() - i,
    {
        let ghost pre = ids@.subrange(0, i + 1);
        assert(pre.drop_last() =~= ids@.subrange(0, i as int));
        push_stmt(s, f, c, ids[i], indent);
        i += 1;
        assert(s@ =~= s0 + stmts_text(*f, carrier_views(c@), ids@.subrange(0, i as int), indent@));
    }
    assert(ids@.subrange(0, ids@.len() as int) =~= ids@);
}

fn push_fresh_stmts(
    s: &mut String,
    f: &Function,
    c: &Vec<(NodeId, String)>,
    ids: &Vec<NodeId>,
    emitted: &mut Vec<NodeId>,
    indent: &str,
)
    ensures
        final(s)@ == old(s)@ + fresh_stmts_text(*f, carrier_views(c@), ids@, old(emitted)@, indent@),
        forall|x: NodeId| #[trigger] final(emitted)@.contains(x) <==> (old(emitted)@.contains(x) || ids@.contains(x)),
{
    let ghost s0 = s@;
    let ghost e0 = emitted@;
    let ghost goal = s0 + fresh_stmts_text(*f, carrier_views(c@), ids@, e0, indent@);
    let mut i: usize = 0;
    assert(ids@.subrange(0, ids@.len() as int) =~= ids@);
    assert(s@ =~= s@ + Seq::<char>::empty());
    while i < ids.len()
        invariant
            i <= ids@.len(),
            goal == s@ + fresh_stmts_text(*f, carrier_views(c@), ids@.subrange(i as int, ids@.len() as int), emitted@, indent@),
            forall|x: NodeId| #[trigger] emitted@.contains(x) <==> (e0.contains(x) || exists|k: int| 0 <= k < i && ids@[k] == x),
        decreases ids@.len() - i,
    {
        let ghost rest = ids@.subrange(i as int, ids@.len() as int);
        assert(rest.drop_first() =~= ids@.subrange(i + 1, ids@.len() as int));
        assert(rest[0] == ids@[i as int]);
        let id = ids[i];
        let ghost before = emitted@;
        if !contains_id(emitted, id) {
            emitted.push(id);
            proof {
                assert(emitted@[emitted@.len() - 1] == id);
                assert forall|x: NodeId| emitted@.contains(x) <==> (before.contains(x) || x == id) by {
                    if emitted@.contains(x) && x != id {
                        let k = choose|k: int| 0 <= k < emitted@.len() && emitted@[k] == x;
                        assert(before[k] == x);
                    }
                    if before.contains(x) {
                        let k = choose|k: int| 0 <= k < before.len() && before[k] == x;
                        assert(emitted@[k] == x);
                    }
                }
            }
            push_stmt(s, f, c, id, indent);
            assert(goal == s@ + fresh_stmts_text(*f, carrier_views(c@), ids@.subrange(i + 1, ids@.len() as int), emitted@, indent@));
        }
        assert(forall|x: NodeId| emitted@.contains(x) <==> (before.contains(x) || x == id));
        assert forall|x: NodeId| #[trigger] emitted@.contains(x) <==> (e0.contains(x) || exists|k: int| 0 <= k < i + 1 && ids@[k] == x) by {
            if emitted@.contains(x) && !before.contains(x) {
                assert(x == id);
                assert(ids@[i as int] == x);
            }
            if exists|k: int| 0 <= k < i + 1 && ids@[k] == x {
                let k = choose|k: int| 0 <= k < i + 1 && ids@[k] == x;
                if k < i {
                    assert(exists|k2: int| 0 <= k2 < i && ids@[k2] == x);
                    assert(before.contains(x));
                }
            }
            if before.contains(x) && !e0.contains(x) {
                assert(exists|k2: int| 0 <= k2 < i && ids@[k2] == x);
                let k2 = choose|k2: int| 0 <= k2 < i && ids@[k2] == x;
                assert(0 <= k2 < i + 1 && ids@[k2] == x);
            }
        }
        i += 1;
    }
    assert(ids@.subrange(0, ids@.len() as int) =~= ids@);
    assert(fresh_stmts_text(*f, carrier_views(c@), ids@.subrange(i as int, ids@.len() as int), emitted@, indent@) =~= Seq::<char>::empty());
    assert(s@ =~= s@ + Seq::<char>::empty());
    assert forall|x: NodeId| #[trigger] emitted@.contains(x) <==> (e0.contains(x) || ids@.contains(x)) by {
        if ids@.contains(x) {
            let k = choose|k: int| 0 <= k < ids@.len() && ids@[k] == x;
        }
    }
}

// ── The loop ────────────────────────────────────────────────────────────

/// The carried-value variables of a loop: carried input `i` written `c_<i>`;
/// listed from the last one so that a node carried twice reads as its last
/// variable.
pub open spec fn carriers_of(cins: Seq<NodeId>) -> Seq<(NodeId, Seq<char>)> {
    Seq::new(cins.len(), |k: int| (cins[cins.len() - 1 - k], "c_"@ + decimal((cins.len() - 1 - k) as nat)))
}

/// `    <type> c_<i> = <initial value>;` for each carried input below `k`.
pub open spec fn carrier_decls(f: Function, cins: Seq<NodeId>, k: nat) -> Seq<char>
    decreases k,
{
    if k == 0 || k > cins.len() {
        Seq::empty()
    } else {
        carrier_decls(f, cins, (k - 1) as nat) + match node_of(f.arena@, cins[k - 1]) {
            Some(n) => "    "@ + c_type_text(n.ty) + " c_"@ + decimal((k - 1) as nat) + " = "@ + expr_text(
                f,
                Seq::empty(),
                n,
            ) + ";\n"@,
            None => Seq::empty(),
        }
    }
}

/// `    <type> o_<i> = c_<i>;` for each output below `k`.
pub open spec fn output_decls(f: Function, outs: Seq<NodeId>, k: nat) -> Seq<char>
    decreases k,
{
    if k == 0 || k > outs.len() {
        Seq::empty()
    } else {
        output_decls(f, outs, (k - 1) as nat) + match node_of(f.arena@, outs[k - 1]) {
            Some(n) => "    "@ + c_type_text(n.ty) + " o_"@ + decimal((k - 1) as nat) + " = c_"@ + decimal(
                (k - 1) as nat,
            ) + ";\n"@,
            None => Seq::empty(),
        }
    }
}

/// `        o_<i> = <output>;` for each output below `k`.
pub open spec fn output_assigns(f: Function, c: Seq<(NodeId, Seq<char>)>, outs: Seq<NodeId>, k: nat) -> Seq<char>
    decreases k,
{
    if k == 0 || k > outs.len() {
        Seq::empty()
    } else {
        output_assigns(f, c, outs, (k - 1) as nat) + "        o_"@ + decimal((k - 1) as nat) + " = "@ + operand_text(
            f,
            c,
            outs[k - 1],
        ) + ";\n"@
    }
}

/// `        c_<i> = o_<i>;` for each `i` below `k`.
pub open spec fn carry_updates(k: nat) -> Seq<char>
    decreases k,
{
    if k == 0 {
        Seq::empty()
    } else {
        carry_updates((k - 1) as nat) + "        c_"@ + decimal((k - 1) as nat) + " = o_"@ + decimal((k - 1) as nat)
            + ";\n"@
    }
}

/// Whether a loop's termination is written in place: a carried input, a
/// parameter or a constant.
pub open spec fn term_is_atom(f: Function, cins: Seq<NodeId>, term: NodeId) -> bool {
    cins.contains(term) || (node_of(f.arena@, term) matches Some(n) && (n.kind is Parameter || n.kind is Constant))
}

/// The termination's nodes, in emission order.
pub open spec fn term_order(f: Function, term: NodeId, cins: Seq<NodeId>) -> Seq<NodeId> {
    topo_spec(f.arena@, seq![term], closure_spec(f.arena@, seq![term], cins))
}

/// The body's nodes (from the body and the outputs), in emission order.
pub open spec fn body_order(f: Function, body: Seq<NodeId>, outs: Seq<NodeId>, cins: Seq<NodeId>) -> Seq<NodeId> {
    topo_spec(f.arena@, body + outs, closure_spec(f.arena@, body + outs, cins))
}

/// A loop as C: its carried-value and output variables, then a pre-tested
/// `while (1)` that computes the termination, breaks when it is false,
/// computes the body (each node once), assigns the outputs and carries
/// them over.
pub open spec fn loop_text(f: Function, body: Seq<NodeId>, term: NodeId, outs: Seq<NodeId>, cins: Seq<NodeId>) -> Seq<
    char,
> {
    let c = carriers_of(cins);
    let to = term_order(f, term, cins);
    carrier_decls(f, cins, cins.len()) + output_decls(f, outs, outs.len()) + "    while (1) {\n"@ + stmts_text(
        f,
        c,
        to,
        "        "@,
    ) + "        if (!("@ + (if term_is_atom(f, cins, term) {
        operand_text(f, c, term)
    } else {
        "v"@ + decimal(term.id as nat)
    }) + ")) break;\n"@ + fresh_stmts_text(f, c, body_order(f, body, outs, cins), to, "        "@)
        + output_assigns(f, c, outs, outs.len()) + carry_updates(cins.len()) + "    }\n"@
}

/// The nodes a loop accounts for: its body, termination, outputs, carried
/// inputs and what it emits.
pub open spec fn loop_ids(f: Function, body: Seq<NodeId>, term: NodeId, outs: Seq<NodeId>, cins: Seq<NodeId>) -> Seq<
    NodeId,
> {
    body + seq![term] + outs + cins + term_order(f, term, cins) + body_order(f, body, outs, cins)
}

fn carriers_exec(cins: &Vec<NodeId>) -> (c: Vec<(NodeId, String)>)
    ensures
        carrier_views(c@) == carriers_of(cins@),
{
    let n = cins.len();
    let mut c: Vec<(NodeId, String)> = Vec::new();
    let mut k: usize = 0;
    while k < n
        invariant
            n == cins@.len(),
            k <= n,
            c@.len() == k,
            forall|j: int| 0 <= j < k ==> #[trigger] carrier_views(c@)[j] == carriers_of(cins@)[j],
        decreases n - k,
    {
        let mut name = owned("c_");
        push_usize(&mut name, n - 1 - k);
        let ghost before = c@;
        c.push((cins[n - 1 - k], name));
        proof {
            assert forall|j: int| 0 <= j < k + 1 implies #[trigger] carrier_views(c@)[j] == carriers_of(cins@)[j] by {
                if j < k {
                    assert(c@[j] == before[j]);
                    assert(carrier_views(before)[j] == carriers_of(cins@)[j]);
                }
            }
        }
        k += 1;
    }
    assert(carrier_views(c@) =~= carriers_of(cins@));
    c
}

fn push_carrier_decls(s: &mut String, f: &Function, cins: &Vec<NodeId>)
    ensures
        final(s)@ == old(s)@ + carrier_decls(*f, cins@, cins@.len()),
{
    let ghost s0 = s@;
    let empty: Vec<(NodeId, String)> = Vec::new();
    assert(carrier_views(empty@) =~= Seq::<(NodeId, Seq<char>)>::empty());
    let mut k: usize = 0;
    while k < cins.len()
        invariant
            k <= cins@.len(),
            carrier_views(empty@) == Seq::<(NodeId, Seq<char>)>::empty(),
            s@ == s0 + carrier_decls(*f, cins@, k as nat),
        decreases cins@.len() - k,
    {
        match f.get_node(cins[k]) {
            Some(n) => {
                s.append("    ");
                s.append(c_type(&n.ty).as_str());
                s.append(" c_");
                push_usize(s, k);
                s.append(" = ");
                s.append(emit_expr(f, &empty, n).as_str());
                s.append(";\n");
            },
            None => {},
        }
        k += 1;
        assert(s@ =~= s0 + carrier_decls(*f, cins@, k as nat));
    }
}

fn push_output_decls(s: &mut String, f: &Function, outs: &Vec<NodeId>)
    ensures
        final(s)@ == old(s)@ + output_decls(*f, outs@, outs@.len()),
{
    let ghost s0 = s@;
    let mut k: usize = 0;
    while k < outs.len()
        invariant
            k <= outs@.len(),
            s@ == s0 + output_decls(*f, outs@, k as nat),
        decreases outs@.len() - k,
    {
        match f.get_node(outs[k]) {
            Some(n) => {
                s.append("    ");
                s.append(c_type(&n.ty).as_str());
                s.append(" o_");
                push_usize(s, k);
                s.append(" = c_");
                push_usize(s, k);
                s.append(";\n");
            },
            None => {},
        }
        k += 1;
        assert(s@ =~= s0 + output_decls(*f, outs@, k as nat));
    }
}

fn push_output_assigns(s: &mut String, f: &Function, c: &Vec<(NodeId, String)>, outs: &Vec<NodeId>)
    ensures
        final(s)@ == old(s)@ + output_assigns(*f, carrier_views(c@), outs@, outs@.len()),
{
    let ghost s0 = s@;
    let mut k: usize = 0;
    while k < outs.len()
        invariant
            k <= outs@.len(),
            s@ == s0 + output_assigns(*f, carrier_views(c@), outs@, k as nat),
        decreases outs@.len() - k,
    {
        s.append("        o_");
        push_usize(s, k);
        s.append(" = ");
        s.append(emit_operand(f, c, outs[k]).as_str());
        s.append(";\n");
        k += 1;
        assert(s@ =~= s0 + output_assigns(*f, carrier_views(c@), outs@, k as nat));
    }
}

fn push_carry_updates(s: &mut String, n: usize)
    ensures
        final(s)@ == old(s)@ + carry_updates(n as nat),
{
    let ghost s0 = s@;
    let mut k: usize = 0;
    while k < n
        invariant
            k <= n,
            s@ == s0 + carry_updates(k as nat),
        decreases n - k,
    {
        s.append("        c_");
        push_usize(s, k);
        s.append(" = o_");
        push_usize(s, k);
        s.append(";\n");
        k += 1;
        assert(s@ =~= s0 + carry_updates(k as nat));
    }
}

/// Appends a loop's C text and gives the nodes it accounts for.
#[verifier::rlimit(40)]
fn push_loop(
    s: &mut String,
    f: &Function,
    body: &Vec<NodeId>,
    term: NodeId,
    outs: &Vec<NodeId>,
    cins: &Vec<NodeId>,
) -> (ids: Vec<NodeId>)
    ensures
        final(s)@ == old(s)@ + loop_text(*f, body@, term, outs@, cins@),
        forall|x: NodeId| #[trigger] ids@.contains(x) <==> loop_ids(*f, body@, term, outs@, cins@).contains(x),
{
    let ghost s0 = s@;
    let c = carriers_exec(cins);
    push_carrier_decls(s, f, cins);
    push_output_decls(s, f, outs);
    s.append("    while (1) {\n");
    let term_seed = vec![term];
    let term_set = dependency_closure(&term_seed, f, cins);
    let mut seeds: Vec<NodeId> = body.clone();
    let mut k: usize = 0;
    while k < outs.len()
        invariant
            k <= outs@.len(),
            seeds@ == body@ + outs@.subrange(0, k as int),
        decreases outs@.len() - k,
    {
        seeds.push(outs[k]);
        k += 1;
        assert(seeds@ =~= body@ + outs@.subrange(0, k as int));
    }
    assert(outs@.subrange(0, outs@.len() as int) =~= outs@);
    let body_set = dependency_closure(&seeds, f, cins);
    let to = topo_order(&term_seed, &term_set, f);
    assert(term_seed@ =~= seq![term]);
    push_stmts(s, f, &c, &to, "        ");
    let atom = contains_id(cins, term) || match f.get_node(term) {
        Some(n) => match n.kind {
            NodeKind::Parameter { .. } => true,
            NodeKind::Constant(_) => true,
            _ => false,
        },
        None => false,
    };
    s.append("        if (!(");
    if atom {
        s.append(emit_operand(f, &c, term).as_str());
    } else {
        s.append("v");
        push_decimal(s, term.id);
    }
    s.append(")) break;\n");
    let bo = topo_order(&seeds, &body_set, f);
    let mut emitted: Vec<NodeId> = to.clone();
    push_fresh_stmts(s, f, &c, &bo, &mut emitted, "        ");
    push_output_assigns(s, f, &c, outs);
    push_carry_updates(s, cins.len());
    s.append("    }\n");
    assert(s@ =~= s0 + loop_text(*f, body@, term, outs@, cins@));
    let mut ids: Vec<NodeId> = body.clone();
    ids.push(term);
    let mut all = ids;
    let mut j: usize = 0;
    while j < outs.len()
        invariant
            j <= outs@.len(),
            all@ == body@ + seq![term] + outs@.subrange(0, j as int),
        decreases outs@.len() - j,
    {
        all.push(outs[j]);
        j += 1;
        assert(all@ =~= body@ + seq![term] + outs@.subrange(0, j as int));
    }
    assert(outs@.subrange(0, outs@.len() as int) =~= outs@);
    let ghost a1 = all@;
    j = 0;
    while j < cins.len()
        invariant
            j <= cins@.len(),
            all@ == a1 + cins@.subrange(0, j as int),
        decreases cins@.len() - j,
    {
        all.push(cins[j]);
        j += 1;
        assert(all@ =~= a1 + cins@.subrange(0, j as int));
    }
    assert(cins@.subrange(0, cins@.len() as int) =~= cins@);
    let ghost a2 = all@;
    j = 0;
    while j < emitted.len()
        invariant
            j <= emitted@.len(),
            all@ == a2 + emitted@.subrange(0, j as int),
        decreases emitted@.len() - j,
    {
        all.push(emitted[j]);
        j += 1;
        assert(all@ =~= a2 + emitted@.subrange(0, j as int));
    }
    assert(emitted@.subrange(0, emitted@.len() as int) =~= emitted@);
    proof {
        let l = loop_ids(*f, body@, term, outs@, cins@);
        assert(l =~= a2 + to@ + bo@);
        assert forall|x: NodeId| #[trigger] all@.contains(x) <==> l.contains(x) by {
            if all@.contains(x) {
                let k = choose|k: int| 0 <= k < all@.len() && all@[k] == x;
                if k >= a2.len() {
                    assert(emitted@.contains(x));
                    if to@.contains(x) {
                        let m = choose|m: int| 0 <= m < to@.len() && to@[m] == x;
                        assert(l[a2.len() + m] == x);
                    } else {
                        let m = choose|m: int| 0 <= m < bo@.len() && bo@[m] == x;
                        assert(l[a2.len() + to@.len() + m] == x);
                    }
                } else {
                    assert(l[k] == x);
                }
            }
            if l.contains(x) {
                let k = choose|k: int| 0 <= k < l.len() && l[k] == x;
                if k < a2.len() {
                    assert(all@[k] == x);
                } else {
                    if k < a2.len() + to@.len() {
                        assert(to@[k - a2.len()] == x);
                        assert(to@.contains(x));
                    } else {
                        assert(bo@[k - a2.len() - to@.len()] == x);
                        assert(bo@.contains(x));
                    }
                    assert(emitted@.contains(x));
                    let m = choose|m: int| 0 <= m < emitted@.len() && emitted@[m] == x;
                    assert(all@[a2.len() + m] == x);
                }
            }
        }
    }
    all
}

// ── The function ────────────────────────────────────────────────────────

/// The C name of parameter `i`: its name, or `p<i>` for an unnamed `%N`.
pub open spec fn param_c_name(ps: Seq<Param>, i: nat) -> Seq<char> {
    if ps[i as int].name@.len() > 0 && ps[i as int].name@[0] == '%' {
        "p"@ + decimal(i)
    } else {
        ps[i as int].name@
    }
}

/// The declaration of parameter `i`: an array decays to a pointer to
/// constant elements.
pub open spec fn param_decl(ps: Seq<Param>, i: nat) -> Seq<char> {
    match ps[i as int].ty {
        IrType::Array { element, .. } => "const "@ + scalar_c_text(elem_as_type(element)) + " *"@ + param_c_name(ps, i),
        t => c_type_text(t) + " "@ + param_c_name(ps, i),
    }
}

/// The declarations of the first `k` parameters, separated by `, `.
pub open spec fn params_text(ps: Seq<Param>, k: nat) -> Seq<char>
    decreases k,
{
    if k == 0 {
        Seq::empty()
    } else if k == 1 {
        param_decl(ps, 0)
    } else {
        params_text(ps, (k - 1) as nat) + ", "@ + param_decl(ps, (k - 1) as nat)
    }
}

/// The last `::`-separated piece of `s` from position `start`, scanning
/// from `i` (the pieces found left to right, as `str::split` does).
pub open spec fn last_piece_from(s: Seq<char>, start: int, i: int) -> Seq<char>
    decreases s.len() - i,
{
    if i < 0 || start < 0 || start > i || i + 1 >= s.len() {
        s.subrange(start, s.len() as int)
    } else if s[i] == ':' && s[i + 1] == ':' {
        last_piece_from(s, i + 2, i + 2)
    } else {
        last_piece_from(s, start, i + 1)
    }
}

/// Whether some node or parameter is a bit mask.
pub open spec fn uses_bitvectors(f: Function) -> bool {
    (exists|k: int| 0 <= k < f.arena@.len() && f.arena@[k].ty is BitVector) || (exists|k: int|
        0 <= k < f.params@.len() && f.params@[k].ty is BitVector)
}

/// The last loop node among the first `k` nodes of the arena.
pub open spec fn last_loop(nodes: Seq<Node>, k: nat) -> Option<Node>
    decreases k,
{
    if k == 0 || k > nodes.len() {
        None
    } else if nodes[k - 1].kind is Loop {
        Some(nodes[k - 1])
    } else {
        last_loop(nodes, (k - 1) as nat)
    }
}

/// The last return node among the first `k` nodes of the arena.
pub open spec fn last_return(nodes: Seq<Node>, k: nat) -> Option<Node>
    decreases k,
{
    if k == 0 || k > nodes.len() {
        None
    } else if nodes[k - 1].kind is Return {
        Some(nodes[k - 1])
    } else {
        last_return(nodes, (k - 1) as nat)
    }
}

/// The nodes emitted as statements when there is no loop: all but
/// parameters, returns and loops, in arena order (among the first `k`).
pub open spec fn plain_ids(nodes: Seq<Node>, k: nat) -> Seq<NodeId>
    decreases k,
{
    if k == 0 || k > nodes.len() {
        Seq::empty()
    } else {
        let n = nodes[k - 1];
        if n.kind is Parameter || n.kind is Return || n.kind is Loop {
            plain_ids(nodes, (k - 1) as nat)
        } else {
            plain_ids(nodes, (k - 1) as nat).push(n.id)
        }
    }
}

/// The nodes emitted after a loop: all but parameters, returns, loops,
/// constants and the loop's own nodes, in arena order (among the first
/// `k`).
pub open spec fn post_ids(nodes: Seq<Node>, skip: Seq<NodeId>, k: nat) -> Seq<NodeId>
    decreases k,
{
    if k == 0 || k > nodes.len() {
        Seq::empty()
    } else {
        let n = nodes[k - 1];
        if n.kind is Parameter || n.kind is Return || n.kind is Loop || n.kind is Constant || skip.contains(n.id) {
            post_ids(nodes, skip, (k - 1) as nat)
        } else {
            post_ids(nodes, skip, (k - 1) as nat).push(n.id)
        }
    }
}

/// The statements of a function: with a loop, the loop (the arena's last)
/// and then the remaining nodes; without, every computing node; each
/// group in dataflow order.
pub open spec fn body_text(f: Function) -> Seq<char> {
    let nodes = f.arena@;
    let empty = Seq::<(NodeId, Seq<char>)>::empty();
    match last_loop(nodes, nodes.len()) {
        Some(ln) => match ln.kind {
            NodeKind::Loop { body, termination, outputs, carried_inputs } => {
                let skip = loop_ids(f, body@, termination, outputs@, carried_inputs@);
                let post = post_ids(nodes, skip, nodes.len());
                loop_text(f, body@, termination, outputs@, carried_inputs@) + stmts_text(
                    f,
                    empty,
                    topo_spec(nodes, post, post),
                    "    "@,
                )
            },
            _ => Seq::empty(),
        },
        None => {
            let all = plain_ids(nodes, nodes.len());
            stmts_text(f, empty, topo_spec(nodes, all, all), "    "@)
        },
    }
}

/// The return statement of the arena's last return node, if any.
pub open spec fn return_text(f: Function) -> Seq<char> {
    match last_return(f.arena@, f.arena@.len()) {
        Some(rn) => match rn.kind {
            NodeKind::Return { value } => "    return "@ + operand_text(f, Seq::empty(), value) + ";\n"@,
            _ => Seq::empty(),
        },
        None => Seq::empty(),
    }
}

/// The C source of a function: the includes, the bit-mask helpers when a
/// node or parameter is a bit mask, the signature (the name's last
/// `::`-piece), the statements, the return and the closing brace.
pub open spec fn c_source_text(f: Function) -> Seq<char> {
    "#include <stdint.h>\n#include <stdbool.h>\n\n"@ + (if uses_bitvectors(f) {
        BITVECTOR_PRELUDE@ + "\n"@
    } else {
        Seq::empty()
    }) + c_type_text(f.return_ty) + " "@ + last_piece_from(f.name@, 0, 0) + "("@ + params_text(
        f.params@,
        f.params@.len(),
    ) + ") {\n"@ + body_text(f) + return_text(f) + "}\n"@
}

/// Whether the arena holds every carried input and output of its last
/// loop (the emitter reads their types).
pub open spec fn loop_nodes_present(f: Function) -> bool {
    match last_loop(f.arena@, f.arena@.len()) {
        Some(ln) => match ln.kind {
            NodeKind::Loop { outputs, carried_inputs, .. } => (forall|i: int|
                0 <= i < carried_inputs@.len() ==> #[trigger] node_of(f.arena@, carried_inputs@[i]) is Some) && (forall|
                i: int,
            | 0 <= i < outputs@.len() ==> #[trigger] node_of(f.arena@, outputs@[i]) is Some),
            _ => true,
        },
        None => true,
    }
}

fn push_param_decl(s: &mut String, ps: &Vec<Param>, i: usize)
    requires
        i < ps@.len(),
    ensures
        final(s)@ == old(s)@ + param_decl(ps@, i as nat),
{
    let ghost s0 = s@;
    let p = &ps[i];
    let cs = chars_of(p.name.as_str());
    let name = if cs.len() > 0 && cs[0] == '%' {
        let mut n = owned("p");
        push_usize(&mut n, i);
        n
    } else {
        owned(p.name.as_str())
    };
    match p.ty {
        IrType::Array { element, .. } => {
            s.append("const ");
            s.append(c_type(&elem_as_type_exec(element)).as_str());
            s.append(" *");
            s.append(name.as_str());
        },
        t => {
            s.append(c_type(&t).as_str());
            s.append(" ");
            s.append(name.as_str());
        },
    }
    assert(s@ =~= s0 + param_decl(ps@, i as nat));
}

fn push_last_piece(s: &mut String, name: &str)
    ensures
        final(s)@ == old(s)@ + last_piece_from(name@, 0, 0),
{
    let cs = chars_of(name);
    let n = cs.len();
    let mut start: usize = 0;
    let mut i: usize = 0;
    while i < n && n - i > 1
        invariant
            n == cs@.len(),
            cs@ == name@,
            start <= i,
            i <= n,
            last_piece_from(name@, 0, 0) == last_piece_from(name@, start as int, i as int),
        decreases n - i,
    {
        if cs[i] == ':' && cs[i + 1] == ':' {
            start = i + 2;
            i = i + 2;
        } else {
            i = i + 1;
        }
    }
    let ghost s0 = s@;
    let mut k: usize = start;
    assert(s@ =~= s0 + cs@.subrange(start as int, k as int));
    while k < n
        invariant
            n == cs@.len(),
            start <= k <= n,
            s@ == s0 + cs@.subrange(start as int, k as int),
        decreases n - k,
    {
        crate::text::push_char(s, cs[k]);
        k += 1;
        assert(s@ =~= s0 + cs@.subrange(start as int, k as int));
    }
    assert(s@ =~= s0 + cs@.subrange(start as int, n as int));
}

fn uses_bitvectors_exec(f: &Function) -> (b: bool)
    ensures
        b == uses_bitvectors(*f),
{
    let mut i: usize = 0;
    while i < f.arena.len()
        invariant
            i <= f.arena@.len(),
            forall|k: int| 0 <= k < i ==> !(f.arena@[k].ty is BitVector),
        decreases f.arena@.len() - i,
    {
        if let IrType::BitVector { .. } = f.arena[i].ty {
            return true;
        }
        i += 1;
    }
    let mut j: usize = 0;
    while j < f.params.len()
        invariant
            j <= f.params@.len(),
            forall|k: int| 0 <= k < f.arena@.len() ==> !(f.arena@[k].ty is BitVector),
            forall|k: int| 0 <= k < j ==> !(f.params@[k].ty is BitVector),
        decreases f.params@.len() - j,
    {
        if let IrType::BitVector { .. } = f.params[j].ty {
            return true;
        }
        j += 1;
    }
    false
}

fn last_positions(f: &Function) -> (r: (Option<usize>, Option<usize>))
    ensures
        last_loop(f.arena@, f.arena@.len()) == (match r.0 {
            Some(j) => Some(f.arena@[j as int]),
            None => None,
        }),
        r.0 matches Some(j) ==> j < f.arena@.len(),
        last_return(f.arena@, f.arena@.len()) == (match r.1 {
            Some(j) => Some(f.arena@[j as int]),
            None => None,
        }),
        r.1 matches Some(j) ==> j < f.arena@.len(),
{
    let mut lp: Option<usize> = None;
    let mut rp: Option<usize> = None;
    let mut i: usize = 0;
    while i < f.arena.len()
        invariant
            i <= f.arena@.len(),
            last_loop(f.arena@, i as nat) == (match lp {
                Some(j) => Some(f.arena@[j as int]),
                None => None,
            }),
            lp matches Some(j) ==> j < i,
            last_return(f.arena@, i as nat) == (match rp {
                Some(j) => Some(f.arena@[j as int]),
                None => None,
            }),
            rp matches Some(j) ==> j < i,
        decreases f.arena@.len() - i,
    {
        match f.arena[i].kind {
            NodeKind::Loop { .. } => {
                lp = Some(i);
            },
            NodeKind::Return { .. } => {
                rp = Some(i);
            },
            _ => {},
        }
        i += 1;
    }
    (lp, rp)
}

fn plain_ids_exec(f: &Function) -> (ids: Vec<NodeId>)
    ensures
        ids@ == plain_ids(f.arena@, f.arena@.len()),
{
    let mut ids: Vec<NodeId> = Vec::new();
    let mut i: usize = 0;
    while i < f.arena.len()
        invariant
            i <= f.arena@.len(),
            ids@ == plain_ids(f.arena@, i as nat),
        decreases f.arena@.len() - i,
    {
        match f.arena[i].kind {
            NodeKind::Parameter { .. } => {},
            NodeKind::Return { .. } => {},
            NodeKind::Loop { .. } => {},
            _ => {
                ids.push(f.arena[i].id);
            },
        }
        i += 1;
    }
    ids
}

proof fn lemma_post_ids_members(nodes: Seq<Node>, a: Seq<NodeId>, b: Seq<NodeId>, k: nat)
    requires
        forall|x: NodeId| #[trigger] a.contains(x) <==> b.contains(x),
    ensures
        post_ids(nodes, a, k) == post_ids(nodes, b, k),
    decreases k,
{
    if k > 0 && k <= nodes.len() {
        lemma_post_ids_members(nodes, a, b, (k - 1) as nat);
        assert(a.contains(nodes[k - 1].id) == b.contains(nodes[k - 1].id));
    }
}

fn post_ids_exec(f: &Function, skip: &Vec<NodeId>) -> (ids: Vec<NodeId>)
    ensures
        ids@ == post_ids(f.arena@, skip@, f.arena@.len()),
{
    let mut ids: Vec<NodeId> = Vec::new();
    let mut i: usize = 0;
    while i < f.arena.len()
        invariant
            i <= f.arena@.len(),
            ids@ == post_ids(f.arena@, skip@, i as nat),
        decreases f.arena@.len() - i,
    {
        let keep = match f.arena[i].kind {
            NodeKind::Parameter { .. } => false,
            NodeKind::Return { .. } => false,
            NodeKind::Loop { .. } => false,
            NodeKind::Constant(_) => false,
            _ => !contains_id(skip, f.arena[i].id),
        };
        if keep {
            ids.push(f.arena[i].id);
        }
        i += 1;
    }
    ids
}

/// Emits a function as C source (see `c_source_text`).
#[verifier::rlimit(40)]
pub fn emit_c(f: &Function) -> (out: String)
    requires
        loop_nodes_present(*f),
    ensures
        out@ == c_source_text(*f),
{
    let empty: Vec<(NodeId, String)> = Vec::new();
    assert(carrier_views(empty@) =~= Seq::<(NodeId, Seq<char>)>::empty());
    let mut out = owned("#include <stdint.h>\n#include <stdbool.h>\n\n");
    let ghost head = out@;
    if uses_bitvectors_exec(f) {
        out.append(bitvector_prelude());
        out.append("\n");
    }
    out.append(c_type(&f.return_ty).as_str());
    out.append(" ");
    push_last_piece(&mut out, f.name.as_str());
    out.append("(");
    let ghost s0 = out@;
    let mut i: usize = 0;
    while i < f.params.len()
        invariant
            i <= f.params@.len(),
            out@ == s0 + params_text(f.params@, i as nat),
        decreases f.params@.len() - i,
    {
        if i > 0 {
            out.append(", ");
        }
        push_param_decl(&mut out, &f.params, i);
        i += 1;
        assert(out@ =~= s0 + params_text(f.params@, i as nat));
    }
    out.append(") {\n");
    let ghost s1 = out@;
    let (lp, rp) = last_positions(f);
    match lp {
        Some(j) => {
            let ln = &f.arena[j];
            match &ln.kind {
                NodeKind::Loop { body, termination, outputs, carried_inputs } => {
                    let ids = push_loop(&mut out, f, body, *termination, outputs, carried_inputs);
                    let post = post_ids_exec(f, &ids);
                    proof {
                        lemma_post_ids_members(
                            f.arena@,
                            ids@,
                            loop_ids(*f, body@, *termination, outputs@, carried_inputs@),
                            f.arena@.len(),
                        );
                    }
                    let order = topo_order(&post, &post, f);
                    push_stmts(&mut out, f, &empty, &order, "    ");
                },
                _ => {},
            }
        },
        None => {
            let all = plain_ids_exec(f);
            let order = topo_order(&all, &all, f);
            push_stmts(&mut out, f, &empty, &order, "    ");
        },
    }
    assert(out@ =~= s1 + body_text(*f));
    let ghost s2 = out@;
    match rp {
        Some(j) => match &f.arena[j].kind {
            NodeKind::Return { value } => {
                out.append("    return ");
                out.append(emit_operand(f, &empty, *value).as_str());
                out.append(";\n");
            },
            _ => {},
        },
        None => {},
    }
    assert(out@ =~= s2 + return_text(*f));
    out.append("}\n");
    assert(out@ =~= c_source_text(*f));
    out
}

} // verus!
