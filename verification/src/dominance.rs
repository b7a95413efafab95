//! Dominance analysis.
//!
//! The dominator sets solve `DOM(n) = {n} ∪ ⋂ DOM(p)` over the dataflow
//! predecessors `p` of `n` (its operands in the arena), with
//! `DOM(r) = {r}` for the roots: the nodes without operands, or every
//! node when there is none. The analysis computes the greatest solution
//! by iterating from "every node dominates every non-root" until nothing
//! changes; from it, the immediate dominators, the dominator tree and the
//! nodes each node dominates in that tree.
//!
//! Nodes are handled by their position in the arena, whose identifiers
//! are distinct.
use vstd::prelude::*;
use crate::ir::{Function, Node, NodeId, NodeKind, distinct_ids, position_of, find_node, lemma_kind_at};
use crate::graph::{spec_dataflow_inputs, dataflow_inputs, sorted_ids, sorted_node_ids, lemma_sorted_ids};
use crate::facts::DominanceFact;
use crate::factmap::FactMap;

verus! {

// ── The equations ───────────────────────────────────────────────────────

/// Whether the node at position `p` is an operand of the node at `i`.
pub open spec fn is_pred(nodes: Seq<Node>, i: int, p: int) -> bool {
    0 <= p < nodes.len() && spec_dataflow_inputs(nodes[i].kind).contains(nodes[p].id)
}

/// Whether some node has no operand.
pub open spec fn has_leaf(nodes: Seq<Node>) -> bool {
    exists|i: int| 0 <= i < nodes.len() && #[trigger] spec_dataflow_inputs(nodes[i].kind).len() == 0
}

/// The roots: the nodes without operands, or all nodes if there is none.
pub open spec fn is_root(nodes: Seq<Node>, i: int) -> bool {
    !has_leaf(nodes) || spec_dataflow_inputs(nodes[i].kind).len() == 0
}

/// Whether `j` is in `DOM(p)` for every operand `p` of `i`.
pub open spec fn meet_preds(nodes: Seq<Node>, d: Seq<Seq<bool>>, i: int, j: int) -> bool {
    forall|p: int| #[trigger] is_pred(nodes, i, p) ==> d[p][j]
}

/// Whether the equations put `j` in `DOM(i)`, given the sets `d`.
pub open spec fn dom_equation(nodes: Seq<Node>, d: Seq<Seq<bool>>, i: int, j: int) -> bool {
    if is_root(nodes, i) {
        j == i
    } else {
        j == i || meet_preds(nodes, d, i, j)
    }
}

/// `d` has a row of `n` entries for each of `n` nodes.
pub open spec fn is_square(d: Seq<Seq<bool>>, n: int) -> bool {
    d.len() == n && forall|i: int| 0 <= i < n ==> #[trigger] d[i].len() == n
}

/// `d[i][j]` tells whether the node at `j` is in `DOM(i)`; `d` solves the
/// equations.
pub open spec fn is_dom_solution(nodes: Seq<Node>, d: Seq<Seq<bool>>) -> bool {
    &&& is_square(d, nodes.len() as int)
    &&& forall|i: int, j: int|
        0 <= i < nodes.len() && 0 <= j < nodes.len() ==> #[trigger] d[i][j] == dom_equation(nodes, d, i, j)
}

/// `a` is contained in `b`, row by row.
pub open spec fn within(a: Seq<Seq<bool>>, b: Seq<Seq<bool>>, n: int) -> bool {
    forall|i: int, j: int| 0 <= i < n && 0 <= j < n && #[trigger] a[i][j] ==> b[i][j]
}

/// `e` is contained in what the equations give from it (every solution
/// is such an `e`).
pub open spec fn is_dom_post_solution(nodes: Seq<Node>, e: Seq<Seq<bool>>) -> bool {
    &&& is_square(e, nodes.len() as int)
    &&& forall|i: int, j: int|
        0 <= i < nodes.len() && 0 <= j < nodes.len() && #[trigger] e[i][j] ==> dom_equation(nodes, e, i, j)
}

/// The greatest solution: a solution containing every `e` that is
/// contained in what the equations give from it, so every solution.
pub open spec fn is_greatest_dom_solution(nodes: Seq<Node>, d: Seq<Seq<bool>>) -> bool {
    &&& is_dom_solution(nodes, d)
    &&& forall|e: Seq<Seq<bool>>| #[trigger] is_dom_post_solution(nodes, e) ==> within(e, d, nodes.len() as int)
}

/// The dominator sets of the arena.
pub open spec fn dom_matrix(nodes: Seq<Node>) -> Seq<Seq<bool>> {
    choose|d: Seq<Seq<bool>>| is_greatest_dom_solution(nodes, d)
}

/// The greatest solution is unique.
pub proof fn lemma_greatest_unique(nodes: Seq<Node>, a: Seq<Seq<bool>>, b: Seq<Seq<bool>>)
    requires
        is_greatest_dom_solution(nodes, a),
        is_greatest_dom_solution(nodes, b),
    ensures
        a == b,
{
    let n = nodes.len() as int;
    assert(is_dom_post_solution(nodes, a));
    assert(is_dom_post_solution(nodes, b));
    assert(within(a, b, n));
    assert(within(b, a, n));
    assert forall|i: int| 0 <= i < n implies a[i] == b[i] by {
        assert(a[i] =~= b[i]) by {
            assert forall|j: int| 0 <= j < n implies a[i][j] == b[i][j] by {
                if a[i][j] {
                    assert(b[i][j]);
                }
                if b[i][j] {
                    assert(a[i][j]);
                }
            }
        }
    }
    assert(a =~= b);
}

/// The equations are monotone: smaller sets give smaller right-hand sides.
proof fn lemma_equation_monotone(nodes: Seq<Node>, a: Seq<Seq<bool>>, b: Seq<Seq<bool>>, i: int, j: int)
    requires
        within(a, b, nodes.len() as int),
        is_square(a, nodes.len() as int),
        is_square(b, nodes.len() as int),
        0 <= i < nodes.len(),
        0 <= j < nodes.len(),
        dom_equation(nodes, a, i, j),
    ensures
        dom_equation(nodes, b, i, j),
{
    if !is_root(nodes, i) && j != i {
        assert forall|p: int| #[trigger] is_pred(nodes, i, p) implies b[p][j] by {
            assert(a[p][j]);
        }
    }
}

// ── Counting ────────────────────────────────────────────────────────────

/// The number of `true` entries of a row.
pub open spec fn count_row(r: Seq<bool>) -> nat
    decreases r.len(),
{
    if r.len() == 0 {
        0
    } else {
        count_row(r.drop_last()) + if r.last() {
            1nat
        } else {
            0nat
        }
    }
}

/// The number of `true` entries of a matrix.
pub open spec fn count_matrix(m: Seq<Seq<bool>>) -> nat
    decreases m.len(),
{
    if m.len() == 0 {
        0
    } else {
        count_matrix(m.drop_last()) + count_row(m.last())
    }
}

proof fn lemma_count_row_within(a: Seq<bool>, b: Seq<bool>)
    requires
        a.len() == b.len(),
        forall|j: int| 0 <= j < a.len() && #[trigger] a[j] ==> b[j],
    ensures
        count_row(a) <= count_row(b),
        a != b ==> count_row(a) < count_row(b),
    decreases a.len(),
{
    if a.len() == 0 {
        assert(a =~= b);
    } else {
        let (ad, bd) = (a.drop_last(), b.drop_last());
        assert forall|j: int| 0 <= j < ad.len() && #[trigger] ad[j] implies bd[j] by {
            assert(a[j]);
        }
        lemma_count_row_within(ad, bd);
        if a != b && ad == bd && a.last() == b.last() {
            assert forall|j: int| 0 <= j < a.len() implies a[j] == b[j] by {
                if j < a.len() - 1 {
                    assert(a[j] == ad[j]);
                    assert(b[j] == bd[j]);
                }
            }
            assert(a =~= b);
        }
    }
}

proof fn lemma_count_matrix_update(m: Seq<Seq<bool>>, i: int, r: Seq<bool>)
    requires
        0 <= i < m.len(),
    ensures
        count_matrix(m.update(i, r)) + count_row(m[i]) == count_matrix(m) + count_row(r),
    decreases m.len(),
{
    let u = m.update(i, r);
    if i == m.len() - 1 {
        assert(u.drop_last() =~= m.drop_last());
    } else {
        assert(u.drop_last() =~= m.drop_last().update(i, r));
        lemma_count_matrix_update(m.drop_last(), i, r);
    }
}

// ── Executable helpers ──────────────────────────────────────────────────

/// The rows of a matrix of vectors.
pub open spec fn rows(d: Seq<Vec<bool>>) -> Seq<Seq<bool>> {
    d.map_values(|r: Vec<bool>| r@)
}

/// For each node, the positions of its operands in the arena.
pub(crate) fn operand_positions(arena: &Vec<Node>) -> (preds: Vec<Vec<usize>>)
    requires
        distinct_ids(arena@),
    ensures
        preds@.len() == arena@.len(),
        forall|i: int, t: int|
            0 <= i < arena@.len() && 0 <= t < preds@[i]@.len() ==> #[trigger] preds@[i]@[t] < arena@.len(),
        forall|i: int, p: int|
            0 <= i < arena@.len() && 0 <= p < arena@.len() ==> (#[trigger] preds@[i]@.contains(p as usize)
                <==> is_pred(arena@, i, p)),
{
    let n = arena.len();
    let mut preds: Vec<Vec<usize>> = Vec::new();
    let mut i: usize = 0;
    while i < n
        invariant
            n == arena@.len(),
            i <= n,
            distinct_ids(arena@),
            preds@.len() == i,
            forall|a: int, t: int| 0 <= a < i && 0 <= t < preds@[a]@.len() ==> #[trigger] preds@[a]@[t] < n,
            forall|a: int, p: int|
                0 <= a < i && 0 <= p < n ==> (#[trigger] preds@[a]@.contains(p as usize) <==> is_pred(
                    arena@,
                    a,
                    p,
                )),
        decreases n - i,
    {
        let ins = dataflow_inputs(&arena[i].kind);
        let mut row: Vec<usize> = Vec::new();
        let mut t: usize = 0;
        while t < ins.len()
            invariant
                n == arena@.len(),
                i < n,
                t <= ins@.len(),
                distinct_ids(arena@),
                ins@ == spec_dataflow_inputs(arena@[i as int].kind),
                forall|u: int| 0 <= u < row@.len() ==> #[trigger] row@[u] < n,
                forall|p: int|
                    0 <= p < n ==> (#[trigger] row@.contains(p as usize) <==> ins@.subrange(0, t as int).contains(
                        arena@[p].id,
                    )),
            decreases ins@.len() - t,
        {
            let found = find_node(arena, ins[t]);
            proof {
                assert forall|p: int| 0 <= p < n implies (ins@.subrange(0, t + 1).contains(arena@[p].id) <==> (
                ins@.subrange(0, t as int).contains(arena@[p].id) || ins@[t as int] == arena@[p].id)) by {
                    let s1 = ins@.subrange(0, t + 1);
                    if s1.contains(arena@[p].id) {
                        let u = choose|u: int| 0 <= u < s1.len() && s1[u] == arena@[p].id;
                        if u < t {
                            assert(ins@.subrange(0, t as int)[u] == arena@[p].id);
                        }
                    }
                    if ins@.subrange(0, t as int).contains(arena@[p].id) {
                        let u = choose|u: int| 0 <= u < t && ins@.subrange(0, t as int)[u] == arena@[p].id;
                        assert(s1[u] == arena@[p].id);
                    }
                    if ins@[t as int] == arena@[p].id {
                        assert(s1[t as int] == arena@[p].id);
                    }
                }
            }
            match found {
                Some(k) => {
                    proof {
                        assert forall|p: int| 0 <= p < n && ins@[t as int] == arena@[p].id implies p == k by {
                            lemma_kind_at(arena@, p);
                        }
                    }
                    let ghost before = row@;
                    row.push(k);
                    proof {
                        assert forall|p: int| 0 <= p < n implies (#[trigger] row@.contains(p as usize) <==> (
                        before.contains(p as usize) || p == k)) by {
                            if row@.contains(p as usize) {
                                let u = choose|u: int| 0 <= u < row@.len() && row@[u] == p as usize;
                                if u < before.len() {
                                    assert(before[u] == p as usize);
                                }
                            }
                            if before.contains(p as usize) {
                                let u = choose|u: int| 0 <= u < before.len() && before[u] == p as usize;
                                assert(row@[u] == p as usize);
                            }
                            if p == k {
                                assert(row@[before.len() as int] == k);
                            }
                        }
                    }
                },
                None => {
                    proof {
                        crate::ir::lemma_position_of(arena@, ins@[t as int], 0);
                    }
                },
            }
            t += 1;
        }
        proof {
            assert(ins@.subrange(0, ins@.len() as int) =~= ins@);
        }
        preds.push(row);
        i += 1;
    }
    preds
}

/// Whether some node has no operand.
fn find_leaf(arena: &Vec<Node>) -> (b: bool)
    ensures
        b == has_leaf(arena@),
{
    let mut i: usize = 0;
    while i < arena.len()
        invariant
            i <= arena@.len(),
            forall|k: int| 0 <= k < i ==> spec_dataflow_inputs(#[trigger] arena@[k].kind).len() != 0,
        decreases arena@.len() - i,
    {
        let ins = dataflow_inputs(&arena[i].kind);
        if ins.len() == 0 {
            return true;
        }
        i += 1;
    }
    proof {
        assert forall|k: int| 0 <= k < arena@.len() implies #[trigger] spec_dataflow_inputs(arena@[k].kind).len()
            != 0 by {}
    }
    false
}

/// The roots.
fn root_flags(arena: &Vec<Node>) -> (roots: Vec<bool>)
    ensures
        roots@.len() == arena@.len(),
        forall|i: int| 0 <= i < arena@.len() ==> #[trigger] roots@[i] == is_root(arena@, i),
{
    let any_leaf = find_leaf(arena);
    let mut roots: Vec<bool> = Vec::new();
    let mut i: usize = 0;
    while i < arena.len()
        invariant
            i <= arena@.len(),
            any_leaf == has_leaf(arena@),
            roots@.len() == i,
            forall|k: int| 0 <= k < i ==> #[trigger] roots@[k] == is_root(arena@, k),
        decreases arena@.len() - i,
    {
        let ins = dataflow_inputs(&arena[i].kind);
        roots.push(!any_leaf || ins.len() == 0);
        i += 1;
    }
    roots
}

/// Whether two rows are equal.
fn rows_equal(a: &Vec<bool>, b: &Vec<bool>) -> (r: bool)
    ensures
        r == (a@ == b@),
{
    if a.len() != b.len() {
        return false;
    }
    let mut j: usize = 0;
    while j < a.len()
        invariant
            a@.len() == b@.len(),
            j <= a@.len(),
            forall|k: int| 0 <= k < j ==> a@[k] == b@[k],
        decreases a@.len() - j,
    {
        if a[j] != b[j] {
            return false;
        }
        j += 1;
    }
    assert(a@ =~= b@);
    true
}

/// The row `{i} ∪ ⋂ DOM(p)` over the listed operands `p` of `i`.
fn meet_row(preds_i: &Vec<usize>, dom: &Vec<Vec<bool>>, i: usize, n: usize) -> (row: Vec<bool>)
    requires
        n == dom@.len(),
        is_square(rows(dom@), n as int),
        i < n,
        forall|t: int| 0 <= t < preds_i@.len() ==> #[trigger] preds_i@[t] < n,
    ensures
        row@.len() == n,
        forall|j: int|
            0 <= j < n ==> #[trigger] row@[j] == (j == i || forall|t: int|
                0 <= t < preds_i@.len() ==> #[trigger] rows(dom@)[preds_i@[t] as int][j]),
{
    let mut row: Vec<bool> = Vec::new();
    let mut j: usize = 0;
    while j < n
        invariant
            j <= n,
            row@.len() == j,
            forall|k: int| 0 <= k < j ==> #[trigger] row@[k],
        decreases n - j,
    {
        row.push(true);
        j += 1;
    }
    let mut t: usize = 0;
    while t < preds_i.len()
        invariant
            n == dom@.len(),
            is_square(rows(dom@), n as int),
            i < n,
            forall|u: int| 0 <= u < preds_i@.len() ==> #[trigger] preds_i@[u] < n,
            t <= preds_i@.len(),
            row@.len() == n,
            forall|k: int|
                0 <= k < n ==> #[trigger] row@[k] == (forall|u: int|
                    0 <= u < t ==> #[trigger] rows(dom@)[preds_i@[u] as int][k]),
        decreases preds_i@.len() - t,
    {
        let p = preds_i[t];
        assert(rows(dom@)[p as int] == dom@[p as int]@);
        let mut k: usize = 0;
        while k < n
            invariant
                n == dom@.len(),
                is_square(rows(dom@), n as int),
                p < n,
                p == preds_i@[t as int],
                t < preds_i@.len(),
                k <= n,
                row@.len() == n,
                forall|c: int|
                    0 <= c < k ==> #[trigger] row@[c] == (forall|u: int|
                        0 <= u < t + 1 ==> #[trigger] rows(dom@)[preds_i@[u] as int][c]),
                forall|c: int|
                    k <= c < n ==> #[trigger] row@[c] == (forall|u: int|
                        0 <= u < t ==> #[trigger] rows(dom@)[preds_i@[u] as int][c]),
            decreases n - k,
        {
            assert(rows(dom@)[p as int].len() == n);
            let v = row[k] && dom[p][k];
            proof {
                assert(rows(dom@)[p as int][k as int] == dom@[p as int]@[k as int]);
                let c = k as int;
                if v {
                    assert forall|u: int| 0 <= u < t + 1 implies #[trigger] rows(dom@)[preds_i@[u] as int][c] by {
                        if u < t {
                            assert(rows(dom@)[preds_i@[u] as int][c]);
                        }
                    }
                } else if row@[c] {
                    assert(!rows(dom@)[preds_i@[t as int] as int][c]);
                } else {
                    let u0 = choose|u: int| 0 <= u < t && !#[trigger] rows(dom@)[preds_i@[u] as int][c];
                    assert(!rows(dom@)[preds_i@[u0] as int][c]);
                }
            }
            row.set(k, v);
            k += 1;
        }
        t += 1;
    }
    row.set(i, true);
    row
}

/// A row computed from the listed operands is the equations' row.
proof fn lemma_meet_row_equation(
    nodes: Seq<Node>,
    m: Seq<Seq<bool>>,
    preds_i: Seq<usize>,
    i: int,
    row: Seq<bool>,
)
    requires
        nodes.len() <= usize::MAX,
        is_square(m, nodes.len() as int),
        0 <= i < nodes.len(),
        !is_root(nodes, i),
        forall|t: int| 0 <= t < preds_i.len() ==> #[trigger] preds_i[t] < nodes.len(),
        forall|p: int| 0 <= p < nodes.len() ==> (#[trigger] preds_i.contains(p as usize) <==> is_pred(nodes, i, p)),
        row.len() == nodes.len(),
        forall|j: int|
            0 <= j < nodes.len() ==> #[trigger] row[j] == (j == i || forall|t: int|
                0 <= t < preds_i.len() ==> #[trigger] m[preds_i[t] as int][j]),
    ensures
        forall|j: int| 0 <= j < nodes.len() ==> #[trigger] row[j] == dom_equation(nodes, m, i, j),
{
    assert forall|j: int| 0 <= j < nodes.len() implies #[trigger] row[j] == dom_equation(nodes, m, i, j) by {
        if j != i {
            if row[j] {
                assert forall|p: int| #[trigger] is_pred(nodes, i, p) implies m[p][j] by {
                    assert(preds_i.contains(p as usize));
                    let t = choose|t: int| 0 <= t < preds_i.len() && preds_i[t] == p as usize;
                    assert(preds_i[t] as int == p);
                    assert(m[preds_i[t] as int][j]);
                }
            }
            if meet_preds(nodes, m, i, j) {
                assert forall|t: int| 0 <= t < preds_i.len() implies #[trigger] m[preds_i[t] as int][j] by {
                    let p = preds_i[t] as int;
                    assert(preds_i.contains(p as usize));
                    assert(is_pred(nodes, i, p));
                }
            }
        }
    }
}

/// Replacing the row of a non-root by its equations' row, when that is
/// smaller, keeps the iteration's invariants.
proof fn lemma_update_row(nodes: Seq<Node>, m: Seq<Seq<bool>>, i: int, row: Seq<bool>)
    requires
        is_square(m, nodes.len() as int),
        0 <= i < nodes.len(),
        !is_root(nodes, i),
        row.len() == nodes.len(),
        forall|j: int| 0 <= j < nodes.len() ==> #[trigger] row[j] == dom_equation(nodes, m, i, j),
        forall|k: int, j: int|
            0 <= k < nodes.len() && 0 <= j < nodes.len() && !is_root(nodes, k) && dom_equation(nodes, m, k, j)
                ==> #[trigger] m[k][j],
        forall|e: Seq<Seq<bool>>| #[trigger] is_dom_post_solution(nodes, e) ==> within(e, m, nodes.len() as int),
    ensures
        is_square(m.update(i, row), nodes.len() as int),
        within(m.update(i, row), m, nodes.len() as int),
        forall|k: int, j: int|
            0 <= k < nodes.len() && 0 <= j < nodes.len() && !is_root(nodes, k) && dom_equation(
                nodes,
                m.update(i, row),
                k,
                j,
            ) ==> #[trigger] m.update(i, row)[k][j],
        forall|e: Seq<Seq<bool>>|
            #[trigger] is_dom_post_solution(nodes, e) ==> within(e, m.update(i, row), nodes.len() as int),
        count_matrix(m.update(i, row)) <= count_matrix(m),
        row != m[i] ==> count_matrix(m.update(i, row)) < count_matrix(m),
{
    let n = nodes.len() as int;
    let u = m.update(i, row);
    assert forall|j: int| 0 <= j < n && #[trigger] row[j] implies m[i][j] by {}
    assert(within(u, m, n)) by {
        assert forall|k: int, j: int| 0 <= k < n && 0 <= j < n && #[trigger] u[k][j] implies m[k][j] by {
            if k == i {
                assert(row[j]);
            }
        }
    }
    assert forall|k: int, j: int|
        0 <= k < n && 0 <= j < n && !is_root(nodes, k) && dom_equation(nodes, u, k, j) implies #[trigger] u[k][j] by {
        lemma_equation_monotone(nodes, u, m, k, j);
        if k == i {
            assert(row[j]);
        }
    }
    assert forall|e: Seq<Seq<bool>>| #[trigger] is_dom_post_solution(nodes, e) implies within(e, u, n) by {
        assert(within(e, m, n));
        assert forall|k: int, j: int| 0 <= k < n && 0 <= j < n && #[trigger] e[k][j] implies u[k][j] by {
            if k == i {
                assert(dom_equation(nodes, e, k, j));
                lemma_equation_monotone(nodes, e, m, k, j);
                assert(row[j]);
            }
        }
    }
    lemma_count_row_within(row, m[i]);
    lemma_count_matrix_update(m, i, row);
}

/// The dominator sets: the greatest solution of the equations, by
/// iteration from "every node dominates every non-root".
fn dominator_rows(arena: &Vec<Node>, preds: &Vec<Vec<usize>>, roots: &Vec<bool>) -> (dom: Vec<Vec<bool>>)
    requires
        preds@.len() == arena@.len(),
        forall|i: int, t: int|
            0 <= i < arena@.len() && 0 <= t < preds@[i]@.len() ==> #[trigger] preds@[i]@[t] < arena@.len(),
        forall|i: int, p: int|
            0 <= i < arena@.len() && 0 <= p < arena@.len() ==> (#[trigger] preds@[i]@.contains(p as usize)
                <==> is_pred(arena@, i, p)),
        roots@.len() == arena@.len(),
        forall|i: int| 0 <= i < arena@.len() ==> #[trigger] roots@[i] == is_root(arena@, i),
    ensures
        is_greatest_dom_solution(arena@, rows(dom@)),
{
    let n = arena.len();
    let ghost nodes = arena@;
    let mut dom: Vec<Vec<bool>> = Vec::new();
    let mut i: usize = 0;
    while i < n
        invariant
            n == nodes.len(),
            nodes == arena@,
            roots@.len() == n,
            forall|a: int| 0 <= a < n ==> #[trigger] roots@[a] == is_root(nodes, a),
            i <= n,
            dom@.len() == i,
            forall|a: int| 0 <= a < i ==> #[trigger] dom@[a]@.len() == n,
            forall|a: int, j: int|
                0 <= a < i && 0 <= j < n ==> #[trigger] dom@[a]@[j] == (if is_root(nodes, a) {
                    j == a
                } else {
                    true
                }),
        decreases n - i,
    {
        let mut row: Vec<bool> = Vec::new();
        let mut j: usize = 0;
        while j < n
            invariant
                i < n,
                roots@.len() == n,
                j <= n,
                row@.len() == j,
                forall|c: int| 0 <= c < j ==> #[trigger] row@[c] == (if roots@[i as int] {
                    c == i
                } else {
                    true
                }),
            decreases n - j,
        {
            row.push(if roots[i] { j == i } else { true });
            j += 1;
        }
        dom.push(row);
        i += 1;
    }
    proof {
        let m = rows(dom@);
        assert(is_square(m, n as int));
        assert forall|e: Seq<Seq<bool>>| #[trigger] is_dom_post_solution(nodes, e) implies within(e, m, n as int) by {
            assert forall|k: int, j: int| 0 <= k < n && 0 <= j < n && #[trigger] e[k][j] implies m[k][j] by {
                assert(dom_equation(nodes, e, k, j));
            }
        }
    }
    loop
        invariant
            n == nodes.len(),
            nodes == arena@,
            preds@.len() == n,
            forall|a: int, t: int| 0 <= a < n && 0 <= t < preds@[a]@.len() ==> #[trigger] preds@[a]@[t] < n,
            forall|a: int, p: int|
                0 <= a < n && 0 <= p < n ==> (#[trigger] preds@[a]@.contains(p as usize) <==> is_pred(nodes, a, p)),
            roots@.len() == n,
            forall|a: int| 0 <= a < n ==> #[trigger] roots@[a] == is_root(nodes, a),
            dom@.len() == n,
            is_square(rows(dom@), n as int),
            forall|a: int, j: int|
                0 <= a < n && 0 <= j < n && is_root(nodes, a) ==> #[trigger] rows(dom@)[a][j] == (j == a),
            forall|k: int, j: int|
                0 <= k < n && 0 <= j < n && !is_root(nodes, k) && dom_equation(nodes, rows(dom@), k, j)
                    ==> #[trigger] rows(dom@)[k][j],
            forall|e: Seq<Seq<bool>>| #[trigger] is_dom_post_solution(nodes, e) ==> within(e, rows(dom@), n as int),
        ensures
            is_greatest_dom_solution(nodes, rows(dom@)),
        decreases count_matrix(rows(dom@)),
    {
        let ghost start = rows(dom@);
        let mut changed = false;
        let mut i: usize = 0;
        while i < n
            invariant
                n == nodes.len(),
                nodes == arena@,
                preds@.len() == n,
                forall|a: int, t: int| 0 <= a < n && 0 <= t < preds@[a]@.len() ==> #[trigger] preds@[a]@[t] < n,
                forall|a: int, p: int|
                    0 <= a < n && 0 <= p < n ==> (#[trigger] preds@[a]@.contains(p as usize) <==> is_pred(
                        nodes,
                        a,
                        p,
                    )),
                roots@.len() == n,
                forall|a: int| 0 <= a < n ==> #[trigger] roots@[a] == is_root(nodes, a),
                dom@.len() == n,
                is_square(rows(dom@), n as int),
                forall|a: int, j: int|
                    0 <= a < n && 0 <= j < n && is_root(nodes, a) ==> #[trigger] rows(dom@)[a][j] == (j == a),
                forall|k: int, j: int|
                    0 <= k < n && 0 <= j < n && !is_root(nodes, k) && dom_equation(nodes, rows(dom@), k, j)
                        ==> #[trigger] rows(dom@)[k][j],
                forall|e: Seq<Seq<bool>>| #[trigger] is_dom_post_solution(nodes, e) ==> within(e, rows(dom@), n as int),
                i <= n,
                count_matrix(rows(dom@)) <= count_matrix(start),
                changed ==> count_matrix(rows(dom@)) < count_matrix(start),
                !changed ==> rows(dom@) == start,
                !changed ==> forall|k: int, j: int|
                    0 <= k < i && 0 <= j < n && !is_root(nodes, k) ==> #[trigger] rows(dom@)[k][j] == dom_equation(
                        nodes,
                        rows(dom@),
                        k,
                        j,
                    ),
            decreases n - i,
        {
            if !roots[i] {
                let row = meet_row(&preds[i], &dom, i, n);
                proof {
                    lemma_meet_row_equation(nodes, rows(dom@), preds@[i as int]@, i as int, row@);
                }
                assert(rows(dom@)[i as int] == dom@[i as int]@);
                if !rows_equal(&row, &dom[i]) {
                    let ghost before = rows(dom@);
                    proof {
                        lemma_update_row(nodes, before, i as int, row@);
                    }
                    dom.set(i, row);
                    proof {
                        assert(rows(dom@) =~= before.update(i as int, row@));
                    }
                    changed = true;
                }
            }
            i += 1;
        }
        if !changed {
            proof {
                let m = rows(dom@);
                assert forall|a: int, j: int| 0 <= a < n && 0 <= j < n implies #[trigger] m[a][j] == dom_equation(
                    nodes,
                    m,
                    a,
                    j,
                ) by {}
            }
            break;
        }
    }
    dom
}

// ── Immediate dominators and the dominator tree ─────────────────────────

/// `j` strictly dominates `i`.
pub open spec fn strict_dom(d: Seq<Seq<bool>>, i: int, j: int) -> bool {
    j != i && d[i][j]
}

/// `j` comes before `k` as a candidate immediate dominator: a larger
/// dominator set, or an equal one and a smaller identifier.
pub open spec fn preferred(nodes: Seq<Node>, d: Seq<Seq<bool>>, j: int, k: int) -> bool {
    count_row(d[j]) > count_row(d[k]) || (count_row(d[j]) == count_row(d[k]) && nodes[j].id.id <= nodes[k].id.id)
}

/// `j` is the immediate dominator of the non-root `i`: of its strict
/// dominators, the one with the largest dominator set (the smallest
/// identifier among equals).
pub open spec fn is_idom(nodes: Seq<Node>, d: Seq<Seq<bool>>, i: int, j: int) -> bool {
    &&& !is_root(nodes, i)
    &&& 0 <= j < nodes.len()
    &&& strict_dom(d, i, j)
    &&& forall|k: int| 0 <= k < nodes.len() && #[trigger] strict_dom(d, i, k) ==> preferred(nodes, d, j, k)
}

/// The position of the immediate dominator of `i`, if it has one.
pub open spec fn idom_pos(nodes: Seq<Node>, d: Seq<Seq<bool>>, i: int) -> Option<int> {
    if exists|j: int| is_idom(nodes, d, i, j) {
        Some(choose|j: int| is_idom(nodes, d, i, j))
    } else {
        None
    }
}

proof fn lemma_idom_unique(nodes: Seq<Node>, d: Seq<Seq<bool>>, i: int, j: int)
    requires
        distinct_ids(nodes),
        is_idom(nodes, d, i, j),
    ensures
        idom_pos(nodes, d, i) == Some(j),
{
    let c = choose|c: int| is_idom(nodes, d, i, c);
    assert(preferred(nodes, d, j, c) && preferred(nodes, d, c, j));
    if c != j {
        if c < j {
            assert(nodes[c].id != nodes[j].id);
        } else {
            assert(nodes[j].id != nodes[c].id);
        }
    }
}

/// The number of `true` entries of a row.
fn count_true(row: &Vec<bool>) -> (c: usize)
    ensures
        c == count_row(row@),
{
    let mut c: usize = 0;
    let mut j: usize = 0;
    while j < row.len()
        invariant
            j <= row@.len(),
            c == count_row(row@.subrange(0, j as int)),
            c <= j,
        decreases row@.len() - j,
    {
        proof {
            assert(row@.subrange(0, j + 1).drop_last() =~= row@.subrange(0, j as int));
        }
        if row[j] {
            c += 1;
        }
        j += 1;
    }
    proof {
        assert(row@.subrange(0, row@.len() as int) =~= row@);
    }
    c
}

/// The immediate dominator of each node.
fn immediate_dominators(arena: &Vec<Node>, dom: &Vec<Vec<bool>>, roots: &Vec<bool>) -> (idom: Vec<Option<usize>>)
    requires
        distinct_ids(arena@),
        dom@.len() == arena@.len(),
        is_square(rows(dom@), arena@.len() as int),
        roots@.len() == arena@.len(),
        forall|i: int| 0 <= i < arena@.len() ==> #[trigger] roots@[i] == is_root(arena@, i),
    ensures
        idom@.len() == arena@.len(),
        forall|i: int|
            0 <= i < arena@.len() ==> match #[trigger] idom@[i] {
                Some(j) => idom_pos(arena@, rows(dom@), i) == Some(j as int) && j < arena@.len(),
                None => idom_pos(arena@, rows(dom@), i) is None,
            },
{
    let n = arena.len();
    let ghost nodes = arena@;
    let ghost d = rows(dom@);
    let mut sizes: Vec<usize> = Vec::new();
    let mut j: usize = 0;
    while j < n
        invariant
            n == nodes.len(),
            d == rows(dom@),
            dom@.len() == n,
            j <= n,
            sizes@.len() == j,
            forall|k: int| 0 <= k < j ==> #[trigger] sizes@[k] == count_row(d[k]),
        decreases n - j,
    {
        assert(d[j as int] == dom@[j as int]@);
        sizes.push(count_true(&dom[j]));
        j += 1;
    }
    let mut idom: Vec<Option<usize>> = Vec::new();
    let mut i: usize = 0;
    while i < n
        invariant
            n == nodes.len(),
            nodes == arena@,
            distinct_ids(nodes),
            d == rows(dom@),
            dom@.len() == n,
            is_square(d, n as int),
            roots@.len() == n,
            forall|a: int| 0 <= a < n ==> #[trigger] roots@[a] == is_root(nodes, a),
            sizes@.len() == n,
            forall|k: int| 0 <= k < n ==> #[trigger] sizes@[k] == count_row(d[k]),
            i <= n,
            idom@.len() == i,
            forall|a: int|
                0 <= a < i ==> match #[trigger] idom@[a] {
                    Some(b) => idom_pos(nodes, d, a) == Some(b as int) && b < n,
                    None => idom_pos(nodes, d, a) is None,
                },
        decreases n - i,
    {
        let mut best: Option<usize> = None;
        if !roots[i] {
            let mut j: usize = 0;
            assert(d[i as int] == dom@[i as int]@);
            while j < n
                invariant
                    n == nodes.len(),
                    nodes == arena@,
                    d == rows(dom@),
                    dom@.len() == n,
                    is_square(d, n as int),
                    sizes@.len() == n,
                    forall|k: int| 0 <= k < n ==> #[trigger] sizes@[k] == count_row(d[k]),
                    i < n,
                    j <= n,
                    d[i as int] == dom@[i as int]@,
                    match best {
                        Some(b) => b < j && strict_dom(d, i as int, b as int) && forall|k: int|
                            0 <= k < j && #[trigger] strict_dom(d, i as int, k) ==> preferred(nodes, d, b as int, k),
                        None => forall|k: int| 0 <= k < j ==> !#[trigger] strict_dom(d, i as int, k),
                    },
                decreases n - j,
            {
                if j != i && dom[i][j] {
                    let take = match best {
                        None => true,
                        Some(b) => sizes[j] > sizes[b] || (sizes[j] == sizes[b] && arena[j].id.id <= arena[b].id.id),
                    };
                    if take {
                        best = Some(j);
                    }
                }
                j += 1;
            }
        }
        proof {
            match best {
                Some(b) => {
                    lemma_idom_unique(nodes, d, i as int, b as int);
                },
                None => {
                    if exists|c: int| is_idom(nodes, d, i as int, c) {
                        let c = choose|c: int| is_idom(nodes, d, i as int, c);
                        assert(strict_dom(d, i as int, c));
                    }
                },
            }
        }
        idom.push(best);
        i += 1;
    }
    idom
}

/// The ancestor of `m` `k` steps up the dominator tree, if there is one.
pub open spec fn ancestor_at(nodes: Seq<Node>, d: Seq<Seq<bool>>, m: int, k: nat) -> Option<int>
    decreases k,
{
    if k == 0 {
        Some(m)
    } else {
        match ancestor_at(nodes, d, m, (k - 1) as nat) {
            Some(a) => idom_pos(nodes, d, a),
            None => None,
        }
    }
}

/// `m` is below `i` in the dominator tree.
pub open spec fn tree_descendant(nodes: Seq<Node>, d: Seq<Seq<bool>>, i: int, m: int) -> bool {
    m != i && exists|k: nat| k >= 1 && #[trigger] ancestor_at(nodes, d, m, k) == Some(i)
}

proof fn lemma_ancestor_prefix(nodes: Seq<Node>, d: Seq<Seq<bool>>, m: int, k: nat, t: nat)
    requires
        0 <= m < nodes.len(),
        t <= k,
        ancestor_at(nodes, d, m, k) is Some,
    ensures
        ancestor_at(nodes, d, m, t) matches Some(a) && 0 <= a < nodes.len(),
    decreases k,
{
    if t < k {
        lemma_ancestor_prefix(nodes, d, m, (k - 1) as nat, t);
    } else if k > 0 {
        let a = ancestor_at(nodes, d, m, (k - 1) as nat)->0;
        let j = choose|j: int| is_idom(nodes, d, a, j);
        assert(is_idom(nodes, d, a, j));
    }
}

proof fn lemma_ancestor_shift(nodes: Seq<Node>, d: Seq<Seq<bool>>, m: int, a: nat, b: nat, r: nat)
    requires
        ancestor_at(nodes, d, m, a) == ancestor_at(nodes, d, m, b),
    ensures
        ancestor_at(nodes, d, m, a + r) == ancestor_at(nodes, d, m, b + r),
    decreases r,
{
    if r > 0 {
        lemma_ancestor_shift(nodes, d, m, a, b, (r - 1) as nat);
        assert(((a + r) - 1) as nat == a + (r - 1) as nat);
        assert(((b + r) - 1) as nat == b + (r - 1) as nat);
    }
}

proof fn lemma_pigeonhole(q: Seq<int>, n: int)
    requires
        q.len() > n >= 0,
        forall|t: int| 0 <= t < q.len() ==> 0 <= #[trigger] q[t] < n,
    ensures
        exists|s: int, t: int| 0 <= s < t < q.len() && q[s] == q[t],
{
    if q.no_duplicates() {
        q.unique_seq_to_set();
        vstd::set_lib::lemma_int_range(0, n);
        assert(q.to_set().subset_of(vstd::set_lib::set_int_range(0, n))) by {
            assert forall|x: int| q.to_set().contains(x) implies vstd::set_lib::set_int_range(0, n).contains(x) by {
                let t = choose|t: int| 0 <= t < q.len() && q[t] == x;
                assert(0 <= q[t] < n);
            }
        }
        vstd::set_lib::lemma_len_subset(q.to_set(), vstd::set_lib::set_int_range(0, n));
    }
}

/// An ancestor is found within as many steps as there are nodes.
proof fn lemma_ancestor_within(nodes: Seq<Node>, d: Seq<Seq<bool>>, m: int, i: int, k: nat)
    requires
        0 <= m < nodes.len(),
        k >= 1,
        ancestor_at(nodes, d, m, k) == Some(i),
    ensures
        exists|k2: nat| 1 <= k2 <= nodes.len() && #[trigger] ancestor_at(nodes, d, m, k2) == Some(i),
    decreases k,
{
    let n = nodes.len() as int;
    if k <= n {
        assert(ancestor_at(nodes, d, m, k) == Some(i));
    } else {
        let q = Seq::new(k, |t: int| ancestor_at(nodes, d, m, t as nat)->0);
        assert forall|t: int| 0 <= t < q.len() implies 0 <= #[trigger] q[t] < n by {
            lemma_ancestor_prefix(nodes, d, m, k, t as nat);
        }
        lemma_pigeonhole(q, n);
        let (s, t) = choose|s: int, t: int| 0 <= s < t < q.len() && q[s] == q[t];
        lemma_ancestor_prefix(nodes, d, m, k, s as nat);
        lemma_ancestor_prefix(nodes, d, m, k, t as nat);
        let r = (k - t) as nat;
        lemma_ancestor_shift(nodes, d, m, s as nat, t as nat, r);
        assert(t as nat + r == k);
        let k2 = (s + r) as nat;
        assert(1 <= k2 < k);
        lemma_ancestor_within(nodes, d, m, i, k2);
    }
}

/// Whether `i` is among the first `n` ancestors of `m`.
fn has_ancestor(idom: &Vec<Option<usize>>, m: usize, i: usize, Ghost(nodes): Ghost<Seq<Node>>, Ghost(d): Ghost<
    Seq<Seq<bool>>,
>) -> (b: bool)
    requires
        idom@.len() == nodes.len(),
        m < nodes.len(),
        forall|a: int|
            0 <= a < nodes.len() ==> match #[trigger] idom@[a] {
                Some(j) => idom_pos(nodes, d, a) == Some(j as int) && j < nodes.len(),
                None => idom_pos(nodes, d, a) is None,
            },
    ensures
        b == exists|k: nat| 1 <= k <= nodes.len() && #[trigger] ancestor_at(nodes, d, m as int, k) == Some(i as int),
{
    let n = idom.len();
    let mut a: usize = m;
    let mut steps: usize = 0;
    while steps < n
        invariant
            n == nodes.len(),
            idom@.len() == n,
            forall|x: int|
                0 <= x < n ==> match #[trigger] idom@[x] {
                    Some(j) => idom_pos(nodes, d, x) == Some(j as int) && j < n,
                    None => idom_pos(nodes, d, x) is None,
                },
            steps <= n,
            a < n,
            ancestor_at(nodes, d, m as int, steps as nat) == Some(a as int),
            forall|k: nat| 1 <= k <= steps ==> #[trigger] ancestor_at(nodes, d, m as int, k) != Some(i as int),
        decreases n - steps,
    {
        match idom[a] {
            None => {
                proof {
                    assert forall|k: nat| 1 <= k <= n implies #[trigger] ancestor_at(nodes, d, m as int, k) != Some(
                        i as int,
                    ) by {
                        if k > steps {
                            lemma_ancestor_none(nodes, d, m as int, steps as nat, k);
                        }
                    }
                }
                return false;
            },
            Some(b) => {
                assert(ancestor_at(nodes, d, m as int, (steps + 1) as nat) == Some(b as int));
                if b == i {
                    return true;
                }
                a = b;
                steps += 1;
            },
        }
    }
    false
}

proof fn lemma_ancestor_none(nodes: Seq<Node>, d: Seq<Seq<bool>>, m: int, s: nat, k: nat)
    requires
        s < k,
        ancestor_at(nodes, d, m, s) matches Some(a) && idom_pos(nodes, d, a) is None,
    ensures
        ancestor_at(nodes, d, m, k) is None,
    decreases k,
{
    if k > s + 1 {
        lemma_ancestor_none(nodes, d, m, s, (k - 1) as nat);
    }
}

// ── The facts ───────────────────────────────────────────────────────────

/// The identifiers of the nodes whose positions satisfy `pred`, in
/// increasing identifier order.
pub open spec fn ids_where(nodes: Seq<Node>, pred: spec_fn(int) -> bool) -> Seq<NodeId> {
    sorted_ids(nodes).filter(|x: NodeId| pred(position_of(nodes, x, 0)->0))
}

/// The positions that dominate `i`.
pub open spec fn dominator_of(d: Seq<Seq<bool>>, i: int) -> spec_fn(int) -> bool {
    |j: int| d[i][j]
}

/// The positions whose immediate dominator is `i`.
pub open spec fn child_of(nodes: Seq<Node>, d: Seq<Seq<bool>>, i: int) -> spec_fn(int) -> bool {
    |m: int| idom_pos(nodes, d, m) == Some(i)
}

/// The positions below `i` in the dominator tree.
pub open spec fn descendant_of(nodes: Seq<Node>, d: Seq<Seq<bool>>, i: int) -> spec_fn(int) -> bool {
    |m: int| tree_descendant(nodes, d, i, m)
}

/// The dominance fact of the node at position `i`.
pub open spec fn dominance_fact_holds(nodes: Seq<Node>, i: int, f: DominanceFact) -> bool {
    let d = dom_matrix(nodes);
    &&& f.dominators@ == ids_where(nodes, dominator_of(d, i))
    &&& f.idom == match idom_pos(nodes, d, i) {
        Some(j) => Some(nodes[j].id),
        None => None,
    }
    &&& f.dom_tree_children@ == ids_where(nodes, child_of(nodes, d, i))
    &&& f.dominates@ == ids_where(nodes, descendant_of(nodes, d, i))
}

/// The positions of the nodes in increasing identifier order.
fn positions_by_id(arena: &Vec<Node>) -> (by_id: Vec<usize>)
    ensures
        by_id@.len() == sorted_ids(arena@).len(),
        forall|t: int|
            0 <= t < by_id@.len() ==> #[trigger] by_id@[t] < arena@.len() && position_of(
                arena@,
                sorted_ids(arena@)[t],
                0,
            ) == Some(by_id@[t] as int),
{
    let ids = sorted_node_ids(arena);
    proof {
        lemma_sorted_ids(arena@);
    }
    let mut by_id: Vec<usize> = Vec::new();
    let mut t: usize = 0;
    while t < ids.len()
        invariant
            ids@ == sorted_ids(arena@),
            forall|y: NodeId| #[trigger] ids@.contains(y) <==> exists|i: int| 0 <= i < arena@.len() && arena@[i].id == y,
            t <= ids@.len(),
            by_id@.len() == t,
            forall|u: int|
                0 <= u < t ==> #[trigger] by_id@[u] < arena@.len() && position_of(arena@, ids@[u], 0) == Some(
                    by_id@[u] as int,
                ),
        decreases ids@.len() - t,
    {
        let found = find_node(arena, ids[t]);
        match found {
            Some(k) => {
                by_id.push(k);
            },
            None => {
                proof {
                    assert(ids@.contains(ids@[t as int]));
                    crate::ir::lemma_position_of(arena@, ids@[t as int], 0);
                }
                by_id.push(0);
            },
        }
        t += 1;
    }
    by_id
}

/// The identifiers of the flagged positions, in increasing identifier
/// order.
fn flagged_ids(arena: &Vec<Node>, by_id: &Vec<usize>, flags: &Vec<bool>, Ghost(pred): Ghost<spec_fn(int) -> bool>) -> (r:
    Vec<NodeId>)
    requires
        flags@.len() == arena@.len(),
        forall|j: int| 0 <= j < arena@.len() ==> #[trigger] flags@[j] == pred(j),
        by_id@.len() == sorted_ids(arena@).len(),
        forall|t: int|
            0 <= t < by_id@.len() ==> #[trigger] by_id@[t] < arena@.len() && position_of(
                arena@,
                sorted_ids(arena@)[t],
                0,
            ) == Some(by_id@[t] as int),
    ensures
        r@ == ids_where(arena@, pred),
{
    let ghost ids = sorted_ids(arena@);
    let ghost f = |x: NodeId| pred(position_of(arena@, x, 0)->0);
    let mut r: Vec<NodeId> = Vec::new();
    let mut t: usize = 0;
    proof {
        reveal(Seq::filter);
        assert(ids.subrange(0, 0).filter(f) =~= Seq::<NodeId>::empty());
    }
    while t < by_id.len()
        invariant
            ids == sorted_ids(arena@),
            f == (|x: NodeId| pred(position_of(arena@, x, 0)->0)),
            flags@.len() == arena@.len(),
            forall|j: int| 0 <= j < arena@.len() ==> #[trigger] flags@[j] == pred(j),
            by_id@.len() == ids.len(),
            forall|u: int|
                0 <= u < by_id@.len() ==> #[trigger] by_id@[u] < arena@.len() && position_of(arena@, ids[u], 0)
                    == Some(by_id@[u] as int),
            t <= by_id@.len(),
            r@ == ids.subrange(0, t as int).filter(f),
        decreases by_id@.len() - t,
    {
        let k = by_id[t];
        proof {
            reveal(Seq::filter);
            let s = ids.subrange(0, t + 1);
            assert(s.drop_last() =~= ids.subrange(0, t as int));
            assert(s.last() == ids[t as int]);
            crate::ir::lemma_position_of(arena@, ids[t as int], 0);
        }
        if flags[k] {
            r.push(arena[k].id);
        }
        t += 1;
    }
    proof {
        assert(ids.subrange(0, ids.len() as int) =~= ids);
    }
    r
}

/// Runs dominance analysis: the dominator sets, immediate dominators,
/// dominator tree children and dominated nodes of every node.
pub fn run_dominance(func: &Function) -> (facts: FactMap<DominanceFact>)
    requires
        distinct_ids(func.arena@),
    ensures
        facts.wf(),
        is_greatest_dom_solution(func.arena@, dom_matrix(func.arena@)),
        forall|x: NodeId| facts@.dom().contains(x) <==> exists|i: int| 0 <= i < func.arena@.len() && func.arena@[i].id == x,
        forall|i: int|
            0 <= i < func.arena@.len() ==> dominance_fact_holds(func.arena@, i, #[trigger] facts@[func.arena@[i].id]),
{
    let arena = &func.arena;
    let n = arena.len();
    let ghost nodes = arena@;
    let preds = operand_positions(arena);
    let roots = root_flags(arena);
    let dom = dominator_rows(arena, &preds, &roots);
    let ghost d = rows(dom@);
    proof {
        lemma_greatest_unique(nodes, d, dom_matrix(nodes));
    }
    let idom = immediate_dominators(arena, &dom, &roots);
    let by_id = positions_by_id(arena);
    let mut facts: FactMap<DominanceFact> = FactMap::new();
    let mut i: usize = 0;
    while i < n
        invariant
            n == nodes.len(),
            nodes == arena@,
            arena == &func.arena,
            distinct_ids(nodes),
            d == rows(dom@),
            d == dom_matrix(nodes),
            dom@.len() == n,
            is_square(d, n as int),
            idom@.len() == n,
            forall|a: int|
                0 <= a < n ==> match #[trigger] idom@[a] {
                    Some(j) => idom_pos(nodes, d, a) == Some(j as int) && j < n,
                    None => idom_pos(nodes, d, a) is None,
                },
            by_id@.len() == sorted_ids(nodes).len(),
            forall|t: int|
                0 <= t < by_id@.len() ==> #[trigger] by_id@[t] < n && position_of(nodes, sorted_ids(nodes)[t], 0)
                    == Some(by_id@[t] as int),
            i <= n,
            facts.wf(),
            forall|x: NodeId| facts@.dom().contains(x) <==> exists|k: int| 0 <= k < i && nodes[k].id == x,
            forall|k: int| 0 <= k < i ==> dominance_fact_holds(nodes, k, #[trigger] facts@[nodes[k].id]),
        decreases n - i,
    {
        assert(d[i as int] == dom@[i as int]@);
        let dominators = flagged_ids(arena, &by_id, &dom[i], Ghost(dominator_of(d, i as int)));
        let mut child_flags: Vec<bool> = Vec::new();
        let mut below_flags: Vec<bool> = Vec::new();
        let mut m: usize = 0;
        while m < n
            invariant
                n == nodes.len(),
                idom@.len() == n,
                forall|a: int|
                    0 <= a < n ==> match #[trigger] idom@[a] {
                        Some(j) => idom_pos(nodes, d, a) == Some(j as int) && j < n,
                        None => idom_pos(nodes, d, a) is None,
                    },
                i < n,
                m <= n,
                child_flags@.len() == m,
                below_flags@.len() == m,
                forall|c: int| 0 <= c < m ==> #[trigger] child_flags@[c] == child_of(nodes, d, i as int)(c),
                forall|c: int| 0 <= c < m ==> #[trigger] below_flags@[c] == descendant_of(nodes, d, i as int)(c),
            decreases n - m,
        {
            child_flags.push(idom[m] == Some(i));
            let below = m != i && has_ancestor(&idom, m, i, Ghost(nodes), Ghost(d));
            proof {
                if m != i && !below {
                    if tree_descendant(nodes, d, i as int, m as int) {
                        let k = choose|k: nat| k >= 1 && #[trigger] ancestor_at(nodes, d, m as int, k) == Some(i as int);
                        lemma_ancestor_within(nodes, d, m as int, i as int, k);
                    }
                }
            }
            below_flags.push(below);
            m += 1;
        }
        let children = flagged_ids(arena, &by_id, &child_flags, Ghost(child_of(nodes, d, i as int)));
        let dominates = flagged_ids(arena, &by_id, &below_flags, Ghost(descendant_of(nodes, d, i as int)));
        let idom_id = match idom[i] {
            Some(j) => Some(arena[j].id),
            None => None,
        };
        let fact = DominanceFact { idom: idom_id, dominates, dominators, dom_tree_children: children };
        let ghost before = facts@;
        facts.insert(arena[i].id, fact);
        proof {
            assert forall|k: int| 0 <= k < i + 1 implies dominance_fact_holds(nodes, k, #[trigger] facts@[nodes[k].id]) by {
                if k < i {
                    assert(nodes[k].id != nodes[i as int].id);
                    assert(facts@[nodes[k].id] == before[nodes[k].id]);
                }
            }
            assert forall|x: NodeId| facts@.dom().contains(x) <==> exists|k: int| 0 <= k < i + 1 && nodes[k].id == x by {
                if facts@.dom().contains(x) && x != nodes[i as int].id {
                    let k = choose|k: int| 0 <= k < i && nodes[k].id == x;
                }
            }
        }
        i += 1;
    }
    facts
}

// ── Laws ────────────────────────────────────────────────────────────────

/// Every node dominates itself, and a root is dominated by itself alone.
pub proof fn law_dominance_reflexive(nodes: Seq<Node>, d: Seq<Seq<bool>>, i: int, j: int)
    requires
        is_greatest_dom_solution(nodes, d),
        0 <= i < nodes.len(),
        0 <= j < nodes.len(),
    ensures
        d[i][i],
        is_root(nodes, i) ==> (d[i][j] <==> j == i),
{
    assert(d[i][i] == dom_equation(nodes, d, i, i));
    assert(d[i][j] == dom_equation(nodes, d, i, j));
}

/// The dominator equations: a root is dominated by itself alone and has no
/// immediate dominator; any other node is dominated by itself and by what
/// dominates all of its operands.
pub proof fn law_dominator_equation(nodes: Seq<Node>, d: Seq<Seq<bool>>, i: int, j: int)
    requires
        is_greatest_dom_solution(nodes, d),
        0 <= i < nodes.len(),
        0 <= j < nodes.len(),
    ensures
        is_root(nodes, i) ==> (d[i][j] <==> j == i) && idom_pos(nodes, d, i) is None,
        !is_root(nodes, i) ==> (d[i][j] <==> (j == i || forall|p: int| #[trigger] is_pred(nodes, i, p) ==> d[p][j])),
{
    assert(d[i][j] == dom_equation(nodes, d, i, j));
}

/// Dominance is transitive: a dominator of a dominator of a node
/// dominates the node.
pub proof fn law_dominance_transitive(nodes: Seq<Node>, d: Seq<Seq<bool>>, i: int, j: int, k: int)
    requires
        is_greatest_dom_solution(nodes, d),
        0 <= i < nodes.len(),
        0 <= j < nodes.len(),
        0 <= k < nodes.len(),
        d[i][j],
        d[j][k],
    ensures
        d[i][k],
{
    let n = nodes.len() as int;
    let t = Seq::new(
        n as nat,
        |a: int| Seq::new(n as nat, |c: int| exists|b: int| 0 <= b < n && #[trigger] d[a][b] && d[b][c]),
    );
    assert forall|a: int| 0 <= a < n implies #[trigger] t[a].len() == n by {}
    assert forall|a: int, c: int| 0 <= a < n && 0 <= c < n && #[trigger] t[a][c] implies dom_equation(
        nodes,
        t,
        a,
        c,
    ) by {
        let b = choose|b: int| 0 <= b < n && #[trigger] d[a][b] && d[b][c];
        assert(d[a][b] == dom_equation(nodes, d, a, b));
        assert(d[b][c] == dom_equation(nodes, d, b, c));
        if is_root(nodes, a) {
            assert(b == a);
        } else if c != a {
            assert forall|p: int| #[trigger] is_pred(nodes, a, p) implies t[p][c] by {
                assert(d[p][p] == dom_equation(nodes, d, p, p));
                if b == a {
                    assert(d[a][c] == dom_equation(nodes, d, a, c));
                    assert(d[p][p] && d[p][c]);
                } else {
                    assert(d[p][b] && d[b][c]);
                }
            }
        }
    }
    assert(is_dom_post_solution(nodes, t));
    assert(within(t, d, n));
    assert(d[i][j] && d[j][k]);
    assert(t[i][k]);
}

/// The immediate dominator of a node strictly dominates it, and a
/// non-root with a strict dominator has an immediate dominator.
pub proof fn law_idom_strictly_dominates(nodes: Seq<Node>, d: Seq<Seq<bool>>, i: int, j: int)
    requires
        0 <= i < nodes.len(),
        0 <= j < nodes.len(),
    ensures
        idom_pos(nodes, d, i) == Some(j) ==> j != i && d[i][j],
        !is_root(nodes, i) && strict_dom(d, i, j) ==> idom_pos(nodes, d, i) is Some,
{
    if idom_pos(nodes, d, i) == Some(j) {
        let c = choose|c: int| is_idom(nodes, d, i, c);
        assert(is_idom(nodes, d, i, c));
    }
    if !is_root(nodes, i) && strict_dom(d, i, j) {
        lemma_best_candidate(nodes, d, i, j, nodes.len() as int);
    }
}

/// Among the strict dominators of a non-root before position `bound`, one
/// is preferred to all the others.
proof fn lemma_best_candidate(nodes: Seq<Node>, d: Seq<Seq<bool>>, i: int, j: int, bound: int)
    requires
        0 <= i < nodes.len(),
        0 <= j < bound <= nodes.len(),
        !is_root(nodes, i),
        strict_dom(d, i, j),
    ensures
        exists|b: int|
            0 <= b < bound && strict_dom(d, i, b) && forall|k: int|
                0 <= k < bound && #[trigger] strict_dom(d, i, k) ==> preferred(nodes, d, b, k),
        bound == nodes.len() ==> idom_pos(nodes, d, i) is Some,
    decreases bound,
{
    let last = bound - 1;
    if j == last {
        if exists|c: int| 0 <= c < last && strict_dom(d, i, c) {
            let c = choose|c: int| 0 <= c < last && strict_dom(d, i, c);
            lemma_best_candidate(nodes, d, i, c, last);
            let b = choose|b: int|
                0 <= b < last && strict_dom(d, i, b) && forall|k: int|
                    0 <= k < last && #[trigger] strict_dom(d, i, k) ==> preferred(nodes, d, b, k);
            if preferred(nodes, d, b, last) {
                assert(forall|k: int| 0 <= k < bound && #[trigger] strict_dom(d, i, k) ==> preferred(nodes, d, b, k));
            } else {
                assert(forall|k: int|
                    0 <= k < bound && #[trigger] strict_dom(d, i, k) ==> preferred(nodes, d, last, k));
            }
        } else {
            assert(forall|k: int| 0 <= k < bound && #[trigger] strict_dom(d, i, k) ==> preferred(nodes, d, last, k));
        }
    } else {
        lemma_best_candidate(nodes, d, i, j, last);
        let b = choose|b: int|
            0 <= b < last && strict_dom(d, i, b) && forall|k: int|
                0 <= k < last && #[trigger] strict_dom(d, i, k) ==> preferred(nodes, d, b, k);
        if strict_dom(d, i, last) && !preferred(nodes, d, b, last) {
            assert(forall|k: int| 0 <= k < bound && #[trigger] strict_dom(d, i, k) ==> preferred(nodes, d, last, k));
        } else {
            assert(forall|k: int| 0 <= k < bound && #[trigger] strict_dom(d, i, k) ==> preferred(nodes, d, b, k));
        }
    }
    if bound == nodes.len() {
        let b = choose|b: int|
            0 <= b < bound && strict_dom(d, i, b) && forall|k: int|
                0 <= k < bound && #[trigger] strict_dom(d, i, k) ==> preferred(nodes, d, b, k);
        assert(is_idom(nodes, d, i, b));
    }
}

/// `p` is a path of positions from a root, each node an operand of the
/// next.
pub open spec fn is_root_path(nodes: Seq<Node>, p: Seq<int>) -> bool {
    &&& p.len() >= 1
    &&& forall|t: int| 0 <= t < p.len() ==> 0 <= #[trigger] p[t] < nodes.len()
    &&& is_root(nodes, p[0])
    &&& forall|t: int| 0 <= t < p.len() - 1 ==> #[trigger] is_pred(nodes, p[t + 1], p[t])
}

/// A dominator lies on every path from a root to the node it dominates.
pub proof fn law_dominator_on_every_path(nodes: Seq<Node>, d: Seq<Seq<bool>>, p: Seq<int>, j: int)
    requires
        is_dom_solution(nodes, d),
        is_root_path(nodes, p),
        0 <= j < nodes.len(),
        d[p.last()][j],
    ensures
        p.contains(j),
    decreases p.len(),
{
    let n = p.last();
    assert(d[n][j] == dom_equation(nodes, d, n, j));
    if n == j {
        assert(p[p.len() - 1] == j);
    } else if is_root(nodes, n) {
    } else {
        assert(p.len() >= 2) by {
            if p.len() == 1 {
                assert(is_root(nodes, p[0]));
            }
        }
        let q = p.drop_last();
        let t0 = p.len() - 2;
        assert(is_pred(nodes, p[t0 + 1], p[t0]));
        assert(p[t0 + 1] == n);
        assert(q.last() == p[t0]);
        assert(d[q.last()][j]);
        assert(is_root_path(nodes, q)) by {
            assert forall|t: int| 0 <= t < q.len() - 1 implies #[trigger] is_pred(nodes, q[t + 1], q[t]) by {
                assert(is_pred(nodes, p[t + 1], p[t]));
            }
        }
        law_dominator_on_every_path(nodes, d, q, j);
        let t = choose|t: int| 0 <= t < q.len() && q[t] == j;
        assert(p[t] == j);
    }
}

} // verus!
