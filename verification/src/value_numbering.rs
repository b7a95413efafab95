//! Value numbering: each node gets a congruence class, an FNV-1a hash of
//! its operation, the classes of its operands and its immediate data;
//! nodes with equal classes are congruent. Nodes are visited in topological
//! order, and each class's canonical representative is its member with the
//! smallest identifier.
use vstd::prelude::*;
use vstd::wrapping::u64_specs;
use crate::facts::{ConstantData, ValueNumberFact};
use crate::ir::{Function, Node, NodeId, NodeKind};
use crate::graph::{spec_dataflow_inputs, dataflow_inputs, spec_topological_sort, topological_sort, is_leaf_id,
    law_topological_sort_order, acyclic, operands_in_arena, no_return_operand, law_topological_sort_dataflow, inputs_of};
use crate::factmap::FactMap;
use crate::cache::{name_words, push_name_words};
use crate::visit::{facts_over, node_of, lemma_node_of, lemma_facts_over_dom, lemma_topological_facts_dom};

verus! {

// ── FNV-1a ──────────────────────────────────────────────────────────────

pub open spec fn fnv_offset() -> u64 {
    0xcbf29ce484222325u64
}

/// One FNV-1a step: xor in the word, multiply by the FNV prime.
pub open spec fn fnv_mix(h: u64, v: u64) -> u64 {
    u64_specs::wrapping_mul(h ^ v, 0x100000001b3u64)
}

/// The hash of `words` mixed into `h` in order.
pub open spec fn fnv_words(h: u64, words: Seq<u64>) -> u64
    decreases words.len(),
{
    if words.len() == 0 {
        h
    } else {
        fnv_mix(fnv_words(h, words.drop_last()), words.last())
    }
}

fn mix(h: u64, v: u64) -> (r: u64)
    ensures
        r == fnv_mix(h, v),
{
    (h ^ v).wrapping_mul(0x100000001b3u64)
}

/// Mixes `words` into `h` in order.
pub(crate) fn mix_all(h: u64, words: &Vec<u64>) -> (r: u64)
    ensures
        r == fnv_words(h, words@),
{
    let mut r = h;
    let mut t: usize = 0;
    while t < words.len()
        invariant
            t <= words@.len(),
            r == fnv_words(h, words@.subrange(0, t as int)),
        decreases words@.len() - t,
    {
        assert(words@.subrange(0, t + 1).drop_last() =~= words@.subrange(0, t as int));
        r = mix(r, words[t]);
        t += 1;
    }
    assert(words@.subrange(0, words@.len() as int) =~= words@);
    r
}

// ── Hashing a node ──────────────────────────────────────────────────────

/// A numeric tag for each kind of node.
/// Whether two kinds are the same operation (the same variant, whatever
/// their operands and data).
pub open spec fn same_operation(a: NodeKind, b: NodeKind) -> bool {
    ||| a is Constant && b is Constant
    ||| a is Parameter && b is Parameter
    ||| a is Add && b is Add
    ||| a is Sub && b is Sub
    ||| a is Mul && b is Mul
    ||| a is Div && b is Div
    ||| a is Rem && b is Rem
    ||| a is Neg && b is Neg
    ||| a is And && b is And
    ||| a is Or && b is Or
    ||| a is Xor && b is Xor
    ||| a is Shl && b is Shl
    ||| a is Shr && b is Shr
    ||| a is Rol && b is Rol
    ||| a is Ror && b is Ror
    ||| a is Not && b is Not
    ||| a is Popcount && b is Popcount
    ||| a is LeadingZeros && b is LeadingZeros
    ||| a is TrailingZeros && b is TrailingZeros
    ||| a is Eq && b is Eq
    ||| a is Ne && b is Ne
    ||| a is Lt && b is Lt
    ||| a is Le && b is Le
    ||| a is Gt && b is Gt
    ||| a is Ge && b is Ge
    ||| a is BoolAnd && b is BoolAnd
    ||| a is BoolOr && b is BoolOr
    ||| a is BoolNot && b is BoolNot
    ||| a is Select && b is Select
    ||| a is Load && b is Load
    ||| a is Store && b is Store
    ||| a is Allocate && b is Allocate
    ||| a is Deallocate && b is Deallocate
    ||| a is FieldAccess && b is FieldAccess
    ||| a is ArrayAccess && b is ArrayAccess
    ||| a is Call && b is Call
    ||| a is Intrinsic && b is Intrinsic
    ||| a is ExternalCall && b is ExternalCall
    ||| a is Loop && b is Loop
    ||| a is Iterator && b is Iterator
    ||| a is Pack && b is Pack
    ||| a is ArrayCmpMask && b is ArrayCmpMask
    ||| a is Convert && b is Convert
    ||| a is TupleExtract && b is TupleExtract
    ||| a is Return && b is Return
}

pub open spec fn spec_kind_variant_tag(kind: NodeKind) -> u32 {
    match kind {
        NodeKind::Constant(_) => 1,
        NodeKind::Parameter { .. } => 2,
        NodeKind::Add { .. } => 3,
        NodeKind::Sub { .. } => 4,
        NodeKind::Mul { .. } => 5,
        NodeKind::Div { .. } => 6,
        NodeKind::Rem { .. } => 7,
        NodeKind::Neg { .. } => 8,
        NodeKind::And { .. } => 9,
        NodeKind::Or { .. } => 10,
        NodeKind::Xor { .. } => 11,
        NodeKind::Shl { .. } => 12,
        NodeKind::Shr { .. } => 13,
        NodeKind::Rol { .. } => 14,
        NodeKind::Ror { .. } => 15,
        NodeKind::Not { .. } => 16,
        NodeKind::Popcount { .. } => 17,
        NodeKind::LeadingZeros { .. } => 18,
        NodeKind::TrailingZeros { .. } => 19,
        NodeKind::Eq { .. } => 20,
        NodeKind::Ne { .. } => 21,
        NodeKind::Lt { .. } => 22,
        NodeKind::Le { .. } => 23,
        NodeKind::Gt { .. } => 24,
        NodeKind::Ge { .. } => 25,
        NodeKind::BoolAnd { .. } => 26,
        NodeKind::BoolOr { .. } => 27,
        NodeKind::BoolNot { .. } => 28,
        NodeKind::Select { .. } => 29,
        NodeKind::Load { .. } => 30,
        NodeKind::Store { .. } => 31,
        NodeKind::Allocate { .. } => 32,
        NodeKind::Deallocate { .. } => 33,
        NodeKind::FieldAccess { .. } => 34,
        NodeKind::ArrayAccess { .. } => 35,
        NodeKind::Call { .. } => 36,
        NodeKind::Intrinsic { .. } => 37,
        NodeKind::ExternalCall { .. } => 38,
        NodeKind::Loop { .. } => 39,
        NodeKind::Iterator { .. } => 40,
        NodeKind::Pack { .. } => 42,
        NodeKind::ArrayCmpMask { .. } => 43,
        NodeKind::Convert { .. } => 44,
        NodeKind::TupleExtract { .. } => 45,
        NodeKind::Return { .. } => 41,
    }
}

/// A numeric tag for each kind of node.
pub(crate) fn kind_variant_tag(kind: &NodeKind) -> (t: u32)
    ensures
        t == spec_kind_variant_tag(*kind),
{
    match kind {
        NodeKind::Constant(_) => 1,
        NodeKind::Parameter { .. } => 2,
        NodeKind::Add { .. } => 3,
        NodeKind::Sub { .. } => 4,
        NodeKind::Mul { .. } => 5,
        NodeKind::Div { .. } => 6,
        NodeKind::Rem { .. } => 7,
        NodeKind::Neg { .. } => 8,
        NodeKind::And { .. } => 9,
        NodeKind::Or { .. } => 10,
        NodeKind::Xor { .. } => 11,
        NodeKind::Shl { .. } => 12,
        NodeKind::Shr { .. } => 13,
        NodeKind::Rol { .. } => 14,
        NodeKind::Ror { .. } => 15,
        NodeKind::Not { .. } => 16,
        NodeKind::Popcount { .. } => 17,
        NodeKind::LeadingZeros { .. } => 18,
        NodeKind::TrailingZeros { .. } => 19,
        NodeKind::Eq { .. } => 20,
        NodeKind::Ne { .. } => 21,
        NodeKind::Lt { .. } => 22,
        NodeKind::Le { .. } => 23,
        NodeKind::Gt { .. } => 24,
        NodeKind::Ge { .. } => 25,
        NodeKind::BoolAnd { .. } => 26,
        NodeKind::BoolOr { .. } => 27,
        NodeKind::BoolNot { .. } => 28,
        NodeKind::Select { .. } => 29,
        NodeKind::Load { .. } => 30,
        NodeKind::Store { .. } => 31,
        NodeKind::Allocate { .. } => 32,
        NodeKind::Deallocate { .. } => 33,
        NodeKind::FieldAccess { .. } => 34,
        NodeKind::ArrayAccess { .. } => 35,
        NodeKind::Call { .. } => 36,
        NodeKind::Intrinsic { .. } => 37,
        NodeKind::ExternalCall { .. } => 38,
        NodeKind::Loop { .. } => 39,
        NodeKind::Iterator { .. } => 40,
        NodeKind::Pack { .. } => 42,
        NodeKind::ArrayCmpMask { .. } => 43,
        NodeKind::Convert { .. } => 44,
        NodeKind::TupleExtract { .. } => 45,
        NodeKind::Return { .. } => 41,
    }
}

/// The words a constant contributes: a tag for its form and its fields.
pub open spec fn constant_words(d: ConstantData) -> Seq<u64> {
    match d {
        ConstantData::Unit => seq![0u64],
        ConstantData::Bool(b) => seq![1u64, if b { 1u64 } else { 0u64 }],
        ConstantData::Integer { bits, signed, width } => seq![
            2u64,
            (bits % 0x1_0000_0000_0000_0000) as u64,
            (bits / 0x1_0000_0000_0000_0000) as u64,
            if signed { 1u64 } else { 0u64 },
            width as u64,
        ],
    }
}

/// The immediate data of a node: a constant's value, a parameter's index,
/// a field's name, a callee's name, an allocated type's name.
pub open spec fn immediate_words(kind: NodeKind) -> Seq<u64> {
    match kind {
        NodeKind::Constant(d) => constant_words(d),
        NodeKind::Parameter { index } => seq![index as u64],
        NodeKind::FieldAccess { field, .. } => name_words(field@),
        NodeKind::Intrinsic { name, .. } => name_words(name@),
        NodeKind::ExternalCall { name, .. } => name_words(name@),
        NodeKind::Allocate { ty, .. } => name_words(ty@),
        _ => Seq::empty(),
    }
}

/// The class recorded for `x`, 0 if none.
pub open spec fn number_of(m: Map<NodeId, u64>, x: NodeId) -> u64 {
    if m.dom().contains(x) {
        m[x]
    } else {
        0
    }
}

/// The words hashed for a node: its kind tag, its operands' classes in
/// order, its immediate data.
pub open spec fn node_words(kind: NodeKind, m: Map<NodeId, u64>) -> Seq<u64> {
    seq![spec_kind_variant_tag(kind) as u64] + spec_dataflow_inputs(kind).map_values(|x: NodeId| number_of(m, x))
        + immediate_words(kind)
}

/// The class of a node of kind `kind`, given the classes so far.
pub open spec fn spec_compute_hash(kind: NodeKind, m: Map<NodeId, u64>) -> u64 {
    fnv_words(fnv_offset(), node_words(kind, m))
}

fn constant_words_exec(d: &ConstantData, words: &mut Vec<u64>)
    ensures
        final(words)@ == old(words)@ + constant_words(*d),
{
    let ghost start = words@;
    match d {
        ConstantData::Unit => {
            words.push(0);
        },
        ConstantData::Bool(b) => {
            words.push(1);
            words.push(if *b { 1 } else { 0 });
        },
        ConstantData::Integer { bits, signed, width } => {
            words.push(2);
            words.push((*bits % 0x1_0000_0000_0000_0000u128) as u64);
            words.push((*bits / 0x1_0000_0000_0000_0000u128) as u64);
            words.push(if *signed { 1 } else { 0 });
            words.push(*width as u64);
        },
    }
    assert(words@ =~= start + constant_words(*d));
}

/// Hashes a node's operation, its operands' classes and its immediate
/// data with FNV-1a.
fn compute_hash(kind: &NodeKind, vn_map: &FactMap<u64>) -> (h: u64)
    requires
        vn_map.wf(),
    ensures
        h == spec_compute_hash(*kind, vn_map@),
{
    let mut words: Vec<u64> = Vec::new();
    words.push(kind_variant_tag(kind) as u64);
    let inputs = dataflow_inputs(kind);
    let ghost nums = inputs@.map_values(|x: NodeId| number_of(vn_map@, x));
    let mut t: usize = 0;
    while t < inputs.len()
        invariant
            vn_map.wf(),
            nums == inputs@.map_values(|x: NodeId| number_of(vn_map@, x)),
            t <= inputs@.len(),
            words@ == seq![spec_kind_variant_tag(*kind) as u64] + nums.subrange(0, t as int),
        decreases inputs@.len() - t,
    {
        let v = match vn_map.get(inputs[t]) {
            Some(n) => *n,
            None => 0,
        };
        words.push(v);
        t += 1;
        assert(words@ =~= seq![spec_kind_variant_tag(*kind) as u64] + nums.subrange(0, t as int));
    }
    assert(nums.subrange(0, nums.len() as int) =~= nums);
    let ghost base = words@;
    match kind {
        NodeKind::Constant(data) => constant_words_exec(data, &mut words),
        NodeKind::Parameter { index } => {
            words.push(*index as u64);
        },
        NodeKind::FieldAccess { field, .. } => push_name_words(&mut words, field.as_str()),
        NodeKind::Intrinsic { name, .. } => push_name_words(&mut words, name.as_str()),
        NodeKind::ExternalCall { name, .. } => push_name_words(&mut words, name.as_str()),
        NodeKind::Allocate { ty, .. } => push_name_words(&mut words, ty.as_str()),
        _ => {},
    }
    assert(words@ =~= node_words(*kind, vn_map@));
    mix_all(0xcbf29ce484222325u64, &words)
}

// ── The analysis ────────────────────────────────────────────────────────

/// The value-numbering step of the visit.
pub open spec fn number_step() -> spec_fn(Node, Map<NodeId, u64>) -> u64 {
    |n: Node, m: Map<NodeId, u64>| spec_compute_hash(n.kind, m)
}

/// The classes after visiting the nodes of `order` in turn.
pub open spec fn numbers_over(nodes: Seq<Node>, order: Seq<NodeId>) -> Map<NodeId, u64> {
    facts_over(nodes, order, number_step())
}

/// The identifiers of `order` that the arena holds, in order.
pub open spec fn visited(nodes: Seq<Node>, order: Seq<NodeId>) -> Seq<NodeId>
    decreases order.len(),
{
    if order.len() == 0 {
        Seq::empty()
    } else if node_of(nodes, order.last()) is Some {
        visited(nodes, order.drop_last()).push(order.last())
    } else {
        visited(nodes, order.drop_last())
    }
}

/// The member of `s` with the smallest identifier among those whose class
/// is `h`, if any.
pub open spec fn min_with_class(s: Seq<NodeId>, m: Map<NodeId, u64>, h: u64) -> Option<NodeId>
    decreases s.len(),
{
    if s.len() == 0 {
        None
    } else {
        let r = min_with_class(s.drop_last(), m, h);
        let x = s.last();
        if m[x] != h {
            r
        } else {
            match r {
                None => Some(x),
                Some(c) => if x.id < c.id { Some(x) } else { Some(c) },
            }
        }
    }
}

/// The value-numbering fact of node `x` of the arena.
pub open spec fn number_fact_holds(nodes: Seq<Node>, x: NodeId, f: ValueNumberFact) -> bool {
    let order = spec_topological_sort(nodes);
    let m = numbers_over(nodes, order);
    &&& f.congruence_class == m[x]
    &&& min_with_class(visited(nodes, order), m, m[x]) == Some(f.canonical)
}

proof fn lemma_min_with_class(s: Seq<NodeId>, m: Map<NodeId, u64>, h: u64)
    ensures
        (exists|k: int| 0 <= k < s.len() && m[s[k]] == h) <==> min_with_class(s, m, h) is Some,
        min_with_class(s, m, h) matches Some(c) ==> s.contains(c) && m[c] == h && forall|k: int|
            0 <= k < s.len() && m[#[trigger] s[k]] == h ==> c.id <= s[k].id,
    decreases s.len(),
{
    if s.len() > 0 {
        let d = s.drop_last();
        lemma_min_with_class(d, m, h);
        let r = min_with_class(s, m, h);
        if exists|k: int| 0 <= k < d.len() && m[d[k]] == h {
            let k = choose|k: int| 0 <= k < d.len() && m[d[k]] == h;
            assert(s[k] == d[k]);
        }
        if exists|k: int| 0 <= k < s.len() && m[s[k]] == h {
            let k = choose|k: int| 0 <= k < s.len() && m[s[k]] == h;
            if k < d.len() {
                assert(d[k] == s[k]);
            }
        }
        if r is Some {
            let c = r->0;
            if min_with_class(d, m, h) is Some {
                let c0 = min_with_class(d, m, h)->0;
                let i0 = choose|i0: int| 0 <= i0 < d.len() && d[i0] == c0;
                assert(s[i0] == c0);
            }
            assert(s[s.len() - 1] == s.last());
            assert forall|k: int| 0 <= k < s.len() && m[#[trigger] s[k]] == h implies c.id <= s[k].id by {
                if k < d.len() {
                    assert(d[k] == s[k]);
                }
            }
        }
    }
}

fn min_with_class_exec(s: &Vec<(NodeId, u64)>, h: u64, Ghost(ids): Ghost<Seq<NodeId>>, Ghost(m): Ghost<
    Map<NodeId, u64>,
>) -> (r: Option<NodeId>)
    requires
        s@.len() == ids.len(),
        forall|t: int| 0 <= t < s@.len() ==> #[trigger] s@[t] == (ids[t], m[ids[t]]),
    ensures
        r == min_with_class(ids, m, h),
{
    let mut best: Option<NodeId> = None;
    let mut t: usize = 0;
    while t < s.len()
        invariant
            s@.len() == ids.len(),
            forall|u: int| 0 <= u < s@.len() ==> #[trigger] s@[u] == (ids[u], m[ids[u]]),
            t <= s@.len(),
            best == min_with_class(ids.subrange(0, t as int), m, h),
        decreases s@.len() - t,
    {
        let ghost pre = ids.subrange(0, t as int);
        assert(ids.subrange(0, t + 1).drop_last() =~= pre);
        assert(s@[t as int] == (ids[t as int], m[ids[t as int]]));
        let (x, c) = s[t];
        if c == h {
            best = match best {
                None => Some(x),
                Some(b) => if x.id < b.id { Some(x) } else { Some(b) },
            };
        }
        t += 1;
    }
    assert(ids.subrange(0, ids.len() as int) =~= ids);
    best
}

/// Runs value numbering: each node's congruence class and its class's
/// canonical representative.
pub fn run_value_numbering(func: &Function) -> (facts: FactMap<ValueNumberFact>)
    ensures
        facts.wf(),
        forall|x: NodeId|
            facts@.dom().contains(x) <==> exists|i: int| 0 <= i < func.arena@.len() && func.arena@[i].id == x,
        forall|x: NodeId| #[trigger] facts@.dom().contains(x) ==> number_fact_holds(func.arena@, x, facts@[x]),
{
    let ghost nodes = func.arena@;
    let order = topological_sort(func);
    let ghost full = spec_topological_sort(nodes);
    let mut vn_map: FactMap<u64> = FactMap::new();
    let mut seen: Vec<(NodeId, u64)> = Vec::new();
    let mut i: usize = 0;
    proof {
        law_topological_sort_order(nodes);
    }
    while i < order.len()
        invariant
            nodes == func.arena@,
            order@ == full,
            full == spec_topological_sort(nodes),
            forall|a: int, b: int| 0 <= a < b < full.len() ==> full[a] != full[b],
            i <= order@.len(),
            vn_map.wf(),
            vn_map@ == numbers_over(nodes, order@.subrange(0, i as int)),
            seen@.len() == visited(nodes, order@.subrange(0, i as int)).len(),
            forall|t: int|
                0 <= t < seen@.len() ==> #[trigger] seen@[t].0 == visited(nodes, order@.subrange(0, i as int))[t]
                    && seen@[t].1 == vn_map@[seen@[t].0],
        decreases order@.len() - i,
    {
        let id = order[i];
        let ghost pre = order@.subrange(0, i as int);
        proof {
            assert(order@.subrange(0, i + 1).drop_last() =~= pre);
        }
        match func.get_node(id) {
            Some(node) => {
                let hash = compute_hash(&node.kind, &vn_map);
                proof {
                    lemma_facts_over_dom(nodes, pre, number_step(), id);
                    assert(!pre.contains(id)) by {
                        if pre.contains(id) {
                            let k = choose|k: int| 0 <= k < pre.len() && pre[k] == id;
                            assert(full[k] == full[i as int]);
                        }
                    }
                }
                vn_map.insert(id, hash);
                seen.push((id, hash));
                proof {
                    let vis = visited(nodes, order@.subrange(0, i + 1));
                    assert(vis == visited(nodes, pre).push(id));
                    assert forall|t: int| 0 <= t < seen@.len() implies #[trigger] seen@[t].0 == vis[t]
                        && seen@[t].1 == vn_map@[seen@[t].0] by {
                        if t < seen@.len() - 1 {
                            lemma_visited_in(nodes, pre, t);
                            assert(seen@[t].0 != id);
                        }
                    }
                }
            },
            None => {},
        }
        i += 1;
    }
    proof {
        assert(order@.subrange(0, order@.len() as int) =~= order@);
    }
    let ghost vis = visited(nodes, full);
    let ghost m = vn_map@;
    let mut facts: FactMap<ValueNumberFact> = FactMap::new();
    let mut t: usize = 0;
    while t < seen.len()
        invariant
            nodes == func.arena@,
            full == spec_topological_sort(nodes),
            m == numbers_over(nodes, full),
            vis == visited(nodes, full),
            seen@.len() == vis.len(),
            forall|u: int| 0 <= u < seen@.len() ==> #[trigger] seen@[u] == (vis[u], m[vis[u]]),
            t <= seen@.len(),
            facts.wf(),
            forall|x: NodeId| facts@.dom().contains(x) <==> exists|u: int| 0 <= u < t && vis[u] == x,
            forall|x: NodeId| #[trigger] facts@.dom().contains(x) ==> number_fact_holds(nodes, x, facts@[x]),
        decreases seen@.len() - t,
    {
        let (id, hash) = seen[t];
        proof {
            assert(vis.contains(id)) by {
                assert(vis[t as int] == id);
            }
            lemma_min_with_class(vis, m, m[id]);
        }
        let canonical = match min_with_class_exec(&seen, hash, Ghost(vis), Ghost(m)) {
            Some(c) => c,
            None => id,
        };
        facts.insert(id, ValueNumberFact { congruence_class: hash, canonical });
        t += 1;
    }
    proof {
        assert forall|x: NodeId| facts@.dom().contains(x) <==> exists|i: int| 0 <= i < nodes.len() && nodes[i].id == x by {
            lemma_visited_members(nodes, full, x);
            lemma_node_of(nodes, x);
            crate::ir::lemma_position_of(nodes, x, 0);
            law_topological_sort_order(nodes);
            if exists|i: int| 0 <= i < nodes.len() && nodes[i].id == x {
                let i = choose|i: int| 0 <= i < nodes.len() && nodes[i].id == x;
                assert(full.contains(x));
                assert(vis.contains(x));
                let u = choose|u: int| 0 <= u < vis.len() && vis[u] == x;
            }
            if facts@.dom().contains(x) {
                let u = choose|u: int| 0 <= u < seen@.len() && vis[u] == x;
                assert(vis.contains(x));
            }
        }
    }
    facts
}

proof fn lemma_visited_members(nodes: Seq<Node>, order: Seq<NodeId>, x: NodeId)
    ensures
        visited(nodes, order).contains(x) <==> (order.contains(x) && node_of(nodes, x) is Some),
    decreases order.len(),
{
    if order.len() > 0 {
        let d = order.drop_last();
        lemma_visited_members(nodes, d, x);
        let vd = visited(nodes, d);
        let v = visited(nodes, order);
        if vd.contains(x) {
            let k = choose|k: int| 0 <= k < vd.len() && vd[k] == x;
            assert(v[k] == x);
        }
        if v.contains(x) {
            let k = choose|k: int| 0 <= k < v.len() && v[k] == x;
            if k < vd.len() {
                assert(vd[k] == x);
            }
        }
        if d.contains(x) {
            let k = choose|k: int| 0 <= k < d.len() && d[k] == x;
            assert(order[k] == x);
        }
        if order.contains(x) && x != order.last() {
            let k = choose|k: int| 0 <= k < order.len() && order[k] == x;
            assert(d[k] == x);
        }
        if node_of(nodes, order.last()) is Some {
            assert(v[v.len() - 1] == order.last());
        }
    }
}

proof fn lemma_visited_in(nodes: Seq<Node>, order: Seq<NodeId>, t: int)
    requires
        0 <= t < visited(nodes, order).len(),
    ensures
        order.contains(visited(nodes, order)[t]),
        facts_over(nodes, order, number_step()).dom().contains(visited(nodes, order)[t]),
{
    let x = visited(nodes, order)[t];
    assert(visited(nodes, order).contains(x));
    lemma_visited_members(nodes, order, x);
    lemma_facts_over_dom(nodes, order, number_step(), x);
}

// ── Laws ────────────────────────────────────────────────────────────────

/// Every node of the arena is visited.
proof fn lemma_all_visited(nodes: Seq<Node>, order: Seq<NodeId>)
    requires
        forall|k: int| 0 <= k < order.len() ==> node_of(nodes, #[trigger] order[k]) is Some,
    ensures
        visited(nodes, order) == order,
    decreases order.len(),
{
    if order.len() > 0 {
        let d = order.drop_last();
        assert forall|k: int| 0 <= k < d.len() implies node_of(nodes, #[trigger] d[k]) is Some by {
            assert(d[k] == order[k]);
        }
        lemma_all_visited(nodes, d);
        assert(node_of(nodes, order[order.len() - 1]) is Some);
        assert(d.push(order.last()) =~= order);
    }
}

proof fn lemma_order_visited(nodes: Seq<Node>)
    ensures
        visited(nodes, spec_topological_sort(nodes)) == spec_topological_sort(nodes),
{
    let full = spec_topological_sort(nodes);
    law_topological_sort_order(nodes);
    assert forall|k: int| 0 <= k < full.len() implies node_of(nodes, #[trigger] full[k]) is Some by {
        assert(full.contains(full[k]));
        let i = choose|i: int| 0 <= i < nodes.len() && nodes[i].id == full[k];
        crate::ir::lemma_position_of(nodes, full[k], 0);
    }
    lemma_all_visited(nodes, full);
}

/// A class's canonical representative is the member of the class with the
/// smallest identifier: it is in the class, is its own representative, and
/// no member of the class has a smaller identifier.
pub proof fn law_canonical_representative(nodes: Seq<Node>, x: NodeId, y: NodeId)
    requires
        exists|i: int| 0 <= i < nodes.len() && nodes[i].id == x,
        exists|i: int| 0 <= i < nodes.len() && nodes[i].id == y,
    ensures
        ({
            let full = spec_topological_sort(nodes);
            let m = numbers_over(nodes, full);
            let c = min_with_class(visited(nodes, full), m, m[x]);
            &&& c is Some
            &&& m[c->0] == m[x]
            &&& exists|i: int| 0 <= i < nodes.len() && nodes[i].id == c->0
            &&& min_with_class(visited(nodes, full), m, m[c->0]) == c
            &&& m[y] == m[x] ==> c->0.id <= y.id
        }),
{
    let full = spec_topological_sort(nodes);
    let m = numbers_over(nodes, full);
    law_topological_sort_order(nodes);
    lemma_order_visited(nodes);
    let kx = choose|k: int| 0 <= k < full.len() && full[k] == x;
    let ky = choose|k: int| 0 <= k < full.len() && full[k] == y;
    assert(full.contains(x));
    assert(full.contains(y));
    lemma_min_with_class(full, m, m[x]);
    let c = min_with_class(full, m, m[x]);
    assert(m[full[kx]] == m[x]);
    assert(c is Some);
    assert(full.contains(c->0));
    if m[y] == m[x] {
        assert(m[full[ky]] == m[x]);
    }
}

/// Two nodes without operands of the same kind (the same constant, the
/// same parameter) are congruent.
pub proof fn law_equal_leaves_congruent(nodes: Seq<Node>, x: NodeId, y: NodeId, k: NodeKind)
    requires
        crate::ir::kind_of(nodes, x) == Some(k),
        crate::ir::kind_of(nodes, y) == Some(k),
        spec_dataflow_inputs(k).len() == 0,
    ensures
        numbers_over(nodes, spec_topological_sort(nodes))[x] == numbers_over(nodes, spec_topological_sort(nodes))[y],
{
    lemma_node_of(nodes, x);
    lemma_node_of(nodes, y);
    let h = spec_compute_hash(k, Map::empty());
    assert forall|m: Map<NodeId, u64>| #[trigger] spec_compute_hash(k, m) == h by {
        assert(node_words(k, m) =~= node_words(k, Map::empty()));
    }
    let nx = node_of(nodes, x)->0;
    let ny = node_of(nodes, y)->0;
    assert forall|m: Map<NodeId, u64>| #[trigger] number_step()(nx, m) == h by {
        assert(spec_compute_hash(k, m) == h);
    }
    assert forall|m: Map<NodeId, u64>| #[trigger] number_step()(ny, m) == h by {
        assert(spec_compute_hash(k, m) == h);
    }
    crate::visit::lemma_topological_facts_fixed(nodes, number_step(), x, nx, h);
    crate::visit::lemma_topological_facts_fixed(nodes, number_step(), y, ny, h);
}


/// In an arena without cycles, with every operand in the arena and no
/// `Return` operand, every node's class is the hash of its own words over
/// the final classes: its kind, the classes of its operands, its immediate
/// data.
pub proof fn law_value_number_equation(nodes: Seq<Node>, x: NodeId)
    requires
        acyclic(nodes),
        operands_in_arena(nodes),
        no_return_operand(nodes),
        exists|k: int| 0 <= k < nodes.len() && nodes[k].id == x,
    ensures
        ({
            let m = numbers_over(nodes, spec_topological_sort(nodes));
            &&& m.dom().contains(x)
            &&& m[x] == spec_compute_hash(node_of(nodes, x)->0.kind, m)
        }),
{
    let order = spec_topological_sort(nodes);
    let m = numbers_over(nodes, order);
    law_topological_sort_order(nodes);
    law_topological_sort_dataflow(nodes);
    lemma_node_of(nodes, x);
    crate::ir::lemma_position_of(nodes, x, 0);
    let n = node_of(nodes, x)->0;
    crate::visit::lemma_in_topological_order(nodes, x);
    let i = choose|i: int| 0 <= i < order.len() && order[i] == x;
    assert(crate::visit::no_repeats(order));
    crate::visit::lemma_facts_over_at(nodes, order, number_step(), i, n);
    let before = facts_over(nodes, order.subrange(0, i), number_step());
    assert(inputs_of(nodes, x) == spec_dataflow_inputs(n.kind));
    let ins = spec_dataflow_inputs(n.kind);
    assert forall|j: int| 0 <= j < ins.len() implies number_of(before, #[trigger] ins[j]) == number_of(m, ins[j]) by {
        let y = ins[j];
        assert(inputs_of(nodes, order[i]).contains(y));
        let a = choose|a: int| 0 <= a < i && order[a] == y;
        assert(order.subrange(0, i)[a] == y);
        let k = choose|k: int| 0 <= k < nodes.len() && nodes[k].id == y;
        crate::ir::lemma_position_of(nodes, y, 0);
        lemma_facts_over_dom(nodes, order.subrange(0, i), number_step(), y);
        crate::visit::lemma_facts_over_stable(nodes, order, number_step(), i, y);
    }
    assert(node_words(n.kind, before) =~= node_words(n.kind, m)) by {
        assert(ins.map_values(|y: NodeId| number_of(before, y)) =~= ins.map_values(|y: NodeId| number_of(m, y)));
    }
}

/// Congruence: in such an arena, two nodes of the same kind variant with
/// the same immediate data whose operands are pairwise in the same class
/// are in the same class.
pub proof fn law_congruent_nodes(nodes: Seq<Node>, x: NodeId, y: NodeId)
    requires
        acyclic(nodes),
        operands_in_arena(nodes),
        no_return_operand(nodes),
        exists|k: int| 0 <= k < nodes.len() && nodes[k].id == x,
        exists|k: int| 0 <= k < nodes.len() && nodes[k].id == y,
        spec_kind_variant_tag(node_of(nodes, x)->0.kind) == spec_kind_variant_tag(node_of(nodes, y)->0.kind),
        immediate_words(node_of(nodes, x)->0.kind) == immediate_words(node_of(nodes, y)->0.kind),
        inputs_of(nodes, x).len() == inputs_of(nodes, y).len(),
        forall|j: int|
            0 <= j < inputs_of(nodes, x).len() ==> numbers_over(nodes, spec_topological_sort(nodes))[#[trigger] inputs_of(
                nodes,
                x,
            )[j]] == numbers_over(nodes, spec_topological_sort(nodes))[inputs_of(nodes, y)[j]],
    ensures
        numbers_over(nodes, spec_topological_sort(nodes))[x] == numbers_over(nodes, spec_topological_sort(nodes))[y],
{
    let m = numbers_over(nodes, spec_topological_sort(nodes));
    law_value_number_equation(nodes, x);
    law_value_number_equation(nodes, y);
    lemma_node_of(nodes, x);
    lemma_node_of(nodes, y);
    crate::ir::lemma_position_of(nodes, x, 0);
    crate::ir::lemma_position_of(nodes, y, 0);
    let kx = node_of(nodes, x)->0.kind;
    let ky = node_of(nodes, y)->0.kind;
    let ix = spec_dataflow_inputs(kx);
    let iy = spec_dataflow_inputs(ky);
    assert(inputs_of(nodes, x) == ix);
    assert(inputs_of(nodes, y) == iy);
    assert forall|j: int| 0 <= j < ix.len() implies number_of(m, #[trigger] ix[j]) == number_of(m, iy[j]) by {
        let a = ix[j];
        let b = iy[j];
        assert(m[inputs_of(nodes, x)[j]] == m[inputs_of(nodes, y)[j]]);
        assert(inputs_of(nodes, x).contains(a));
        assert(inputs_of(nodes, y).contains(b));
        let ka = choose|k: int| 0 <= k < nodes.len() && nodes[k].id == a;
        let kb = choose|k: int| 0 <= k < nodes.len() && nodes[k].id == b;
        law_value_number_equation(nodes, a);
        law_value_number_equation(nodes, b);
    }
    assert(node_words(kx, m) =~= node_words(ky, m)) by {
        assert(ix.map_values(|z: NodeId| number_of(m, z)) =~= iy.map_values(|z: NodeId| number_of(m, z)));
    }
}


/// Distinct operations get distinct tags: two kinds with the same tag are
/// the same operation.
pub proof fn law_tags_tell_operations_apart(a: NodeKind, b: NodeKind)
    ensures
        spec_kind_variant_tag(a) == spec_kind_variant_tag(b) <==> same_operation(a, b),
{
}

/// Two nodes whose hashed words are equal are the same operation: their
/// first word is the operation's tag.
pub proof fn law_equal_words_same_operation(a: NodeKind, b: NodeKind, ma: Map<NodeId, u64>, mb: Map<NodeId, u64>)
    requires
        node_words(a, ma) == node_words(b, mb),
    ensures
        same_operation(a, b),
{
    assert(node_words(a, ma)[0] == spec_kind_variant_tag(a) as u64);
    assert(node_words(b, mb)[0] == spec_kind_variant_tag(b) as u64);
    law_tags_tell_operations_apart(a, b);
}


/// The words of a constant determine it.
proof fn lemma_constant_words_injective(d1: ConstantData, d2: ConstantData)
    requires
        constant_words(d1) == constant_words(d2),
    ensures
        d1 == d2,
{
    assert(constant_words(d1)[0] == constant_words(d2)[0]);
    match (d1, d2) {
        (ConstantData::Integer { bits: b1, .. }, ConstantData::Integer { bits: b2, .. }) => {
            assert(constant_words(d1)[1] == constant_words(d2)[1]);
            assert(constant_words(d1)[2] == constant_words(d2)[2]);
            assert(constant_words(d1)[3] == constant_words(d2)[3]);
            assert(constant_words(d1)[4] == constant_words(d2)[4]);
            let k: int = 0x1_0000_0000_0000_0000;
            vstd::arithmetic::div_mod::lemma_fundamental_div_mod(b1 as int, k);
            vstd::arithmetic::div_mod::lemma_fundamental_div_mod(b2 as int, k);
        },
        (ConstantData::Bool(_), ConstantData::Bool(_)) => {
            assert(constant_words(d1)[1] == constant_words(d2)[1]);
        },
        _ => {},
    }
}

/// Two constants or two parameters whose hashed words are equal are the
/// same constant or the same parameter: the words hold a constant's value
/// and a parameter's index.
pub proof fn law_equal_words_same_leaf(a: NodeKind, b: NodeKind, ma: Map<NodeId, u64>, mb: Map<NodeId, u64>)
    requires
        node_words(a, ma) == node_words(b, mb),
        a is Constant || a is Parameter,
    ensures
        a == b,
{
    law_equal_words_same_operation(a, b, ma, mb);
    assert(spec_dataflow_inputs(a).len() == 0 && spec_dataflow_inputs(b).len() == 0) by {
        reveal(spec_dataflow_inputs);
    }
    let wa = node_words(a, ma);
    let wb = node_words(b, mb);
    assert(wa.subrange(1, wa.len() as int) =~= immediate_words(a));
    assert(wb.subrange(1, wb.len() as int) =~= immediate_words(b));
    match (a, b) {
        (NodeKind::Constant(d1), NodeKind::Constant(d2)) => {
            lemma_constant_words_injective(d1, d2);
        },
        (NodeKind::Parameter { index: i1 }, NodeKind::Parameter { index: i2 }) => {
            assert(immediate_words(a)[0] == immediate_words(b)[0]);
        },
        _ => {},
    }
}

} // verus!
