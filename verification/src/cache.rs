//! Analysis result cache.
//!
//! Tracks which analyses have been computed for which function, by a
//! fingerprint of the function.
use vstd::prelude::*;
use std::any::TypeId;
use crate::dependency::type_id_eq;
use crate::ir::{Effects, Function, Node, Param, IrType, ty_text, push_ty_text};
use crate::value_numbering::{fnv_offset, fnv_words, mix_all, spec_kind_variant_tag, kind_variant_tag};
use crate::text::chars_of;

verus! {

/// State of a cached analysis result.
#[derive(Clone, Copy, Debug, PartialEq, Eq)]
pub struct CacheEntry {
    /// Hash of the function this was computed for.
    pub function_hash: u64,
    /// Whether the result is currently valid.
    pub valid: bool,
}

/// Cache for analysis results: at most one entry per analysis.
#[derive(Clone, Debug)]
pub struct AnalysisCache {
    entries: Vec<(TypeId, CacheEntry)>,
}

/// The map described by an association list (later entries win).
pub open spec fn entry_map(s: Seq<(TypeId, CacheEntry)>) -> Map<TypeId, CacheEntry>
    decreases s.len(),
{
    if s.len() == 0 {
        Map::empty()
    } else {
        entry_map(s.drop_last()).insert(s.last().0, s.last().1)
    }
}

/// Whether the keys of an association list are pairwise distinct.
pub open spec fn distinct_keys(s: Seq<(TypeId, CacheEntry)>) -> bool {
    forall|i: int, j: int| 0 <= i < j < s.len() ==> s[i].0 != s[j].0
}

/// The analyses whose cached result is currently valid.
pub open spec fn valid_ids(m: Map<TypeId, CacheEntry>) -> Set<TypeId> {
    m.dom().filter(|k: TypeId| m[k].valid)
}

proof fn lemma_entry_map_dom(s: Seq<(TypeId, CacheEntry)>, k: TypeId)
    ensures
        entry_map(s).dom().contains(k) <==> exists|i: int| 0 <= i < s.len() && s[i].0 == k,
        entry_map(s).dom().finite(),
    decreases s.len(),
{
    if s.len() > 0 {
        lemma_entry_map_dom(s.drop_last(), k);
        if exists|i: int| 0 <= i < s.len() && s[i].0 == k {
            let i = choose|i: int| 0 <= i < s.len() && s[i].0 == k;
            if i < s.len() - 1 {
                assert(s.drop_last()[i].0 == k);
            }
        }
        if exists|i: int| 0 <= i < s.drop_last().len() && s.drop_last()[i].0 == k {
            let i = choose|i: int| 0 <= i < s.drop_last().len() && s.drop_last()[i].0 == k;
            assert(s[i].0 == k);
        }
    }
}

proof fn lemma_entry_map_at(s: Seq<(TypeId, CacheEntry)>, i: int)
    requires
        distinct_keys(s),
        0 <= i < s.len(),
    ensures
        entry_map(s).dom().contains(s[i].0),
        entry_map(s)[s[i].0] == s[i].1,
    decreases s.len(),
{
    if i < s.len() - 1 {
        lemma_entry_map_at(s.drop_last(), i);
    }
}

proof fn lemma_entry_map_update(s: Seq<(TypeId, CacheEntry)>, i: int, e: CacheEntry)
    requires
        distinct_keys(s),
        0 <= i < s.len(),
    ensures
        entry_map(s.update(i, (s[i].0, e))) == entry_map(s).insert(s[i].0, e),
    decreases s.len(),
{
    let t = s.update(i, (s[i].0, e));
    if i == s.len() - 1 {
        assert(t.drop_last() =~= s.drop_last());
        lemma_entry_map_dom(s.drop_last(), s[i].0);
        assert(entry_map(t) =~= entry_map(s).insert(s[i].0, e));
    } else {
        lemma_entry_map_update(s.drop_last(), i, e);
        assert(t.drop_last() =~= s.drop_last().update(i, (s[i].0, e)));
        assert(entry_map(t) =~= entry_map(s).insert(s[i].0, e));
    }
}

/// Number of valid entries in the first `n` entries of a list.
pub open spec fn count_valid(s: Seq<(TypeId, CacheEntry)>, n: nat) -> nat
    decreases n,
{
    if n == 0 {
        0
    } else if s[n - 1].1.valid {
        count_valid(s, (n - 1) as nat) + 1
    } else {
        count_valid(s, (n - 1) as nat)
    }
}

proof fn lemma_count_valid(s: Seq<(TypeId, CacheEntry)>)
    requires
        distinct_keys(s),
    ensures
        count_valid(s, s.len()) == valid_ids(entry_map(s)).len(),
        valid_ids(entry_map(s)).finite(),
    decreases s.len(),
{
    if s.len() == 0 {
        assert(valid_ids(entry_map(s)) =~= Set::empty());
    } else {
        let p = s.drop_last();
        lemma_count_valid(p);
        assert forall|n: nat| n <= p.len() implies count_valid(p, n) == count_valid(s, n) by {
            lemma_count_prefix(p, s, n);
        }
        let k = s.last().0;
        lemma_entry_map_dom(p, k);
        assert(!entry_map(p).dom().contains(k)) by {
            if entry_map(p).dom().contains(k) {
                let i = choose|i: int| 0 <= i < p.len() && p[i].0 == k;
                assert(s[i].0 == s[s.len() - 1].0);
            }
        }
        if s.last().1.valid {
            assert(valid_ids(entry_map(s)) =~= valid_ids(entry_map(p)).insert(k));
        } else {
            assert(valid_ids(entry_map(s)) =~= valid_ids(entry_map(p)));
        }
    }
}

proof fn lemma_count_prefix(p: Seq<(TypeId, CacheEntry)>, s: Seq<(TypeId, CacheEntry)>, n: nat)
    requires
        p.len() <= s.len(),
        n <= p.len(),
        forall|i: int| 0 <= i < p.len() ==> p[i] == s[i],
    ensures
        count_valid(p, n) == count_valid(s, n),
    decreases n,
{
    if n > 0 {
        lemma_count_prefix(p, s, (n - 1) as nat);
    }
}

impl View for AnalysisCache {
    type V = Map<TypeId, CacheEntry>;

    closed spec fn view(&self) -> Map<TypeId, CacheEntry> {
        entry_map(self.entries@)
    }
}

impl AnalysisCache {
    /// Well-formedness: at most one entry per analysis.
    pub closed spec fn wf(&self) -> bool {
        distinct_keys(self.entries@)
    }

    /// A well-formed cache holds finitely many entries.
    pub proof fn lemma_finite(&self)
        requires
            self.wf(),
        ensures
            self@.dom().finite(),
    {
        lemma_entry_map_dom(self.entries@, arbitrary());
    }

    /// An empty cache.
    pub fn new() -> (c: Self)
        ensures
            c.wf(),
            c@ == Map::<TypeId, CacheEntry>::empty(),
    {
        AnalysisCache { entries: Vec::new() }
    }

    /// Invalidates the cached result of one analysis (if it has an entry);
    /// everything else is unchanged.
    pub fn invalidate(&mut self, analysis_id: TypeId)
        requires
            old(self).wf(),
        ensures
            final(self).wf(),
            final(self)@ == (if old(self)@.dom().contains(analysis_id) {
                old(self)@.insert(
                    analysis_id,
                    CacheEntry { function_hash: old(self)@[analysis_id].function_hash, valid: false },
                )
            } else {
                old(self)@
            }),
    {
        let mut i: usize = 0;
        while i < self.entries.len()
            invariant
                self.entries@ == old(self).entries@,
                distinct_keys(self.entries@),
                i <= self.entries@.len(),
                forall|j: int| 0 <= j < i ==> self.entries@[j].0 != analysis_id,
            decreases self.entries@.len() - i,
        {
            if type_id_eq(&self.entries[i].0, &analysis_id) {
                let e = CacheEntry { function_hash: self.entries[i].1.function_hash, valid: false };
                proof {
                    lemma_entry_map_at(self.entries@, i as int);
                    lemma_entry_map_update(self.entries@, i as int, e);
                }
                let ghost before = self.entries@;
                self.entries.set(i, (analysis_id, e));
                assert(self.entries@ == before.update(i as int, (before[i as int].0, e)));
                assert(distinct_keys(self.entries@)) by {
                    assert forall|a: int, b: int| 0 <= a < b < self.entries@.len() implies self.entries@[a].0
                        != self.entries@[b].0 by {
                        assert(before[a].0 != before[b].0);
                    }
                }
                return;
            }
            i += 1;
        }
        proof {
            lemma_entry_map_dom(self.entries@, analysis_id);
        }
    }

    /// Drops every cached entry.
    pub fn invalidate_all(&mut self)
        ensures
            final(self).wf(),
            final(self)@ == Map::<TypeId, CacheEntry>::empty(),
    {
        self.entries.clear();
    }

    /// Number of analyses whose cached result is valid.
    pub fn len(&self) -> (n: usize)
        requires
            self.wf(),
        ensures
            n as nat == valid_ids(self@).len(),
    {
        let mut n: usize = 0;
        let mut i: usize = 0;
        while i < self.entries.len()
            invariant
                i <= self.entries@.len(),
                n as nat == count_valid(self.entries@, i as nat),
                n <= i,
            decreases self.entries@.len() - i,
        {
            if self.entries[i].1.valid {
                n += 1;
            }
            i += 1;
        }
        proof {
            lemma_count_valid(self.entries@);
        }
        n
    }

    /// Whether no cached result is valid.
    pub fn is_empty(&self) -> (b: bool)
        requires
            self.wf(),
        ensures
            b == (valid_ids(self@).len() == 0),
    {
        self.len() == 0
    }
}

// ── Function fingerprints ───────────────────────────────────────────────

/// The bits of a node's effects.
pub open spec fn effects_bits(e: Effects) -> u64 {
    ((if e.read_memory { 1int } else { 0int }) + (if e.write_memory { 2int } else { 0int }) + (if e.allocate {
        4int
    } else {
        0int
    }) + (if e.io { 8int } else { 0int }) + (if e.atomic { 16int } else { 0int }) + (if e.other {
        32int
    } else {
        0int
    })) as u64
}

/// The words a node contributes: its identifier, its kind's tag, its
/// type's name, its effects.
pub open spec fn node_fingerprint(n: Node) -> Seq<u64> {
    seq![n.id.id, spec_kind_variant_tag(n.kind) as u64] + name_words(ty_text(n.ty)) + seq![effects_bits(n.effects)]
}

pub open spec fn arena_words(nodes: Seq<Node>) -> Seq<u64>
    decreases nodes.len(),
{
    if nodes.len() == 0 {
        Seq::empty()
    } else {
        arena_words(nodes.drop_last()) + node_fingerprint(nodes.last())
    }
}

/// The words of a name: its characters.
pub open spec fn name_words(name: Seq<char>) -> Seq<u64> {
    name.map_values(|c: char| c as u64)
}

/// The words of the parameters: each one's name and type name.
pub open spec fn param_words(ps: Seq<Param>) -> Seq<u64>
    decreases ps.len(),
{
    if ps.len() == 0 {
        Seq::empty()
    } else {
        param_words(ps.drop_last()) + name_words(ps.last().name@) + name_words(ty_text(ps.last().ty))
    }
}

/// The words hashed for a function: its name's characters, its parameter
/// count, their names and types, its return type, its node count, and every
/// node's content.
pub open spec fn function_words(func: Function) -> Seq<u64> {
    name_words(func.name@) + seq![func.params@.len() as u64] + param_words(func.params@) + name_words(
        ty_text(func.return_ty),
    ) + seq![
        func.arena@.len() as u64,
    ] + arena_words(func.arena@)
}

/// The fingerprint of a function: FNV-1a over its words.
pub closed spec fn spec_hash_function(func: Function) -> u64 {
    fnv_words(fnv_offset(), function_words(func))
}

fn effects_bits_exec(e: &Effects) -> (b: u64)
    ensures
        b == effects_bits(*e),
{
    (if e.read_memory { 1u64 } else { 0u64 }) + (if e.write_memory { 2u64 } else { 0u64 }) + (if e.allocate {
        4u64
    } else {
        0u64
    }) + (if e.io { 8u64 } else { 0u64 }) + (if e.atomic { 16u64 } else { 0u64 }) + (if e.other {
        32u64
    } else {
        0u64
    })
}

/// Appends the words of a name.
pub(crate) fn push_name_words(words: &mut Vec<u64>, name: &str)
    ensures
        final(words)@ == old(words)@ + name_words(name@),
{
    let v = chars_of(name);
    let mut i: usize = 0;
    while i < v.len()
        invariant
            i <= v@.len(),
            v@ == name@,
            words@ == old(words)@ + name_words(v@.subrange(0, i as int)),
        decreases v@.len() - i,
    {
        words.push(v[i] as u64);
        i += 1;
        assert(words@ =~= old(words)@ + name_words(v@.subrange(0, i as int)));
    }
    assert(v@.subrange(0, v@.len() as int) =~= v@);
}

/// Appends the words of a type's name.
fn push_type_words(words: &mut Vec<u64>, t: &IrType)
    ensures
        final(words)@ == old(words)@ + name_words(ty_text(*t)),
{
    let mut name = String::new();
    push_ty_text(&mut name, t);
    push_name_words(words, name.as_str());
}

/// The fingerprint of a function, over its name, its parameters, its
/// return type and every node's content, so that editing a node in place
/// changes it.
fn hash_function(func: &Function) -> (h: u64)
    ensures
        h == spec_hash_function(*func),
{
    let mut words: Vec<u64> = Vec::new();
    push_name_words(&mut words, func.name.as_str());
    words.push(func.params.len() as u64);
    let ghost head = words@;
    let mut i: usize = 0;
    assert(func.params@.subrange(0, 0) =~= Seq::<Param>::empty());
    while i < func.params.len()
        invariant
            i <= func.params@.len(),
            words@ == head + param_words(func.params@.subrange(0, i as int)),
        decreases func.params@.len() - i,
    {
        push_name_words(&mut words, func.params[i].name.as_str());
        push_type_words(&mut words, &func.params[i].ty);
        i += 1;
        proof {
            assert(func.params@.subrange(0, i as int).drop_last() =~= func.params@.subrange(0, i - 1));
            assert(words@ =~= head + param_words(func.params@.subrange(0, i as int)));
        }
    }
    assert(func.params@.subrange(0, func.params@.len() as int) =~= func.params@);
    push_type_words(&mut words, &func.return_ty);
    words.push(func.arena.len() as u64);
    let ghost base = words@;
    let mut k: usize = 0;
    assert(func.arena@.subrange(0, 0) =~= Seq::<Node>::empty());
    while k < func.arena.len()
        invariant
            k <= func.arena@.len(),
            words@ == base + arena_words(func.arena@.subrange(0, k as int)),
        decreases func.arena@.len() - k,
    {
        let node = &func.arena[k];
        words.push(node.id.id);
        words.push(kind_variant_tag(&node.kind) as u64);
        push_type_words(&mut words, &node.ty);
        words.push(effects_bits_exec(&node.effects));
        k += 1;
        proof {
            assert(func.arena@.subrange(0, k as int).drop_last() =~= func.arena@.subrange(0, k - 1));
            assert(words@ =~= base + arena_words(func.arena@.subrange(0, k as int)));
        }
    }
    assert(func.arena@.subrange(0, func.arena@.len() as int) =~= func.arena@);
    assert(words@ =~= function_words(*func));
    mix_all(0xcbf29ce484222325u64, &words)
}

/// Whether the cache holds a valid result of `analysis_id` for a function
/// with `func`'s fingerprint.
pub open spec fn spec_is_valid(m: Map<TypeId, CacheEntry>, analysis_id: TypeId, func: Function) -> bool {
    m.dom().contains(analysis_id) && m[analysis_id].valid && m[analysis_id].function_hash == spec_hash_function(func)
}

impl AnalysisCache {
    /// Whether a cached result is valid for the given function.
    pub fn is_valid(&self, analysis_id: TypeId, func: &Function) -> (b: bool)
        requires
            self.wf(),
        ensures
            b == spec_is_valid(self@, analysis_id, *func),
    {
        proof {
            lemma_entry_map_dom(self.entries@, analysis_id);
        }
        let mut i: usize = 0;
        while i < self.entries.len()
            invariant
                i <= self.entries@.len(),
                distinct_keys(self.entries@),
                forall|j: int| 0 <= j < i ==> self.entries@[j].0 != analysis_id,
            decreases self.entries@.len() - i,
        {
            if type_id_eq(&self.entries[i].0, &analysis_id) {
                proof {
                    lemma_entry_map_at(self.entries@, i as int);
                }
                let entry = self.entries[i].1;
                return entry.valid && entry.function_hash == hash_function(func);
            }
            i += 1;
        }
        false
    }

    /// The position of the entry of `analysis_id`, if there is one.
    fn entry_position(&self, analysis_id: TypeId) -> (r: Option<usize>)
        requires
            self.wf(),
        ensures
            match r {
                Some(i) => i < self.entries@.len() && self.entries@[i as int].0 == analysis_id,
                None => !self@.dom().contains(analysis_id),
            },
    {
        proof {
            lemma_entry_map_dom(self.entries@, analysis_id);
        }
        let mut i: usize = 0;
        while i < self.entries.len()
            invariant
                i <= self.entries@.len(),
                forall|j: int| 0 <= j < i ==> self.entries@[j].0 != analysis_id,
            decreases self.entries@.len() - i,
        {
            if type_id_eq(&self.entries[i].0, &analysis_id) {
                return Some(i);
            }
            i += 1;
        }
        None
    }

    /// Marks an analysis as cached for the given function.
    pub fn set_valid(&mut self, analysis_id: TypeId, func: &Function)
        requires
            old(self).wf(),
        ensures
            final(self).wf(),
            final(self)@ == old(self)@.insert(
                analysis_id,
                CacheEntry { function_hash: spec_hash_function(*func), valid: true },
            ),
    {
        let e = CacheEntry { function_hash: hash_function(func), valid: true };
        let ghost before = self.entries@;
        match self.entry_position(analysis_id) {
            Some(i) => {
                proof {
                    lemma_entry_map_update(before, i as int, e);
                }
                self.entries.set(i, (analysis_id, e));
                proof {
                    assert(self.entries@ == before.update(i as int, (before[i as int].0, e)));
                    assert forall|a: int, b: int| 0 <= a < b < self.entries@.len() implies self.entries@[a].0
                        != self.entries@[b].0 by {
                        assert(before[a].0 != before[b].0);
                    }
                }
            },
            None => {
                self.entries.push((analysis_id, e));
                proof {
                    assert(self.entries@.drop_last() =~= before);
                    lemma_entry_map_dom(before, analysis_id);
                    assert forall|a: int, b: int| 0 <= a < b < self.entries@.len() implies self.entries@[a].0
                        != self.entries@[b].0 by {
                        if b == self.entries@.len() - 1 {
                            assert(before[a].0 != analysis_id);
                        } else {
                            assert(before[a].0 != before[b].0);
                        }
                    }
                }
            },
        }
    }
}

/// A result just marked cached for a function is valid for it, and
/// marking one analysis touches no other analysis's entry.
pub proof fn law_set_valid_then_valid(m: Map<TypeId, CacheEntry>, id: TypeId, other: TypeId, func: Function, g: Function)
    requires
        other != id,
    ensures
        spec_is_valid(
            m.insert(id, CacheEntry { function_hash: spec_hash_function(func), valid: true }),
            id,
            func,
        ),
        spec_is_valid(
            m.insert(id, CacheEntry { function_hash: spec_hash_function(func), valid: true }),
            other,
            g,
        ) == spec_is_valid(m, other, g),
{
}

/// Invalidating an analysis leaves no valid result for it, and clears no
/// other analysis's entry.
pub proof fn law_invalidate_clears_one(before: Map<TypeId, CacheEntry>, after: Map<TypeId, CacheEntry>, id: TypeId, other: TypeId)
    requires
        after == (if before.dom().contains(id) {
            before.insert(id, CacheEntry { function_hash: before[id].function_hash, valid: false })
        } else {
            before
        }),
        other != id,
    ensures
        !valid_ids(after).contains(id),
        after.dom().contains(other) == before.dom().contains(other),
        after.dom().contains(other) ==> after[other] == before[other],
{
}


/// After `set_valid`, the analysis's entry is valid, so the cache is not
/// empty: its count of valid entries is positive.
pub proof fn law_set_valid_not_empty(m: Map<TypeId, CacheEntry>, id: TypeId, func: Function)
    requires
        m.dom().finite(),
    ensures
        valid_ids(m.insert(id, CacheEntry { function_hash: spec_hash_function(func), valid: true })).contains(id),
        valid_ids(m.insert(id, CacheEntry { function_hash: spec_hash_function(func), valid: true })).len() > 0,
{
    let after = m.insert(id, CacheEntry { function_hash: spec_hash_function(func), valid: true });
    assert(after.dom().finite());
    assert(valid_ids(after).contains(id));
    vstd::set_lib::lemma_len_subset(set![id], valid_ids(after));
    assert(set![id].len() == 1);
}

/// Invalidating an analysis removes exactly it from the analyses with a
/// valid result: the cache then counts one valid result fewer if it held
/// one for it, as many otherwise.
pub proof fn law_invalidate_count(before: Map<TypeId, CacheEntry>, after: Map<TypeId, CacheEntry>, id: TypeId)
    requires
        before.dom().finite(),
        after == (if before.dom().contains(id) {
            before.insert(id, CacheEntry { function_hash: before[id].function_hash, valid: false })
        } else {
            before
        }),
    ensures
        valid_ids(after) == valid_ids(before).remove(id),
        valid_ids(after).len() == (if valid_ids(before).contains(id) {
            valid_ids(before).len() - 1
        } else {
            valid_ids(before).len() as int
        }),
{
    assert(valid_ids(after) =~= valid_ids(before).remove(id));
    assert(valid_ids(before).finite()) by {
        assert(valid_ids(before).subset_of(before.dom()));
        vstd::set_lib::lemma_len_subset(valid_ids(before), before.dom());
    }
    if !valid_ids(before).contains(id) {
        assert(valid_ids(before).remove(id) =~= valid_ids(before));
    }
}

} // verus!
