//! The analysis manager: runs every analysis on a function, caching
//! results per analysis by the function's fingerprint and keeping
//! statistics; with the fact database it fills and the analysis type
//! markers.
use vstd::prelude::*;
use std::any::TypeId;
use std::time::Instant;
use crate::analysis::{Analysis, AnalysisResult, clock_now, elapsed_since, whole_millis};
use crate::cache::{AnalysisCache, CacheEntry, spec_is_valid, spec_hash_function, valid_ids};
use crate::facts::{UseDefFact, DominanceFact, ConstantFact, PurityFact, RangeFact, AliasFact, EscapeFact, LoopFact,
    ValueNumberFact};
use crate::factmap::FactMap;
use crate::ir::{Function, NodeId, distinct_ids};
use crate::graph::{spec_topological_sort, reaches, spec_dataflow_inputs};
use crate::escape::{closed_arena, initial_escapes, severity};
use crate::use_def::{fact_holds, run_use_def};
use crate::dominance::{dominance_fact_holds, dom_matrix, is_greatest_dom_solution, run_dominance};
use crate::constants::{constants_solution, is_greatest_constants, run_constants};
use crate::purity::{purity_over, run_purity};
use crate::ranges::{ranges_over, run_ranges};
use crate::alias::{alias_views, alias_over, run_alias};
use crate::escape::run_escape;
use crate::loops::{loop_fact_holds, run_loops};
use crate::value_numbering::{number_fact_holds, run_value_numbering};

verus! {

/// Statistics collected across all analysis runs.
#[derive(Clone, Copy, Debug)]
pub struct AnalysisStats {
    /// Total number of analysis runs (including cache hits).
    pub total_runs: usize,
    /// Number of cache hits.
    pub cache_hits: usize,
    /// Number of cache misses (actual computation).
    pub cache_misses: usize,
    /// Total wall-clock time spent in analysis.
    pub total_runtime_ms: u64,
    /// Total nodes processed.
    pub total_nodes_processed: usize,
}

impl Default for AnalysisStats {
    fn default() -> (s: Self)
        ensures
            s.total_runs == 0,
            s.cache_hits == 0,
            s.cache_misses == 0,
            s.total_runtime_ms == 0,
            s.total_nodes_processed == 0,
    {
        AnalysisStats {
            total_runs: 0,
            cache_hits: 0,
            cache_misses: 0,
            total_runtime_ms: 0,
            total_nodes_processed: 0,
        }
    }
}

/// Use-Definition analysis.
pub struct UseDefAnalysis;

/// Dominance analysis.
pub struct DominanceAnalysis;

/// Constant propagation analysis.
pub struct ConstantAnalysis;

/// Purity analysis.
pub struct PurityAnalysis;

/// Range analysis.
pub struct RangeAnalysis;

/// Alias analysis.
pub struct AliasAnalysis;

/// Escape analysis.
pub struct EscapeAnalysis;

/// Loop analysis.
pub struct LoopAnalysis;

/// Value numbering analysis.
pub struct ValueNumberingAnalysis;

// ── The fact database ───────────────────────────────────────────────────

/// The facts of every analysis, each keyed by node.
pub struct FactDatabase {
    /// Use-definition facts.
    pub use_def: FactMap<UseDefFact>,
    /// Dominance facts.
    pub dominance: FactMap<DominanceFact>,
    /// Constant propagation facts.
    pub constants: FactMap<ConstantFact>,
    /// Purity facts.
    pub purity: FactMap<PurityFact>,
    /// Range facts.
    pub ranges: FactMap<RangeFact>,
    /// Alias facts.
    pub aliases: FactMap<AliasFact>,
    /// Escape facts.
    pub escapes: FactMap<EscapeFact>,
    /// Loop facts.
    pub loops: FactMap<LoopFact>,
    /// Value numbering facts.
    pub value_numbers: FactMap<ValueNumberFact>,
}

impl FactDatabase {
    /// Every table is well formed.
    pub open spec fn wf(&self) -> bool {
        &&& self.use_def.wf()
        &&& self.dominance.wf()
        &&& self.constants.wf()
        &&& self.purity.wf()
        &&& self.ranges.wf()
        &&& self.aliases.wf()
        &&& self.escapes.wf()
        &&& self.loops.wf()
        &&& self.value_numbers.wf()
    }

    /// The number of facts of every table, in declaration order.
    pub open spec fn sizes(&self) -> Seq<nat> {
        seq![
            self.use_def@.dom().len(),
            self.dominance@.dom().len(),
            self.constants@.dom().len(),
            self.purity@.dom().len(),
            self.ranges@.dom().len(),
            self.aliases@.dom().len(),
            self.escapes@.dom().len(),
            self.loops@.dom().len(),
            self.value_numbers@.dom().len(),
        ]
    }

    /// The total number of facts.
    pub open spec fn spec_total(&self) -> nat {
        let s = self.sizes();
        s[0] + s[1] + s[2] + s[3] + s[4] + s[5] + s[6] + s[7] + s[8]
    }

    /// An empty database.
    pub fn new() -> (db: Self)
        ensures
            db.wf(),
            db.spec_total() == 0,
            db.use_def@ == Map::<NodeId, UseDefFact>::empty(),
            db.dominance@ == Map::<NodeId, DominanceFact>::empty(),
            db.constants@ == Map::<NodeId, ConstantFact>::empty(),
            db.purity@ == Map::<NodeId, PurityFact>::empty(),
            db.ranges@ == Map::<NodeId, RangeFact>::empty(),
            db.aliases@ == Map::<NodeId, AliasFact>::empty(),
            db.escapes@ == Map::<NodeId, EscapeFact>::empty(),
            db.loops@ == Map::<NodeId, LoopFact>::empty(),
            db.value_numbers@ == Map::<NodeId, ValueNumberFact>::empty(),
    {
        FactDatabase {
            use_def: FactMap::new(),
            dominance: FactMap::new(),
            constants: FactMap::new(),
            purity: FactMap::new(),
            ranges: FactMap::new(),
            aliases: FactMap::new(),
            escapes: FactMap::new(),
            loops: FactMap::new(),
            value_numbers: FactMap::new(),
        }
    }

    /// Whether no facts are stored.
    pub fn is_empty(&self) -> (b: bool)
        requires
            self.wf(),
        ensures
            b == (self.spec_total() == 0),
    {
        self.use_def.is_empty() && self.dominance.is_empty() && self.constants.is_empty() && self.purity.is_empty()
            && self.ranges.is_empty() && self.aliases.is_empty() && self.escapes.is_empty() && self.loops.is_empty()
            && self.value_numbers.is_empty()
    }

    /// The total number of facts across all analyses.
    pub fn total_facts(&self) -> (n: usize)
        requires
            self.wf(),
            self.spec_total() <= usize::MAX,
        ensures
            n == self.spec_total(),
    {
        self.use_def.len() + self.dominance.len() + self.constants.len() + self.purity.len() + self.ranges.len()
            + self.aliases.len() + self.escapes.len() + self.loops.len() + self.value_numbers.len()
    }
}

// ── What each analysis computes ─────────────────────────────────────────

pub open spec fn covers_arena<T>(func: Function, f: FactMap<T>) -> bool {
    forall|x: NodeId| f@.dom().contains(x) <==> exists|i: int| 0 <= i < func.arena@.len() && func.arena@[i].id == x
}

/// `f` is the use-definition analysis of `func`.
pub open spec fn use_def_of(func: Function, f: FactMap<UseDefFact>) -> bool {
    &&& f.wf()
    &&& covers_arena(func, f)
    &&& forall|i: int|
        0 <= i < func.arena@.len() ==> fact_holds(
            func,
            func.arena@[i].id,
            spec_dataflow_inputs(func.arena@[i].kind),
            #[trigger] f@[func.arena@[i].id],
        )
}

/// `f` is the dominance analysis of `func`.
pub open spec fn dominance_of(func: Function, f: FactMap<DominanceFact>) -> bool {
    &&& f.wf()
    &&& is_greatest_dom_solution(func.arena@, dom_matrix(func.arena@))
    &&& covers_arena(func, f)
    &&& forall|i: int|
        0 <= i < func.arena@.len() ==> dominance_fact_holds(func.arena@, i, #[trigger] f@[func.arena@[i].id])
}

/// `f` is the constant propagation of `func`.
pub open spec fn constants_of_function(func: Function, f: FactMap<ConstantFact>) -> bool {
    &&& f.wf()
    &&& is_greatest_constants(func.arena@, constants_solution(func.arena@))
    &&& covers_arena(func, f)
    &&& forall|i: int|
        0 <= i < func.arena@.len() ==> (#[trigger] f@[func.arena@[i].id]).value == constants_solution(func.arena@)[i]
}

/// `f` is the escape analysis of `func`.
pub open spec fn escapes_of(func: Function, f: FactMap<EscapeFact>) -> bool {
    &&& f.wf()
    &&& f@.dom() == initial_escapes(func.arena@).dom()
    &&& forall|x: NodeId|
        #![trigger f@[x]]
        f@.dom().contains(x) ==> exists|y: NodeId|
            initial_escapes(func.arena@).dom().contains(y) && reaches(func.arena@, y, x) && f@[x].kind
                == initial_escapes(func.arena@)[y]
    &&& forall|x: NodeId, y: NodeId|
        #![trigger f@[x], initial_escapes(func.arena@)[y]]
        f@.dom().contains(x) && initial_escapes(func.arena@).dom().contains(y) && reaches(func.arena@, y, x)
            ==> severity(f@[x].kind) >= severity(initial_escapes(func.arena@)[y])
}

/// `f` is the loop analysis of `func`.
pub open spec fn loops_of(func: Function, f: FactMap<LoopFact>) -> bool {
    &&& f.wf()
    &&& forall|x: NodeId|
        f@.dom().contains(x) <==> exists|i: int|
            0 <= i < func.arena@.len() && func.arena@[i].id == x && func.arena@[i].kind is Loop
    &&& forall|i: int|
        0 <= i < func.arena@.len() && (#[trigger] func.arena@[i]).kind is Loop ==> loop_fact_holds(
            func.arena@,
            func.arena@[i].kind,
            f@[func.arena@[i].id],
        )
}

/// `f` is the value numbering of `func`.
pub open spec fn numbers_of(func: Function, f: FactMap<ValueNumberFact>) -> bool {
    &&& f.wf()
    &&& covers_arena(func, f)
    &&& forall|x: NodeId| #[trigger] f@.dom().contains(x) ==> number_fact_holds(func.arena@, x, f@[x])
}

// ── The manager ─────────────────────────────────────────────────────────

/// Runs the analyses on demand, caching results per analysis and
/// function fingerprint.
pub struct AnalysisManager {
    db: FactDatabase,
    cache: AnalysisCache,
    stats: AnalysisStats,
    /// The `TypeId` of each analysis, in the order `run_all` runs them.
    ids: Vec<TypeId>,
}

/// The `TypeId`s of the nine analyses, in the order `run_all` runs them:
/// use-definition, dominance, constants, purity, ranges, alias, escape,
/// loops, value numbering.
///
/// Calls `TypeId::of` on each analysis type. std documents a `TypeId` as a
/// globally unique identifier of a type, so the identifiers of these nine
/// distinct types are pairwise distinct; nothing else is stated of them.
#[verifier::external_body]
fn analysis_type_ids() -> (ids: Vec<TypeId>)
    ensures
        ids@.len() == 9,
        forall|a: int, b: int| 0 <= a < b < 9 ==> ids@[a] != ids@[b],
{
    vec![
        TypeId::of::<UseDefAnalysis>(),
        TypeId::of::<DominanceAnalysis>(),
        TypeId::of::<ConstantAnalysis>(),
        TypeId::of::<PurityAnalysis>(),
        TypeId::of::<RangeAnalysis>(),
        TypeId::of::<AliasAnalysis>(),
        TypeId::of::<EscapeAnalysis>(),
        TypeId::of::<LoopAnalysis>(),
        TypeId::of::<ValueNumberingAnalysis>(),
    ]
}

impl AnalysisManager {
    /// The fact database.
    pub closed spec fn spec_db(&self) -> FactDatabase {
        self.db
    }

    /// The statistics.
    pub closed spec fn spec_stats(&self) -> AnalysisStats {
        self.stats
    }

    /// Well-formedness: the database and the cache are well formed, and the
    /// nine analyses have pairwise distinct identifiers.
    pub closed spec fn wf(&self) -> bool {
        &&& self.db.wf()
        &&& self.cache.wf()
        &&& self.ids@.len() == 9
        &&& forall|a: int, b: int| 0 <= a < b < 9 ==> self.ids@[a] != self.ids@[b]
    }

    /// Whether the cache holds a valid result of analysis `k` (in the order
    /// `run_all` runs them) for a function of `func`'s fingerprint.
    pub closed spec fn cached(&self, k: int, func: Function) -> bool {
        spec_is_valid(self.cache@, self.ids@[k], func)
    }

    /// How many of the nine analyses the cache holds for `func`.
    pub closed spec fn cached_count(&self, func: Function) -> nat {
        (if self.cached(0, func) { 1nat } else { 0nat }) + (if self.cached(1, func) { 1nat } else { 0nat }) + (
        if self.cached(2, func) {
            1nat
        } else {
            0nat
        }) + (if self.cached(3, func) { 1nat } else { 0nat }) + (if self.cached(4, func) { 1nat } else { 0nat }) + (
        if self.cached(5, func) {
            1nat
        } else {
            0nat
        }) + (if self.cached(6, func) { 1nat } else { 0nat }) + (if self.cached(7, func) { 1nat } else { 0nat }) + (
        if self.cached(8, func) {
            1nat
        } else {
            0nat
        })
    }

    /// A manager with an empty database, an empty cache and zero
    /// statistics.
    pub fn new() -> (m: Self)
        ensures
            m.wf(),
            m.spec_db().spec_total() == 0,
            m.spec_stats().total_runs == 0,
            m.spec_stats().cache_hits == 0,
            m.spec_stats().cache_misses == 0,
            m.spec_stats().total_runtime_ms == 0,
            m.spec_stats().total_nodes_processed == 0,
            forall|k: int, f: Function| !m.cached(k, f),
    {
        AnalysisManager {
            db: FactDatabase::new(),
            cache: AnalysisCache::new(),
            stats: AnalysisStats::default(),
            ids: analysis_type_ids(),
        }
    }

    /// The fact database (read-only).
    pub fn database(&self) -> (db: &FactDatabase)
        requires
            self.wf(),
        ensures
            *db == self.spec_db(),
            db.wf(),
    {
        &self.db
    }

    /// The statistics.
    pub fn stats(&self) -> (s: &AnalysisStats)
        ensures
            *s == self.spec_stats(),
    {
        &self.stats
    }

    /// Drops every cached result and empties the database; future runs
    /// recompute.
    pub fn invalidate_all(&mut self)
        requires
            old(self).wf(),
        ensures
            final(self).wf(),
            final(self).spec_db().spec_total() == 0,
            final(self).spec_stats() == old(self).spec_stats(),
            forall|k: int, f: Function| !final(self).cached(k, f),
    {
        self.cache.invalidate_all();
        self.db = FactDatabase::new();
    }

    /// Counts one analysis answered from the cache.
    fn count_hit(&mut self)
        requires
            old(self).stats.cache_hits < usize::MAX,
            old(self).stats.total_runs < usize::MAX,
        ensures
            final(self).stats.cache_hits == old(self).stats.cache_hits + 1,
            final(self).stats.cache_misses == old(self).stats.cache_misses,
            final(self).stats.total_runs == old(self).stats.total_runs + 1,
            final(self).stats.total_runtime_ms == old(self).stats.total_runtime_ms,
            final(self).stats.total_nodes_processed == old(self).stats.total_nodes_processed,
            final(self).db == old(self).db,
            final(self).cache == old(self).cache,
            final(self).ids == old(self).ids,
    {
        self.stats.cache_hits = self.stats.cache_hits + 1;
        self.stats.total_runs = self.stats.total_runs + 1;
    }

    /// Counts one analysis computed: its time, its nodes and the run, and
    /// records it in the cache.
    fn count_run(&mut self, analysis: TypeId, func: &Function, start: &Instant)
        requires
            old(self).cache.wf(),
            old(self).stats.total_runs < usize::MAX,
            old(self).stats.total_nodes_processed + func.arena@.len() <= usize::MAX,
        ensures
            final(self).cache.wf(),
            final(self).cache@ == old(self).cache@.insert(
                analysis,
                crate::cache::CacheEntry { function_hash: crate::cache::spec_hash_function(*func), valid: true },
            ),
            final(self).db == old(self).db,
            final(self).stats.total_runs == old(self).stats.total_runs + 1,
            final(self).stats.total_nodes_processed == old(self).stats.total_nodes_processed + func.arena@.len(),
            final(self).stats.cache_hits == old(self).stats.cache_hits,
            final(self).stats.cache_misses == old(self).stats.cache_misses,
            final(self).stats.total_runtime_ms >= old(self).stats.total_runtime_ms,
            final(self).ids == old(self).ids,
    {
        let elapsed = elapsed_since(start);
        let ms = whole_millis(&elapsed) as u64;
        self.stats.total_runtime_ms = self.stats.total_runtime_ms.saturating_add(ms);
        self.stats.total_nodes_processed = self.stats.total_nodes_processed + func.arena.len();
        self.cache.set_valid(analysis, func);
        self.stats.total_runs = self.stats.total_runs + 1;
    }

    /// Runs one analysis unless the cache holds it for `func`.
    fn run_use_def_cached(&mut self, func: &Function) -> (fresh: bool)
        requires
            old(self).wf(),
            distinct_ids(func.arena@),
            room(old(self).stats, func.arena@.len(), 1),
        ensures
            final(self).wf(),
            final(self).ids == old(self).ids,
            same_except(old(self).db, final(self).db, 0),
            old(self).cached(0, *func) ==> (final(self).db.use_def == old(self).db.use_def && final(self).cache@ == old(self).cache@
                && step(old(self).stats, final(self).stats, false, func.arena@.len())),
            !old(self).cached(0, *func) ==> (use_def_of(*func, final(self).db.use_def) && final(self).cache@ == old(self).cache@.insert(
                old(self).ids@[0],
                crate::cache::CacheEntry { function_hash: crate::cache::spec_hash_function(*func), valid: true },
            ) && step(old(self).stats, final(self).stats, true, func.arena@.len())),
            fresh == !old(self).cached(0, *func),
    {
        let id = self.ids[0];
        if self.cache.is_valid(id, func) {
            self.count_hit();
            return false;
        }
        self.stats.cache_misses = self.stats.cache_misses + 1;
        let start = clock_now();
        self.db.use_def = run_use_def(func);
        self.count_run(id, func, &start);
        true
    }

    fn run_dominance_cached(&mut self, func: &Function)
        requires
            old(self).wf(),
            distinct_ids(func.arena@),
            room(old(self).stats, func.arena@.len(), 1),
        ensures
            final(self).wf(),
            final(self).ids == old(self).ids,
            same_except(old(self).db, final(self).db, 1),
            old(self).cached(1, *func) ==> (final(self).db.dominance == old(self).db.dominance && final(self).cache@ == old(self).cache@
                && step(old(self).stats, final(self).stats, false, func.arena@.len())),
            !old(self).cached(1, *func) ==> (dominance_of(*func, final(self).db.dominance) && final(self).cache@ == old(self).cache@.insert(
                old(self).ids@[1],
                crate::cache::CacheEntry { function_hash: crate::cache::spec_hash_function(*func), valid: true },
            ) && step(old(self).stats, final(self).stats, true, func.arena@.len())),
    {
        let id = self.ids[1];
        if self.cache.is_valid(id, func) {
            self.count_hit();
            assert(step(old(self).stats, self.stats, false, func.arena@.len()));
            return;
        }
        self.stats.cache_misses = self.stats.cache_misses + 1;
        let start = clock_now();
        self.db.dominance = run_dominance(func);
        self.count_run(id, func, &start);
        assert(step(old(self).stats, self.stats, true, func.arena@.len()));
    }

    fn run_constants_cached(&mut self, func: &Function, fresh_use_def: bool)
        requires
            old(self).wf(),
            distinct_ids(func.arena@),
            room(old(self).stats, func.arena@.len(), 1),
            fresh_use_def ==> use_def_of(*func, old(self).db.use_def),
        ensures
            final(self).wf(),
            final(self).ids == old(self).ids,
            same_except(old(self).db, final(self).db, 2),
            old(self).cached(2, *func) ==> (final(self).db.constants == old(self).db.constants && final(self).cache@ == old(self).cache@
                && step(old(self).stats, final(self).stats, false, func.arena@.len())),
            !old(self).cached(2, *func) ==> (constants_of_function(*func, final(self).db.constants) && final(self).cache@ == old(self).cache@.insert(
                old(self).ids@[2],
                crate::cache::CacheEntry { function_hash: crate::cache::spec_hash_function(*func), valid: true },
            ) && step(old(self).stats, final(self).stats, true, func.arena@.len())),
    {
        let id = self.ids[2];
        if self.cache.is_valid(id, func) {
            self.count_hit();
            assert(step(old(self).stats, self.stats, false, func.arena@.len()));
            return;
        }
        self.stats.cache_misses = self.stats.cache_misses + 1;
        let start = clock_now();
        let result = if fresh_use_def {
            proof {
                assert forall|i: int| 0 <= i < func.arena@.len() implies self.db.use_def@.dom().contains(
                    #[trigger] func.arena@[i].id,
                ) && self.db.use_def@[func.arena@[i].id].users@ == crate::use_def::uses_of(
                    func.arena@,
                    func.arena@[i].id,
                ) by {
                    assert(fact_holds(
                        *func,
                        func.arena@[i].id,
                        spec_dataflow_inputs(func.arena@[i].kind),
                        self.db.use_def@[func.arena@[i].id],
                    ));
                }
            }
            run_constants(func, Some(&self.db.use_def))
        } else {
            run_constants(func, None)
        };
        self.db.constants = result;
        self.count_run(id, func, &start);
        assert(step(old(self).stats, self.stats, true, func.arena@.len()));
    }

    fn run_purity_cached(&mut self, func: &Function)
        requires
            old(self).wf(),
            room(old(self).stats, func.arena@.len(), 1),
        ensures
            final(self).wf(),
            final(self).ids == old(self).ids,
            same_except(old(self).db, final(self).db, 3),
            old(self).cached(3, *func) ==> (final(self).db.purity == old(self).db.purity && final(self).cache@ == old(self).cache@
                && step(old(self).stats, final(self).stats, false, func.arena@.len())),
            !old(self).cached(3, *func) ==> ((final(self).db.purity.wf() && final(self).db.purity@
                == purity_over(func.arena@, spec_topological_sort(func.arena@))) && final(self).cache@ == old(self).cache@.insert(
                old(self).ids@[3],
                crate::cache::CacheEntry { function_hash: crate::cache::spec_hash_function(*func), valid: true },
            ) && step(old(self).stats, final(self).stats, true, func.arena@.len())),
    {
        let id = self.ids[3];
        if self.cache.is_valid(id, func) {
            self.count_hit();
            assert(step(old(self).stats, self.stats, false, func.arena@.len()));
            return;
        }
        self.stats.cache_misses = self.stats.cache_misses + 1;
        let start = clock_now();
        self.db.purity = run_purity(func);
        self.count_run(id, func, &start);
        assert(step(old(self).stats, self.stats, true, func.arena@.len()));
    }

    fn run_ranges_cached(&mut self, func: &Function)
        requires
            old(self).wf(),
            room(old(self).stats, func.arena@.len(), 1),
        ensures
            final(self).wf(),
            final(self).ids == old(self).ids,
            same_except(old(self).db, final(self).db, 4),
            old(self).cached(4, *func) ==> (final(self).db.ranges == old(self).db.ranges && final(self).cache@ == old(self).cache@
                && step(old(self).stats, final(self).stats, false, func.arena@.len())),
            !old(self).cached(4, *func) ==> ((final(self).db.ranges.wf() && final(self).db.ranges@
                == ranges_over(func.arena@, spec_topological_sort(func.arena@))) && final(self).cache@ == old(self).cache@.insert(
                old(self).ids@[4],
                crate::cache::CacheEntry { function_hash: crate::cache::spec_hash_function(*func), valid: true },
            ) && step(old(self).stats, final(self).stats, true, func.arena@.len())),
    {
        let id = self.ids[4];
        if self.cache.is_valid(id, func) {
            self.count_hit();
            assert(step(old(self).stats, self.stats, false, func.arena@.len()));
            return;
        }
        self.stats.cache_misses = self.stats.cache_misses + 1;
        let start = clock_now();
        self.db.ranges = run_ranges(func);
        self.count_run(id, func, &start);
        assert(step(old(self).stats, self.stats, true, func.arena@.len()));
    }

    fn run_alias_cached(&mut self, func: &Function)
        requires
            old(self).wf(),
            room(old(self).stats, func.arena@.len(), 1),
        ensures
            final(self).wf(),
            final(self).ids == old(self).ids,
            same_except(old(self).db, final(self).db, 5),
            old(self).cached(5, *func) ==> (final(self).db.aliases == old(self).db.aliases && final(self).cache@ == old(self).cache@
                && step(old(self).stats, final(self).stats, false, func.arena@.len())),
            !old(self).cached(5, *func) ==> ((final(self).db.aliases.wf() && alias_views(
                final(self).db.aliases@,
            ) == alias_over(func.arena@, spec_topological_sort(func.arena@))) && final(self).cache@ == old(self).cache@.insert(
                old(self).ids@[5],
                crate::cache::CacheEntry { function_hash: crate::cache::spec_hash_function(*func), valid: true },
            ) && step(old(self).stats, final(self).stats, true, func.arena@.len())),
    {
        let id = self.ids[5];
        if self.cache.is_valid(id, func) {
            self.count_hit();
            assert(step(old(self).stats, self.stats, false, func.arena@.len()));
            return;
        }
        self.stats.cache_misses = self.stats.cache_misses + 1;
        let start = clock_now();
        self.db.aliases = run_alias(func);
        self.count_run(id, func, &start);
        assert(step(old(self).stats, self.stats, true, func.arena@.len()));
    }

    fn run_escape_cached(&mut self, func: &Function)
        requires
            old(self).wf(),
            distinct_ids(func.arena@),
            closed_arena(func.arena@),
            room(old(self).stats, func.arena@.len(), 1),
        ensures
            final(self).wf(),
            final(self).ids == old(self).ids,
            same_except(old(self).db, final(self).db, 6),
            old(self).cached(6, *func) ==> (final(self).db.escapes == old(self).db.escapes && final(self).cache@ == old(self).cache@
                && step(old(self).stats, final(self).stats, false, func.arena@.len())),
            !old(self).cached(6, *func) ==> (escapes_of(*func, final(self).db.escapes) && final(self).cache@ == old(self).cache@.insert(
                old(self).ids@[6],
                crate::cache::CacheEntry { function_hash: crate::cache::spec_hash_function(*func), valid: true },
            ) && step(old(self).stats, final(self).stats, true, func.arena@.len())),
    {
        let id = self.ids[6];
        if self.cache.is_valid(id, func) {
            self.count_hit();
            assert(step(old(self).stats, self.stats, false, func.arena@.len()));
            return;
        }
        self.stats.cache_misses = self.stats.cache_misses + 1;
        let start = clock_now();
        self.db.escapes = run_escape(func);
        self.count_run(id, func, &start);
        assert(step(old(self).stats, self.stats, true, func.arena@.len()));
    }

    fn run_loops_cached(&mut self, func: &Function)
        requires
            old(self).wf(),
            distinct_ids(func.arena@),
            room(old(self).stats, func.arena@.len(), 1),
        ensures
            final(self).wf(),
            final(self).ids == old(self).ids,
            same_except(old(self).db, final(self).db, 7),
            old(self).cached(7, *func) ==> (final(self).db.loops == old(self).db.loops && final(self).cache@ == old(self).cache@
                && step(old(self).stats, final(self).stats, false, func.arena@.len())),
            !old(self).cached(7, *func) ==> (loops_of(*func, final(self).db.loops) && final(self).cache@ == old(self).cache@.insert(
                old(self).ids@[7],
                crate::cache::CacheEntry { function_hash: crate::cache::spec_hash_function(*func), valid: true },
            ) && step(old(self).stats, final(self).stats, true, func.arena@.len())),
    {
        let id = self.ids[7];
        if self.cache.is_valid(id, func) {
            self.count_hit();
            assert(step(old(self).stats, self.stats, false, func.arena@.len()));
            return;
        }
        self.stats.cache_misses = self.stats.cache_misses + 1;
        let start = clock_now();
        self.db.loops = run_loops(func);
        self.count_run(id, func, &start);
        assert(step(old(self).stats, self.stats, true, func.arena@.len()));
    }

    fn run_value_numbering_cached(&mut self, func: &Function)
        requires
            old(self).wf(),
            room(old(self).stats, func.arena@.len(), 1),
        ensures
            final(self).wf(),
            final(self).ids == old(self).ids,
            same_except(old(self).db, final(self).db, 8),
            old(self).cached(8, *func) ==> (final(self).db.value_numbers == old(self).db.value_numbers && final(self).cache@ == old(self).cache@
                && step(old(self).stats, final(self).stats, false, func.arena@.len())),
            !old(self).cached(8, *func) ==> (numbers_of(*func, final(self).db.value_numbers) && final(self).cache@ == old(self).cache@.insert(
                old(self).ids@[8],
                crate::cache::CacheEntry { function_hash: crate::cache::spec_hash_function(*func), valid: true },
            ) && step(old(self).stats, final(self).stats, true, func.arena@.len())),
    {
        let id = self.ids[8];
        if self.cache.is_valid(id, func) {
            self.count_hit();
            assert(step(old(self).stats, self.stats, false, func.arena@.len()));
            return;
        }
        self.stats.cache_misses = self.stats.cache_misses + 1;
        let start = clock_now();
        self.db.value_numbers = run_value_numbering(func);
        self.count_run(id, func, &start);
        assert(step(old(self).stats, self.stats, true, func.arena@.len()));
    }

    /// Runs every analysis on `func`, each unless the cache holds its
    /// result for a function of the same fingerprint, and fills the
    /// database; constant propagation reads the use-definition facts when
    /// they were just computed.
    #[verifier::rlimit(80)]
    pub fn run_all(&mut self, func: &Function)
        requires
            old(self).wf(),
            distinct_ids(func.arena@),
            closed_arena(func.arena@),
            room(old(self).spec_stats(), func.arena@.len(), 9),
        ensures
            final(self).wf(),
            forall|k: int| 0 <= k < 9 ==> #[trigger] final(self).cached(k, *func),
            old(self).cached(0, *func) ==> final(self).spec_db().use_def == old(self).spec_db().use_def,
            !old(self).cached(0, *func) ==> (use_def_of(*func, final(self).spec_db().use_def)),
            old(self).cached(1, *func) ==> final(self).spec_db().dominance == old(self).spec_db().dominance,
            !old(self).cached(1, *func) ==> (dominance_of(*func, final(self).spec_db().dominance)),
            old(self).cached(2, *func) ==> final(self).spec_db().constants == old(self).spec_db().constants,
            !old(self).cached(2, *func) ==> (constants_of_function(*func, final(self).spec_db().constants)),
            old(self).cached(3, *func) ==> final(self).spec_db().purity == old(self).spec_db().purity,
            !old(self).cached(3, *func) ==> (final(self).spec_db().purity@ == purity_over(func.arena@, spec_topological_sort(func.arena@))),
            old(self).cached(4, *func) ==> final(self).spec_db().ranges == old(self).spec_db().ranges,
            !old(self).cached(4, *func) ==> (final(self).spec_db().ranges@ == ranges_over(func.arena@, spec_topological_sort(func.arena@))),
            old(self).cached(5, *func) ==> final(self).spec_db().aliases == old(self).spec_db().aliases,
            !old(self).cached(5, *func) ==> (alias_views(final(self).spec_db().aliases@) == alias_over(func.arena@, spec_topological_sort(func.arena@))),
            old(self).cached(6, *func) ==> final(self).spec_db().escapes == old(self).spec_db().escapes,
            !old(self).cached(6, *func) ==> (escapes_of(*func, final(self).spec_db().escapes)),
            old(self).cached(7, *func) ==> final(self).spec_db().loops == old(self).spec_db().loops,
            !old(self).cached(7, *func) ==> (loops_of(*func, final(self).spec_db().loops)),
            old(self).cached(8, *func) ==> final(self).spec_db().value_numbers == old(self).spec_db().value_numbers,
            !old(self).cached(8, *func) ==> (numbers_of(*func, final(self).spec_db().value_numbers)),
            steps(old(self).spec_stats(), final(self).spec_stats(), func.arena@.len(), 9),
            final(self).spec_stats().cache_hits == old(self).spec_stats().cache_hits + old(self).cached_count(*func),
    {
        let ghost m0 = *self;
        let fresh = self.run_use_def_cached(func);
        let ghost m1 = *self;
        self.run_dominance_cached(func);
        let ghost m2 = *self;
        self.run_constants_cached(func, fresh);
        let ghost m3 = *self;
        self.run_purity_cached(func);
        let ghost m4 = *self;
        self.run_ranges_cached(func);
        let ghost m5 = *self;
        self.run_alias_cached(func);
        let ghost m6 = *self;
        self.run_escape_cached(func);
        let ghost m7 = *self;
        self.run_loops_cached(func);
        let ghost m8 = *self;
        self.run_value_numbering_cached(func);
        let ghost m9 = *self;
        proof {
            lemma_run_all_steps(m0, m1, m2, m3, m4, m5, m6, m7, m8, m9, *func);
        }
    }
}

/// Analysis `k` answered from the cache or computed between `a` and `b`.
spec fn cache_step(a: AnalysisManager, b: AnalysisManager, k: int, func: Function) -> bool {
    &&& a.wf()
    &&& b.wf()
    &&& b.ids == a.ids
    &&& 0 <= k < 9
    &&& a.cached(k, func) ==> b.cache@ == a.cache@
    &&& !a.cached(k, func) ==> b.cache@ == a.cache@.insert(
        a.ids@[k],
        CacheEntry { function_hash: spec_hash_function(func), valid: true },
    )
    &&& step(a.stats, b.stats, !a.cached(k, func), func.arena@.len())
}

proof fn lemma_run_all_steps(
    m0: AnalysisManager,
    m1: AnalysisManager,
    m2: AnalysisManager,
    m3: AnalysisManager,
    m4: AnalysisManager,
    m5: AnalysisManager,
    m6: AnalysisManager,
    m7: AnalysisManager,
    m8: AnalysisManager,
    m9: AnalysisManager,
    func: Function,
)
    requires
        cache_step(m0, m1, 0, func), cache_step(m1, m2, 1, func), cache_step(m2, m3, 2, func),
        cache_step(m3, m4, 3, func), cache_step(m4, m5, 4, func), cache_step(m5, m6, 5, func),
        cache_step(m6, m7, 6, func), cache_step(m7, m8, 7, func), cache_step(m8, m9, 8, func),
    ensures
        forall|k: int| 0 <= k < 9 ==> #[trigger] m9.cached(k, func),
        m1.cached(1, func) == m0.cached(1, func),
        m2.cached(2, func) == m0.cached(2, func),
        m3.cached(3, func) == m0.cached(3, func),
        m4.cached(4, func) == m0.cached(4, func),
        m5.cached(5, func) == m0.cached(5, func),
        m6.cached(6, func) == m0.cached(6, func),
        m7.cached(7, func) == m0.cached(7, func),
        m8.cached(8, func) == m0.cached(8, func),
        steps(m0.stats, m9.stats, func.arena@.len(), 9),
        m9.stats.cache_hits == m0.stats.cache_hits + m0.cached_count(func),
{
    lemma_cache_step(m0, m1, 0, func);
    lemma_cache_step(m1, m2, 1, func);
    lemma_cache_step(m2, m3, 2, func);
    lemma_cache_step(m3, m4, 3, func);
    lemma_cache_step(m4, m5, 4, func);
    lemma_cache_step(m5, m6, 5, func);
    lemma_cache_step(m6, m7, 6, func);
    lemma_cache_step(m7, m8, 7, func);
    lemma_cache_step(m8, m9, 8, func);
    lemma_run_all_cache(m0, m1, m2, m3, m4, m5, m6, m7, m8, m9, func);
    let f = seq![
        !m0.cached(0, func),
        !m1.cached(1, func),
        !m2.cached(2, func),
        !m3.cached(3, func),
        !m4.cached(4, func),
        !m5.cached(5, func),
        !m6.cached(6, func),
        !m7.cached(7, func),
        !m8.cached(8, func),
    ];
    lemma_run_all_stats(
        m0.stats,
        m1.stats,
        m2.stats,
        m3.stats,
        m4.stats,
        m5.stats,
        m6.stats,
        m7.stats,
        m8.stats,
        m9.stats,
        f,
        func.arena@.len(),
    );
}

/// One analysis answered from the cache or computed: its own entry is
/// valid for `func` afterwards, and every other analysis's entry is as it
/// was.
proof fn lemma_cache_step(a: AnalysisManager, b: AnalysisManager, k: int, func: Function)
    requires
        cache_step(a, b, k, func),
    ensures
        b.cached(k, func),
        forall|j: int| 0 <= j < 9 && j != k ==> #[trigger] b.cached(j, func) == a.cached(j, func),
{
    assert forall|j: int| 0 <= j < 9 && j != k implies #[trigger] b.cached(j, func) == a.cached(j, func) by {
        if j < k {
            assert(a.ids@[j] != a.ids@[k]);
        } else {
            assert(a.ids@[k] != a.ids@[j]);
        }
    }
}

pub open spec fn hit(b: bool) -> nat {
    if b { 1 } else { 0 }
}

proof fn lemma_run_all_cache(
    m0: AnalysisManager,
    m1: AnalysisManager,
    m2: AnalysisManager,
    m3: AnalysisManager,
    m4: AnalysisManager,
    m5: AnalysisManager,
    m6: AnalysisManager,
    m7: AnalysisManager,
    m8: AnalysisManager,
    m9: AnalysisManager,
    func: Function,
)
    requires
        m1.cached(0, func), m2.cached(1, func), m3.cached(2, func), m4.cached(3, func), m5.cached(4, func),
        m6.cached(5, func), m7.cached(6, func), m8.cached(7, func), m9.cached(8, func),
        forall|j: int| 0 <= j < 9 && j != 0 ==> #[trigger] m1.cached(j, func) == m0.cached(j, func),
        forall|j: int| 0 <= j < 9 && j != 1 ==> #[trigger] m2.cached(j, func) == m1.cached(j, func),
        forall|j: int| 0 <= j < 9 && j != 2 ==> #[trigger] m3.cached(j, func) == m2.cached(j, func),
        forall|j: int| 0 <= j < 9 && j != 3 ==> #[trigger] m4.cached(j, func) == m3.cached(j, func),
        forall|j: int| 0 <= j < 9 && j != 4 ==> #[trigger] m5.cached(j, func) == m4.cached(j, func),
        forall|j: int| 0 <= j < 9 && j != 5 ==> #[trigger] m6.cached(j, func) == m5.cached(j, func),
        forall|j: int| 0 <= j < 9 && j != 6 ==> #[trigger] m7.cached(j, func) == m6.cached(j, func),
        forall|j: int| 0 <= j < 9 && j != 7 ==> #[trigger] m8.cached(j, func) == m7.cached(j, func),
        forall|j: int| 0 <= j < 9 && j != 8 ==> #[trigger] m9.cached(j, func) == m8.cached(j, func),
    ensures
        forall|k: int| 0 <= k < 9 ==> #[trigger] m9.cached(k, func),
        m0.cached(0, func) == m0.cached(0, func),
        m1.cached(1, func) == m0.cached(1, func),
        m2.cached(2, func) == m0.cached(2, func),
        m3.cached(3, func) == m0.cached(3, func),
        m4.cached(4, func) == m0.cached(4, func),
        m5.cached(5, func) == m0.cached(5, func),
        m6.cached(6, func) == m0.cached(6, func),
        m7.cached(7, func) == m0.cached(7, func),
        m8.cached(8, func) == m0.cached(8, func),
{
    assert(m9.cached(0, func) == m8.cached(0, func));
    assert(m8.cached(0, func) == m7.cached(0, func));
    assert(m7.cached(0, func) == m6.cached(0, func));
    assert(m6.cached(0, func) == m5.cached(0, func));
    assert(m5.cached(0, func) == m4.cached(0, func));
    assert(m4.cached(0, func) == m3.cached(0, func));
    assert(m3.cached(0, func) == m2.cached(0, func));
    assert(m2.cached(0, func) == m1.cached(0, func));
    assert forall|k: int| 0 <= k < 9 implies #[trigger] m9.cached(k, func) by {
        if k == 0 {
        } else if k == 1 {
            assert(m9.cached(1, func) == m8.cached(1, func));
            assert(m8.cached(1, func) == m7.cached(1, func));
            assert(m7.cached(1, func) == m6.cached(1, func));
            assert(m6.cached(1, func) == m5.cached(1, func));
            assert(m5.cached(1, func) == m4.cached(1, func));
            assert(m4.cached(1, func) == m3.cached(1, func));
            assert(m3.cached(1, func) == m2.cached(1, func));
        } else if k == 2 {
            assert(m9.cached(2, func) == m8.cached(2, func));
            assert(m8.cached(2, func) == m7.cached(2, func));
            assert(m7.cached(2, func) == m6.cached(2, func));
            assert(m6.cached(2, func) == m5.cached(2, func));
            assert(m5.cached(2, func) == m4.cached(2, func));
            assert(m4.cached(2, func) == m3.cached(2, func));
        } else if k == 3 {
            assert(m9.cached(3, func) == m8.cached(3, func));
            assert(m8.cached(3, func) == m7.cached(3, func));
            assert(m7.cached(3, func) == m6.cached(3, func));
            assert(m6.cached(3, func) == m5.cached(3, func));
            assert(m5.cached(3, func) == m4.cached(3, func));
        } else if k == 4 {
            assert(m9.cached(4, func) == m8.cached(4, func));
            assert(m8.cached(4, func) == m7.cached(4, func));
            assert(m7.cached(4, func) == m6.cached(4, func));
            assert(m6.cached(4, func) == m5.cached(4, func));
        } else if k == 5 {
            assert(m9.cached(5, func) == m8.cached(5, func));
            assert(m8.cached(5, func) == m7.cached(5, func));
            assert(m7.cached(5, func) == m6.cached(5, func));
        } else if k == 6 {
            assert(m9.cached(6, func) == m8.cached(6, func));
            assert(m8.cached(6, func) == m7.cached(6, func));
        } else if k == 7 {
            assert(m9.cached(7, func) == m8.cached(7, func));
        }
    }
    assert(m1.cached(1, func) == m0.cached(1, func));
    assert(m2.cached(2, func) == m1.cached(2, func));
    assert(m1.cached(2, func) == m0.cached(2, func));
    assert(m3.cached(3, func) == m2.cached(3, func));
    assert(m2.cached(3, func) == m1.cached(3, func));
    assert(m1.cached(3, func) == m0.cached(3, func));
    assert(m4.cached(4, func) == m3.cached(4, func));
    assert(m3.cached(4, func) == m2.cached(4, func));
    assert(m2.cached(4, func) == m1.cached(4, func));
    assert(m1.cached(4, func) == m0.cached(4, func));
    assert(m5.cached(5, func) == m4.cached(5, func));
    assert(m4.cached(5, func) == m3.cached(5, func));
    assert(m3.cached(5, func) == m2.cached(5, func));
    assert(m2.cached(5, func) == m1.cached(5, func));
    assert(m1.cached(5, func) == m0.cached(5, func));
    assert(m6.cached(6, func) == m5.cached(6, func));
    assert(m5.cached(6, func) == m4.cached(6, func));
    assert(m4.cached(6, func) == m3.cached(6, func));
    assert(m3.cached(6, func) == m2.cached(6, func));
    assert(m2.cached(6, func) == m1.cached(6, func));
    assert(m1.cached(6, func) == m0.cached(6, func));
    assert(m7.cached(7, func) == m6.cached(7, func));
    assert(m6.cached(7, func) == m5.cached(7, func));
    assert(m5.cached(7, func) == m4.cached(7, func));
    assert(m4.cached(7, func) == m3.cached(7, func));
    assert(m3.cached(7, func) == m2.cached(7, func));
    assert(m2.cached(7, func) == m1.cached(7, func));
    assert(m1.cached(7, func) == m0.cached(7, func));
    assert(m8.cached(8, func) == m7.cached(8, func));
    assert(m7.cached(8, func) == m6.cached(8, func));
    assert(m6.cached(8, func) == m5.cached(8, func));
    assert(m5.cached(8, func) == m4.cached(8, func));
    assert(m4.cached(8, func) == m3.cached(8, func));
    assert(m3.cached(8, func) == m2.cached(8, func));
    assert(m2.cached(8, func) == m1.cached(8, func));
    assert(m1.cached(8, func) == m0.cached(8, func));
}

proof fn lemma_run_all_stats(
    s0: AnalysisStats,
    s1: AnalysisStats,
    s2: AnalysisStats,
    s3: AnalysisStats,
    s4: AnalysisStats,
    s5: AnalysisStats,
    s6: AnalysisStats,
    s7: AnalysisStats,
    s8: AnalysisStats,
    s9: AnalysisStats,
    f: Seq<bool>,
    n: nat,
)
    requires
        f.len() == 9,
        step(s0, s1, f[0], n), step(s1, s2, f[1], n), step(s2, s3, f[2], n), step(s3, s4, f[3], n),
        step(s4, s5, f[4], n), step(s5, s6, f[5], n), step(s6, s7, f[6], n), step(s7, s8, f[7], n),
        step(s8, s9, f[8], n),
    ensures
        steps(s0, s9, n, 9),
        s9.cache_hits == s0.cache_hits + hit(!f[0]) + hit(!f[1]) + hit(!f[2]) + hit(!f[3]) + hit(!f[4]) + hit(!f[5])
            + hit(!f[6]) + hit(!f[7]) + hit(!f[8]),
{
    lemma_step_steps(s0, s1, f[0], n);
    lemma_more_steps(s0, s1, s2, n, 1, f[1]);
    lemma_more_steps(s0, s2, s3, n, 2, f[2]);
    lemma_more_steps(s0, s3, s4, n, 3, f[3]);
    lemma_more_steps(s0, s4, s5, n, 4, f[4]);
    lemma_more_steps(s0, s5, s6, n, 5, f[5]);
    lemma_more_steps(s0, s6, s7, n, 6, f[6]);
    lemma_more_steps(s0, s7, s8, n, 7, f[7]);
    lemma_more_steps(s0, s8, s9, n, 8, f[8]);
}

// ── Statistics bookkeeping ──────────────────────────────────────────────

/// The statistics have room for `k` more analyses of `n` nodes.
pub open spec fn room(s: AnalysisStats, n: nat, k: nat) -> bool {
    &&& s.cache_hits + k <= usize::MAX
    &&& s.cache_misses + k <= usize::MAX
    &&& s.total_runs + k <= usize::MAX
    &&& s.total_nodes_processed + k * n <= usize::MAX
}

/// One analysis was answered: computed (`fresh`) or from the cache.
pub open spec fn step(a: AnalysisStats, b: AnalysisStats, fresh: bool, n: nat) -> bool {
    &&& b.total_runtime_ms >= a.total_runtime_ms
    &&& if fresh {
        &&& b.cache_misses == a.cache_misses + 1
        &&& b.total_runs == a.total_runs + 1
        &&& b.total_nodes_processed == a.total_nodes_processed + n
        &&& b.cache_hits == a.cache_hits
    } else {
        &&& b.cache_hits == a.cache_hits + 1
        &&& b.cache_misses == a.cache_misses
        &&& b.total_runs == a.total_runs + 1
        &&& b.total_nodes_processed == a.total_nodes_processed
    }
}

/// `k` analyses of `n` nodes were answered, each one a run: each computed
/// one is a miss over the nodes, each other a hit.
pub open spec fn steps(a: AnalysisStats, b: AnalysisStats, n: nat, k: nat) -> bool {
    &&& b.total_runtime_ms >= a.total_runtime_ms
    &&& b.cache_hits >= a.cache_hits
    &&& b.cache_misses >= a.cache_misses
    &&& (b.cache_hits - a.cache_hits) + (b.cache_misses - a.cache_misses) == k
    &&& b.total_runs - a.total_runs == k
    &&& b.total_nodes_processed - a.total_nodes_processed == (b.cache_misses - a.cache_misses) * n
}

proof fn lemma_step_steps(a: AnalysisStats, b: AnalysisStats, fresh: bool, n: nat)
    requires
        step(a, b, fresh, n),
    ensures
        steps(a, b, n, 1),
{
    assert(1 * n == n && 0 * n == 0) by (nonlinear_arith);
}

proof fn lemma_more_steps(a: AnalysisStats, b: AnalysisStats, c: AnalysisStats, n: nat, k: nat, fresh: bool)
    requires
        steps(a, b, n, k),
        step(b, c, fresh, n),
    ensures
        steps(a, c, n, k + 1),
{
    if fresh {
        let m = b.cache_misses - a.cache_misses;
        assert((m + 1) * n == m * n + n) by (nonlinear_arith);
    }
}

/// `b` is `a` but for the table at `index` (in declaration order).
pub open spec fn same_except(a: FactDatabase, b: FactDatabase, index: nat) -> bool {
    &&& index != 0 ==> b.use_def == a.use_def
    &&& index != 1 ==> b.dominance == a.dominance
    &&& index != 2 ==> b.constants == a.constants
    &&& index != 3 ==> b.purity == a.purity
    &&& index != 4 ==> b.ranges == a.ranges
    &&& index != 5 ==> b.aliases == a.aliases
    &&& index != 6 ==> b.escapes == a.escapes
    &&& index != 7 ==> b.loops == a.loops
    &&& index != 8 ==> b.value_numbers == a.value_numbers
}

// ── The analyses through the common interface ──────────────────────────

impl Analysis for UseDefAnalysis {
    type Output = FactMap<UseDefFact>;

    fn name() -> (r: &'static str)
        ensures
            r@ == "UseDef"@,
    {
        "UseDef"
    }

    fn analyze(func: &Function, facts: Option<&FactDatabase>) -> (r: AnalysisResult<FactMap<UseDefFact>>)
        ensures
            use_def_of(*func, r.data),
    {
        let start = clock_now();
        let result = run_use_def(func);
        AnalysisResult::new(result, elapsed_since(&start), func.arena.len())
    }
}

impl Analysis for DominanceAnalysis {
    type Output = FactMap<DominanceFact>;

    fn name() -> (r: &'static str)
        ensures
            r@ == "Dominance"@,
    {
        "Dominance"
    }

    fn analyze(func: &Function, facts: Option<&FactDatabase>) -> (r: AnalysisResult<FactMap<DominanceFact>>)
        ensures
            dominance_of(*func, r.data),
    {
        let start = clock_now();
        let result = run_dominance(func);
        AnalysisResult::new(result, elapsed_since(&start), func.arena.len())
    }
}

impl Analysis for ConstantAnalysis {
    type Output = FactMap<ConstantFact>;

    fn name() -> (r: &'static str)
        ensures
            r@ == "Constants"@,
    {
        "Constants"
    }

    /// The users of each node are found in the arena: the facts given may
    /// be of another function.
    fn analyze(func: &Function, facts: Option<&FactDatabase>) -> (r: AnalysisResult<FactMap<ConstantFact>>)
        ensures
            constants_of_function(*func, r.data),
    {
        let start = clock_now();
        let result = run_constants(func, None);
        AnalysisResult::new(result, elapsed_since(&start), func.arena.len())
    }
}

impl Analysis for PurityAnalysis {
    type Output = FactMap<PurityFact>;

    fn name() -> (r: &'static str)
        ensures
            r@ == "Purity"@,
    {
        "Purity"
    }

    fn analyze(func: &Function, facts: Option<&FactDatabase>) -> (r: AnalysisResult<FactMap<PurityFact>>)
        ensures
            r.data.wf(),
            r.data@ == purity_over(func.arena@, spec_topological_sort(func.arena@)),
    {
        let start = clock_now();
        let result = run_purity(func);
        AnalysisResult::new(result, elapsed_since(&start), func.arena.len())
    }
}

impl Analysis for RangeAnalysis {
    type Output = FactMap<RangeFact>;

    fn name() -> (r: &'static str)
        ensures
            r@ == "Ranges"@,
    {
        "Ranges"
    }

    fn analyze(func: &Function, facts: Option<&FactDatabase>) -> (r: AnalysisResult<FactMap<RangeFact>>)
        ensures
            r.data.wf(),
            r.data@ == ranges_over(func.arena@, spec_topological_sort(func.arena@)),
    {
        let start = clock_now();
        let result = run_ranges(func);
        AnalysisResult::new(result, elapsed_since(&start), func.arena.len())
    }
}

impl Analysis for AliasAnalysis {
    type Output = FactMap<AliasFact>;

    fn name() -> (r: &'static str)
        ensures
            r@ == "Alias"@,
    {
        "Alias"
    }

    fn analyze(func: &Function, facts: Option<&FactDatabase>) -> (r: AnalysisResult<FactMap<AliasFact>>)
        ensures
            r.data.wf(),
            alias_views(r.data@) == alias_over(func.arena@, spec_topological_sort(func.arena@)),
    {
        let start = clock_now();
        let result = run_alias(func);
        AnalysisResult::new(result, elapsed_since(&start), func.arena.len())
    }
}

impl Analysis for EscapeAnalysis {
    type Output = FactMap<EscapeFact>;

    fn name() -> (r: &'static str)
        ensures
            r@ == "Escape"@,
    {
        "Escape"
    }

    fn analyze(func: &Function, facts: Option<&FactDatabase>) -> (r: AnalysisResult<FactMap<EscapeFact>>)
        ensures
            escapes_of(*func, r.data),
    {
        let start = clock_now();
        let result = run_escape(func);
        AnalysisResult::new(result, elapsed_since(&start), func.arena.len())
    }
}

impl Analysis for LoopAnalysis {
    type Output = FactMap<LoopFact>;

    fn name() -> (r: &'static str)
        ensures
            r@ == "Loops"@,
    {
        "Loops"
    }

    fn analyze(func: &Function, facts: Option<&FactDatabase>) -> (r: AnalysisResult<FactMap<LoopFact>>)
        ensures
            loops_of(*func, r.data),
    {
        let start = clock_now();
        let result = run_loops(func);
        AnalysisResult::new(result, elapsed_since(&start), func.arena.len())
    }
}

impl Analysis for ValueNumberingAnalysis {
    type Output = FactMap<ValueNumberFact>;

    fn name() -> (r: &'static str)
        ensures
            r@ == "ValueNumbering"@,
    {
        "ValueNumbering"
    }

    fn analyze(func: &Function, facts: Option<&FactDatabase>) -> (r: AnalysisResult<FactMap<ValueNumberFact>>)
        ensures
            numbers_of(*func, r.data),
    {
        let start = clock_now();
        let result = run_value_numbering(func);
        AnalysisResult::new(result, elapsed_since(&start), func.arena.len())
    }
}

/// A manager whose cache holds nothing for `func` (after `new` or
/// `invalidate_all`) counts no cache hit for it: the next `run_all`
/// computes all nine analyses, each a miss.
pub proof fn law_empty_cache_all_misses(m: AnalysisManager, func: Function, before: AnalysisStats, after: AnalysisStats)
    requires
        forall|k: int, f: Function| !m.cached(k, f),
        before == m.spec_stats(),
        steps(before, after, func.arena@.len(), 9),
        after.cache_hits == before.cache_hits + m.cached_count(func),
    ensures
        m.cached_count(func) == 0,
        after.cache_hits == before.cache_hits,
        after.cache_misses == before.cache_misses + 9,
        after.total_runs == before.total_runs + 9,
        after.total_nodes_processed == before.total_nodes_processed + 9 * func.arena@.len(),
{
    assert(!m.cached(0, func) && !m.cached(1, func) && !m.cached(2, func) && !m.cached(3, func));
    assert(!m.cached(4, func) && !m.cached(5, func) && !m.cached(6, func) && !m.cached(7, func));
    assert(!m.cached(8, func));
}

/// When the cache holds all nine analyses for `func`, all nine count as
/// hits: the next `run_all` answers each from the cache, with no miss.
pub proof fn law_full_cache_all_hits(m: AnalysisManager, func: Function, before: AnalysisStats, after: AnalysisStats)
    requires
        forall|k: int| 0 <= k < 9 ==> #[trigger] m.cached(k, func),
        before == m.spec_stats(),
        steps(before, after, func.arena@.len(), 9),
        after.cache_hits == before.cache_hits + m.cached_count(func),
    ensures
        m.cached_count(func) == 9,
        after.cache_hits == before.cache_hits + 9,
        after.cache_misses == before.cache_misses,
        after.total_runs == before.total_runs + 9,
        after.total_nodes_processed == before.total_nodes_processed,
{
    assert(m.cached(0, func) && m.cached(1, func) && m.cached(2, func) && m.cached(3, func));
    assert(m.cached(4, func) && m.cached(5, func) && m.cached(6, func) && m.cached(7, func));
    assert(m.cached(8, func));
    let d: int = after.cache_misses - before.cache_misses;
    let n: int = func.arena@.len() as int;
    assert(d == 0);
    assert(d * n == 0) by (nonlinear_arith)
        requires
            d == 0,
    ;
}

} // verus!
