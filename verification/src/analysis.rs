//! The analysis interface and the result container shared by all
//! analyses.
use vstd::prelude::*;
use std::time::{Duration, Instant};
use crate::ir::{Function, distinct_ids};
use crate::escape::closed_arena;
use crate::manager::FactDatabase;

verus! {

/// `Duration` is `Copy`: its `clone` returns the same duration.
pub assume_specification[ <Duration as Clone>::clone ](d: &Duration) -> (r: Duration)
    ensures
        r == *d,
;

/// The result of running an analysis: the computed data, timing
/// information, the number of nodes processed, and any warnings.
#[derive(Clone, Debug)]
pub struct AnalysisResult<T> {
    /// The computed data.
    pub data: T,
    /// Wall-clock time for this analysis.
    pub runtime: Duration,
    /// Number of SIR nodes processed.
    pub nodes_processed: usize,
    /// Warnings generated during analysis.
    pub warnings: Vec<String>,
}

impl<T> AnalysisResult<T> {
    /// Creates a result with no warnings.
    pub fn new(data: T, runtime: Duration, nodes_processed: usize) -> (r: Self)
        ensures
            r.data == data,
            r.runtime == runtime,
            r.nodes_processed == nodes_processed,
            r.warnings@.len() == 0,
    {
        AnalysisResult { data, runtime, nodes_processed, warnings: Vec::new() }
    }

    /// Adds a warning at the end of the result's warnings.
    pub fn with_warning(self, warning: String) -> (r: Self)
        ensures
            r.data == self.data,
            r.runtime == self.runtime,
            r.nodes_processed == self.nodes_processed,
            r.warnings@ == self.warnings@.push(warning),
    {
        let mut r = self;
        r.warnings.push(warning);
        r
    }
}

/// Every analysis implements this trait. Analyses are read-only: they
/// inspect the function and the fact database but modify neither.
pub trait Analysis: Sized {
    /// The output type produced by this analysis.
    type Output;

    /// Human-readable name for this analysis.
    fn name() -> &'static str;

    /// Runs the analysis on a function whose node identifiers are distinct
    /// and whose operands are all in its arena. `facts` holds previously
    /// computed facts the analysis may read.
    fn analyze(func: &Function, facts: Option<&FactDatabase>) -> (r: AnalysisResult<Self::Output>)
        requires
            distinct_ids(func.arena@),
            closed_arena(func.arena@),
        ensures
            r.nodes_processed == func.arena@.len(),
            r.warnings@.len() == 0,
    ;
}

// ── Timing ──────────────────────────────────────────────────────────────

#[verifier::external_type_specification]
#[verifier::external_body]
pub struct ExInstant(Instant);

/// Calls `Instant::now`: the current instant, of which nothing is stated.
#[verifier::external_body]
pub(crate) fn clock_now() -> Instant {
    Instant::now()
}

/// Calls `Instant::elapsed`: the time since `start`, of which nothing is
/// stated.
#[verifier::external_body]
pub(crate) fn elapsed_since(start: &Instant) -> Duration {
    start.elapsed()
}

/// Calls `Duration::as_millis`: the whole milliseconds of `d`, of which
/// nothing is stated here.
#[verifier::external_body]
pub(crate) fn whole_millis(d: &Duration) -> u128 {
    d.as_millis()
}

} // verus!
