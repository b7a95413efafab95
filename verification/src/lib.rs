//! Analyses of a dataflow IR, and the logic of the benchmark tools built
//! around it: vectorization plan enumeration, fused loop emission,
//! compositional proof reports, harness and driver generation.
use vstd::prelude::*;

// The IR and its graph.
pub mod ir;
pub mod graph;
pub mod factmap;
pub mod visit;
pub mod facts;

// The analyses and the manager running them.
pub mod use_def;
pub mod dominance;
pub mod constants;
pub mod purity;
pub mod ranges;
pub mod alias;
pub mod escape;
pub mod loops;
pub mod value_numbering;
pub mod analysis;
pub mod dependency;
pub mod cache;
pub mod manager;

// Text helpers.
pub mod text;
pub mod chars;
pub mod numparse;

// The benchmark tools.
pub mod popcount;
pub mod ir_scan;
pub mod harness;
pub mod emit_prelude;
pub mod vector_plan;
pub mod vector_derive;
pub mod gate5a;
pub mod gate5a_bench;
pub mod gate6a;
pub mod gate6b;
pub mod compositional_proof;
pub mod h3;
pub mod emit;
pub mod emit_order;
pub mod emit_c;
pub mod interp;

verus! {

} // verus!
