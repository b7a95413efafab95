//! Primitive vector plans: what a recognized single-loop reduction
//! computes over which buffer, and how it is vectorized.
use vstd::prelude::*;

verus! {

/// The reduction a vector plan computes.
#[derive(Clone, Copy, Debug, PartialEq, Eq, Structural)]
pub enum VectorOp {
    /// Number of bytes satisfying the predicate.
    Cardinality,
    /// Sum of the bytes.
    Sum,
    /// Whether every byte satisfies the predicate.
    All,
}

/// The per-byte predicate of a plan, as C expressions.
#[derive(Clone, Debug, PartialEq, Eq)]
pub enum VectorPredicate {
    /// `(b & mask) == target`
    MaskedEqual { mask: String, target: String },
    /// `b == target`
    Equal(String),
    /// The byte itself (sums).
    Identity,
}

/// How the bytes after the last full vector are handled.
#[derive(Clone, Copy, Debug, PartialEq, Eq, Structural)]
pub enum TailPolicy {
    NarrowerVector,
}

/// A primitive vector plan derived for one loop region.
#[derive(Clone, Debug)]
pub struct VectorPlan {
    pub operation: VectorOp,
    /// C expression of the traversed buffer.
    pub buffer_name: String,
    /// C expression of the traversal length.
    pub length_name: String,
    pub predicate: Option<VectorPredicate>,
    /// Bytes per vector.
    pub vector_width: usize,
    pub tail: TailPolicy,
}

/// A predicate with its C expressions as character sequences.
pub enum PredicateView {
    MaskedEqual { mask: Seq<char>, target: Seq<char> },
    Equal(Seq<char>),
    Identity,
}

impl View for VectorPredicate {
    type V = PredicateView;

    open spec fn view(&self) -> PredicateView {
        match self {
            VectorPredicate::MaskedEqual { mask, target } => PredicateView::MaskedEqual { mask: mask@, target: target@ },
            VectorPredicate::Equal(t) => PredicateView::Equal(t@),
            VectorPredicate::Identity => PredicateView::Identity,
        }
    }
}

/// An optional predicate, by its view.
pub open spec fn predicate_view(p: Option<VectorPredicate>) -> Option<PredicateView> {
    match p {
        Some(q) => Some(q@),
        None => None,
    }
}

/// A plan with its C expressions as character sequences.
pub struct PlanView {
    pub operation: VectorOp,
    pub buffer_name: Seq<char>,
    pub length_name: Seq<char>,
    pub predicate: Option<PredicateView>,
    pub vector_width: usize,
    pub tail: TailPolicy,
}

impl View for VectorPlan {
    type V = PlanView;

    open spec fn view(&self) -> PlanView {
        PlanView {
            operation: self.operation,
            buffer_name: self.buffer_name@,
            length_name: self.length_name@,
            predicate: predicate_view(self.predicate),
            vector_width: self.vector_width,
            tail: self.tail,
        }
    }
}

/// An optional plan, by its view.
pub open spec fn plan_view(p: Option<VectorPlan>) -> Option<PlanView> {
    match p {
        Some(q) => Some(q@),
        None => None,
    }
}

} // verus!
