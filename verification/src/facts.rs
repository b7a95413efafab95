//! Fact types produced by the analyses.
//!
//! Every analysis produces facts keyed by node. Facts are stored outside
//! the IR nodes, so analyses stay read-only and disposable.
use vstd::prelude::*;
use crate::ir::NodeId;
use vstd::arithmetic::power2::{pow2, lemma_pow2_unfold, lemma_pow2_pos, lemma_pow2_adds, lemma2_to64};

verus! {

// ── Constants ────────────────────────────────────────────────────────────

/// A constant value of the IR: the unit value, a boolean, or an integer given by its raw
/// two's-complement bits, signedness and bit width.
#[derive(Clone, Copy, Debug, PartialEq, Eq, Structural)]
pub enum ConstantData {
    /// The unit value.
    Unit,
    Bool(bool),
    Integer { bits: u128, signed: bool, width: u32 },
}

impl ConstantData {
    /// The boolean constant `b`.
    pub fn boolean(b: bool) -> (c: Self)
        ensures
            c == ConstantData::Bool(b),
    {
        ConstantData::Bool(b)
    }

    /// The 32-bit signed constant `v`.
    pub fn i32(v: i32) -> (c: Self)
        ensures
            c == (ConstantData::Integer {
                bits: (if v >= 0 { v as int } else { v + 0x1_0000_0000 }) as u128,
                signed: true,
                width: 32,
            }),
    {
        let bits: u128 = if v >= 0 { v as u128 } else { (v as i64 + 0x1_0000_0000i64) as u128 };
        ConstantData::Integer { bits, signed: true, width: 32 }
    }

    /// The 64-bit signed constant `v`.
    pub fn i64(v: i64) -> (c: Self)
        ensures
            c == (ConstantData::Integer {
                bits: (if v >= 0 { v as int } else { v + 0x1_0000_0000_0000_0000 }) as u128,
                signed: true,
                width: 64,
            }),
    {
        let bits: u128 = if v >= 0 { v as u128 } else { (v as i128 + 0x1_0000_0000_0000_0000i128) as u128 };
        ConstantData::Integer { bits, signed: true, width: 64 }
    }

    /// The 64-bit unsigned constant `v`.
    pub fn u64(v: u64) -> (c: Self)
        ensures
            c == (ConstantData::Integer { bits: v as u128, signed: false, width: 64 }),
    {
        ConstantData::Integer { bits: v as u128, signed: false, width: 64 }
    }
}

/// The integer an integer constant denotes: its bits read as two's
/// complement of its width when signed, as a plain number otherwise.
pub open spec fn integer_value(bits: u128, signed: bool, width: u32) -> int {
    if signed && 1 <= width <= 128 && bits >= pow2((width - 1) as nat) {
        bits - 2 * pow2((width - 1) as nat)
    } else {
        bits as int
    }
}

pub open spec fn fits_i128(v: int) -> bool {
    i128::MIN <= v <= i128::MAX
}

/// `2^(width - 1)`, for `1 <= width <= 128`.
fn half_range(width: u32) -> (p: u128)
    requires
        1 <= width <= 128,
    ensures
        p == pow2((width - 1) as nat),
{
    let mut p: u128 = 1;
    let mut i: u32 = 0;
    proof {
        lemma_pow2_values();
    }
    while i < width - 1
        invariant
            i <= width - 1,
            width <= 128,
            p == pow2(i as nat),
            p <= pow2(127),
        decreases width - 1 - i,
    {
        proof {
            lemma_pow2_values();
            lemma_pow2_unfold((i + 1) as nat);
            lemma_pow2_monotone((i + 1) as nat, 127);
        }
        p = p * 2;
        i = i + 1;
    }
    p
}

pub proof fn lemma_pow2_monotone(a: nat, b: nat)
    requires
        a <= b,
    ensures
        pow2(a) <= pow2(b),
    decreases b - a,
{
    if a < b {
        lemma_pow2_monotone(a, (b - 1) as nat);
        lemma_pow2_unfold(b);
        lemma_pow2_pos((b - 1) as nat);
    }
}

pub proof fn lemma_pow2_values()
    ensures
        pow2(0) == 1,
        pow2(127) == 0x8000_0000_0000_0000_0000_0000_0000_0000,
        pow2(128) == 0x1_0000_0000_0000_0000_0000_0000_0000_0000,
{
    lemma2_to64();
    lemma_pow2_adds(32, 31);
    lemma_pow2_adds(64, 63);
    lemma_pow2_adds(64, 64);
}

/// The integer an integer constant denotes, when it fits in an `i128`.
pub(crate) fn integer_of_bits(bits: u128, signed: bool, width: u32) -> (r: Option<i128>)
    ensures
        r == (if fits_i128(integer_value(bits, signed, width)) {
            Some(integer_value(bits, signed, width) as i128)
        } else {
            None
        }),
{
    if !signed || width == 0 || width > 128 {
        if bits <= 0x7fff_ffff_ffff_ffff_ffff_ffff_ffff_ffffu128 {
            return Some(bits as i128);
        } else {
            return None;
        }
    }
    let p = half_range(width);
    proof {
        lemma_pow2_monotone((width - 1) as nat, 127);
        lemma_pow2_values();
    }
    if bits < p {
        return Some(bits as i128);
    }
    let q = bits - p;
    if q >= p {
        let d = q - p;
        if d <= 0x7fff_ffff_ffff_ffff_ffff_ffff_ffff_ffffu128 {
            Some(d as i128)
        } else {
            None
        }
    } else {
        let e = p - q;
        if e == 0x8000_0000_0000_0000_0000_0000_0000_0000u128 {
            Some(i128::MIN)
        } else {
            Some(-(e as i128))
        }
    }
}

/// The value of an integer constant as an `i64`, if it has one.
pub open spec fn spec_as_i64(c: ConstantData) -> Option<i64> {
    match c {
        ConstantData::Integer { bits, signed, width } => {
            let v = integer_value(bits, signed, width);
            if i64::MIN <= v <= i64::MAX {
                Some(v as i64)
            } else {
                None
            }
        },
        _ => None,
    }
}

/// The value of an integer constant as a `u64`, if it has one.
pub open spec fn spec_as_u64(c: ConstantData) -> Option<u64> {
    match c {
        ConstantData::Integer { bits, signed, width } => {
            let v = integer_value(bits, signed, width);
            if 0 <= v <= u64::MAX {
                Some(v as u64)
            } else {
                None
            }
        },
        _ => None,
    }
}

impl ConstantData {
    /// The value of an integer constant as an `i64`, if it has one.
    pub fn as_i64(&self) -> (r: Option<i64>)
        ensures
            r == spec_as_i64(*self),
    {
        match self {
            ConstantData::Integer { bits, signed, width } => match integer_of_bits(*bits, *signed, *width) {
                Some(v) => if v >= i64::MIN as i128 && v <= i64::MAX as i128 {
                    Some(v as i64)
                } else {
                    None
                },
                None => None,
            },
            _ => None,
        }
    }

    /// The value of an integer constant as a `u64`, if it has one.
    pub fn as_u64(&self) -> (r: Option<u64>)
        ensures
            r == spec_as_u64(*self),
    {
        match self {
            ConstantData::Integer { bits, signed, width } => match integer_of_bits(*bits, *signed, *width) {
                Some(v) => if v >= 0 && v <= u64::MAX as i128 {
                    Some(v as u64)
                } else {
                    None
                },
                None => None,
            },
            _ => None,
        }
    }
}

/// Three-level lattice for constant propagation.
///
/// Values flow `Top` (unknown) to `Constant(v)` to `Bottom` (overdefined).
/// `meet(Top, x) = x`, `meet(Constant(a), Constant(b)) = Bottom` if `a != b`.
#[derive(Clone, Copy, Debug, PartialEq, Eq, Structural)]
pub enum ConstantLattice {
    /// Unknown value (initial state for non-constant nodes).
    Top,
    /// Known constant.
    Constant(ConstantData),
    /// Overdefined: the value is not constant.
    Bottom,
}

pub open spec fn spec_meet(a: ConstantLattice, b: ConstantLattice) -> ConstantLattice {
    match (a, b) {
        (ConstantLattice::Top, x) => x,
        (x, ConstantLattice::Top) => x,
        (ConstantLattice::Bottom, _) => ConstantLattice::Bottom,
        (_, ConstantLattice::Bottom) => ConstantLattice::Bottom,
        (ConstantLattice::Constant(x), ConstantLattice::Constant(y)) => if x == y {
            ConstantLattice::Constant(x)
        } else {
            ConstantLattice::Bottom
        },
    }
}

impl ConstantLattice {
    /// Meet of two lattice values.
    pub fn meet(&self, other: &Self) -> (r: Self)
        ensures
            r == spec_meet(*self, *other),
    {
        match (self, other) {
            (ConstantLattice::Top, x) => *x,
            (x, ConstantLattice::Top) => *x,
            (ConstantLattice::Bottom, _) => ConstantLattice::Bottom,
            (_, ConstantLattice::Bottom) => ConstantLattice::Bottom,
            (ConstantLattice::Constant(a), ConstantLattice::Constant(b)) => {
                if *a == *b {
                    ConstantLattice::Constant(*a)
                } else {
                    ConstantLattice::Bottom
                }
            },
        }
    }

    pub fn is_constant(&self) -> (r: bool)
        ensures
            r == (*self is Constant),
    {
        matches!(self, ConstantLattice::Constant(_))
    }

    pub fn is_top(&self) -> (r: bool)
        ensures
            r == (*self is Top),
    {
        matches!(self, ConstantLattice::Top)
    }

    pub fn is_bottom(&self) -> (r: bool)
        ensures
            r == (*self is Bottom),
    {
        matches!(self, ConstantLattice::Bottom)
    }
}

/// `meet` is a meet-semilattice operation with `Top` as identity and
/// `Bottom` as absorbing element: commutative, associative and idempotent.
pub proof fn law_meet_semilattice(a: ConstantLattice, b: ConstantLattice, c: ConstantLattice)
    ensures
        spec_meet(a, b) == spec_meet(b, a),
        spec_meet(spec_meet(a, b), c) == spec_meet(a, spec_meet(b, c)),
        spec_meet(a, a) == a,
        spec_meet(ConstantLattice::Top, a) == a,
        spec_meet(ConstantLattice::Bottom, a) == ConstantLattice::Bottom,
{
}

/// Meeting two different constants is overdefined; meeting a constant with
/// itself keeps it.
pub proof fn law_meet_constants(x: ConstantData, y: ConstantData)
    ensures
        spec_meet(ConstantLattice::Constant(x), ConstantLattice::Constant(y)) == (if x == y {
            ConstantLattice::Constant(x)
        } else {
            ConstantLattice::Bottom
        }),
{
}

/// Constant propagation facts.
#[derive(Clone, Copy, Debug, PartialEq)]
pub struct ConstantFact {
    /// The constant value, or Top/Bottom.
    pub value: ConstantLattice,
}

// ── Purity ───────────────────────────────────────────────────────────────

/// Expression-level purity classification.
#[derive(Clone, Copy, Debug, PartialEq, Eq, Structural)]
pub enum PurityLevel {
    /// No side effects whatsoever.
    Pure,
    /// May read from memory.
    ReadsMemory,
    /// May write to memory.
    WritesMemory,
    /// May allocate memory.
    Allocates,
    /// May perform I/O.
    IO,
    /// May perform atomic operations.
    Atomic,
    /// Unknown: conservative default.
    Unknown,
}

/// Purity facts: the node's own purity level and whether the whole subgraph
/// rooted at the node is pure.
#[derive(Clone, Copy, Debug, PartialEq)]
pub struct PurityFact {
    /// This node's own purity level.
    pub purity: PurityLevel,
    /// Whether the entire subgraph rooted at this node is pure.
    pub subgraph_is_pure: bool,
}

// ── Escape ───────────────────────────────────────────────────────────────

/// How a value escapes (or doesn't) from the function.
#[derive(Clone, Copy, Debug, PartialEq, Eq, Structural)]
pub enum EscapeKind {
    /// Does not escape: purely local.
    NeverEscapes,
    /// Returned to the caller.
    Returned,
    /// Stored to a globally-visible memory location.
    StoredGlobally,
    /// Passed as an argument to an external function.
    PassedExternally,
    /// Captured by a closure or loop construct.
    Captured,
}

/// Use-definition facts for one node.
#[derive(Clone, Debug, PartialEq)]
pub struct UseDefFact {
    /// Nodes that produce values consumed by this node (dataflow inputs).
    pub definitions: Vec<NodeId>,
    /// Nodes that consume the value produced by this node.
    pub users: Vec<NodeId>,
    /// Whether this node is dead (zero uses, not the return node).
    pub is_dead: bool,
    /// Number of dataflow uses.
    pub use_count: usize,
}

/// Escape facts for a node.
#[derive(Clone, Copy, Debug, PartialEq)]
pub struct EscapeFact {
    /// How this value escapes.
    pub kind: EscapeKind,
}

// ── Ranges ───────────────────────────────────────────────────────────────

/// Integer range facts.
#[derive(Clone, Copy, Debug, PartialEq)]
pub struct RangeFact {
    /// Inclusive lower bound (None = unbounded below).
    pub lower: Option<i128>,
    /// Inclusive upper bound (None = unbounded above).
    pub upper: Option<i128>,
    /// The value is known to be non-zero.
    pub is_nonzero: bool,
    /// The value is known to be a power of two.
    pub is_power_of_two: bool,
    /// The value is known to be aligned to this byte boundary.
    pub alignment: Option<u64>,
}

// ── Alias ────────────────────────────────────────────────────────────────

/// Alias relationship of a pointer value with the allocation sites.
#[derive(Clone, Debug, PartialEq, Eq)]
pub enum AliasKind {
    /// The pointer definitely references its allocation site.
    MustAlias,
    /// The pointer may reference any of these allocation sites (in
    /// increasing identifier order, each once).
    MayAlias(Vec<NodeId>),
    /// The pointer references no allocation.
    NoAlias,
    /// Cannot determine aliasing.
    Unknown,
}

/// What an alias kind says, with the sites as a sequence.
pub enum AliasKindView {
    MustAlias,
    MayAlias(Seq<NodeId>),
    NoAlias,
    Unknown,
}

impl View for AliasKind {
    type V = AliasKindView;

    open spec fn view(&self) -> AliasKindView {
        match self {
            AliasKind::MustAlias => AliasKindView::MustAlias,
            AliasKind::MayAlias(sites) => AliasKindView::MayAlias(sites@),
            AliasKind::NoAlias => AliasKindView::NoAlias,
            AliasKind::Unknown => AliasKindView::Unknown,
        }
    }
}

/// Alias facts of a node: its alias kind and, where known, the one
/// allocation site it references.
#[derive(Clone, Debug, PartialEq, Eq)]
pub struct AliasFact {
    /// The alias relationship.
    pub kind: AliasKind,
    /// The allocation site, if known uniquely.
    pub allocation_site: Option<NodeId>,
}

/// An alias fact with its kind viewed.
pub struct AliasFactView {
    pub kind: AliasKindView,
    pub allocation_site: Option<NodeId>,
}

impl View for AliasFact {
    type V = AliasFactView;

    open spec fn view(&self) -> AliasFactView {
        AliasFactView { kind: self.kind@, allocation_site: self.allocation_site }
    }
}

// ── Dominance ────────────────────────────────────────────────────────────

/// Dominance facts for one node; node lists are in increasing identifier
/// order.
#[derive(Clone, Debug, PartialEq)]
pub struct DominanceFact {
    /// The immediate dominator of this node (None for roots).
    pub idom: Option<NodeId>,
    /// Nodes dominated by this node in the dominator tree.
    pub dominates: Vec<NodeId>,
    /// Nodes that dominate this node.
    pub dominators: Vec<NodeId>,
    /// Children in the dominator tree.
    pub dom_tree_children: Vec<NodeId>,
}

// ── Loops ────────────────────────────────────────────────────────────────

/// A reduction variable detected in a loop.
#[derive(Clone, Debug, PartialEq)]
pub struct ReductionVar {
    /// The carried variable.
    pub variable: NodeId,
    /// The kind of reduction ("sum", "product", "bitwise_and",
    /// "bitwise_or", "bitwise_xor").
    pub reduction_kind: String,
    /// The loop-invariant value combined in each iteration.
    pub invariant_value: NodeId,
}

/// Loop facts.
#[derive(Clone, Debug, PartialEq)]
pub struct LoopFact {
    /// Whether the loop is known to terminate.
    pub is_finite: bool,
    /// Known trip count, if statically determinable.
    pub trip_count: Option<u64>,
    /// Whether the loop's body holds another loop.
    pub is_nested: bool,
    /// Carried variables (values passed from one iteration to the next).
    pub carried: Vec<NodeId>,
    /// Reduction variables detected in the loop.
    pub reductions: Vec<ReductionVar>,
}

// ── Value numbering ──────────────────────────────────────────────────────

/// Value numbering facts.
#[derive(Clone, Copy, Debug, PartialEq, Eq)]
pub struct ValueNumberFact {
    /// The congruence class identifier.
    pub congruence_class: u64,
    /// The canonical representative of this class: its member with the
    /// smallest `NodeId`.
    pub canonical: NodeId,
}

} // verus!
