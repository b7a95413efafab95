//! The dataflow IR the analyses read: nodes identified by `NodeId`, each
//! with a kind naming its operands, held in an arena.
use vstd::prelude::*;
use crate::facts::ConstantData;
use crate::h3::CmpOperator;
use crate::text::{decimal, push_decimal};

verus! {

/// Identifier of a node in a function's arena.
#[derive(Clone, Copy, Debug, PartialEq, Eq, Structural, Hash, PartialOrd, Ord)]
pub struct NodeId {
    pub id: u64,
}

impl NodeId {
    pub fn new(id: u64) -> (n: Self)
        ensures
            n.id == id,
    {
        NodeId { id }
    }

    pub fn as_u64(&self) -> (v: u64)
        ensures
            v == self.id,
    {
        self.id
    }
}

/// The width of an integer type.
#[derive(Clone, Copy, Debug, PartialEq, Eq, Structural)]
pub enum IntWidth {
    I8,
    I16,
    I32,
    I64,
    I128,
}

/// The number of bits of an integer width.
pub open spec fn width_bits(w: IntWidth) -> nat {
    match w {
        IntWidth::I8 => 8,
        IntWidth::I16 => 16,
        IntWidth::I32 => 32,
        IntWidth::I64 => 64,
        IntWidth::I128 => 128,
    }
}

/// The type of an element of an array or slice, or of what a pointer
/// points to.
#[derive(Clone, Copy, Debug, PartialEq, Eq, Structural)]
pub enum ElemTy {
    Unit,
    Bool,
    Integer { width: IntWidth, signed: bool },
    BitVector { width: u32 },
    Other,
}

/// The type of a value.
#[derive(Clone, Copy, Debug, PartialEq, Eq, Structural)]
pub enum IrType {
    Unit,
    Bool,
    Integer { width: IntWidth, signed: bool },
    /// A packed bit mask of `width` bits.
    BitVector { width: u32 },
    Array { element: ElemTy, length: u64 },
    Slice { element: ElemTy },
    Pointer { pointee: ElemTy, mutable: bool },
    /// Any type the analyses and emitters do not look into.
    Other,
}

/// An element type as a type of its own.
pub open spec fn elem_as_type(e: ElemTy) -> IrType {
    match e {
        ElemTy::Unit => IrType::Unit,
        ElemTy::Bool => IrType::Bool,
        ElemTy::Integer { width, signed } => IrType::Integer { width, signed },
        ElemTy::BitVector { width } => IrType::BitVector { width },
        ElemTy::Other => IrType::Other,
    }
}

/// An element type as a type of its own (see `elem_as_type`).
pub fn elem_as_type_exec(e: ElemTy) -> (t: IrType)
    ensures
        t == elem_as_type(e),
{
    match e {
        ElemTy::Unit => IrType::Unit,
        ElemTy::Bool => IrType::Bool,
        ElemTy::Integer { width, signed } => IrType::Integer { width, signed },
        ElemTy::BitVector { width } => IrType::BitVector { width },
        ElemTy::Other => IrType::Other,
    }
}

/// The name of a type without components.
pub open spec fn scalar_text(t: IrType) -> Seq<char> {
    match t {
        IrType::Unit => "()"@,
        IrType::Bool => "bool"@,
        IrType::Integer { width, signed } => (if signed { "i"@ } else { "u"@ }) + decimal(width_bits(width)),
        IrType::BitVector { width } => "bv"@ + decimal(width as nat),
        _ => "?"@,
    }
}

/// The name of a type, as it enters a function's fingerprint: `bool`,
/// `u8` … `i128`, `bv<width>`, `[T; n]`, `[T]`, `*const T` / `*mut T`,
/// `()` and `?` for any other type.
pub open spec fn ty_text(t: IrType) -> Seq<char> {
    match t {
        IrType::Array { element, length } => "["@ + scalar_text(elem_as_type(element)) + "; "@ + decimal(
            length as nat,
        ) + "]"@,
        IrType::Slice { element } => "["@ + scalar_text(elem_as_type(element)) + "]"@,
        IrType::Pointer { pointee, mutable } => (if mutable { "*mut "@ } else { "*const "@ }) + scalar_text(
            elem_as_type(pointee),
        ),
        _ => scalar_text(t),
    }
}

fn width_bits_exec(w: IntWidth) -> (b: u64)
    ensures
        b as nat == width_bits(w),
{
    match w {
        IntWidth::I8 => 8,
        IntWidth::I16 => 16,
        IntWidth::I32 => 32,
        IntWidth::I64 => 64,
        IntWidth::I128 => 128,
    }
}

fn push_scalar_text(s: &mut String, t: IrType)
    ensures
        final(s)@ == old(s)@ + scalar_text(t),
{
    let ghost s0 = s@;
    match t {
        IrType::Unit => s.append("()"),
        IrType::Bool => s.append("bool"),
        IrType::Integer { width, signed } => {
            if signed {
                s.append("i");
            } else {
                s.append("u");
            }
            push_decimal(s, width_bits_exec(width));
        },
        IrType::BitVector { width } => {
            s.append("bv");
            push_decimal(s, width as u64);
        },
        _ => s.append("?"),
    }
    assert(s@ =~= s0 + scalar_text(t));
}

/// Appends the name of a type (see `ty_text`).
pub fn push_ty_text(s: &mut String, t: &IrType)
    ensures
        final(s)@ == old(s)@ + ty_text(*t),
{
    let ghost s0 = s@;
    match *t {
        IrType::Array { element, length } => {
            s.append("[");
            push_scalar_text(s, elem_as_type_exec(element));
            s.append("; ");
            push_decimal(s, length);
            s.append("]");
        },
        IrType::Slice { element } => {
            s.append("[");
            push_scalar_text(s, elem_as_type_exec(element));
            s.append("]");
        },
        IrType::Pointer { pointee, mutable } => {
            if mutable {
                s.append("*mut ");
            } else {
                s.append("*const ");
            }
            push_scalar_text(s, elem_as_type_exec(pointee));
        },
        _ => push_scalar_text(s, *t),
    }
    assert(s@ =~= s0 + ty_text(*t));
}

/// What a node computes, with the nodes it reads.
///
/// A `Loop` contains its `body` and `outputs`; only its `termination`
/// condition and `carried_inputs` are dataflow operands.
#[derive(Clone, Debug)]
pub enum NodeKind {
    Constant(ConstantData),
    Parameter { index: usize },
    Add { lhs: NodeId, rhs: NodeId },
    Sub { lhs: NodeId, rhs: NodeId },
    Mul { lhs: NodeId, rhs: NodeId },
    Div { lhs: NodeId, rhs: NodeId },
    Rem { lhs: NodeId, rhs: NodeId },
    And { lhs: NodeId, rhs: NodeId },
    Or { lhs: NodeId, rhs: NodeId },
    Xor { lhs: NodeId, rhs: NodeId },
    Shl { lhs: NodeId, rhs: NodeId },
    Shr { lhs: NodeId, rhs: NodeId },
    Rol { lhs: NodeId, rhs: NodeId },
    Ror { lhs: NodeId, rhs: NodeId },
    Eq { lhs: NodeId, rhs: NodeId },
    Ne { lhs: NodeId, rhs: NodeId },
    Lt { lhs: NodeId, rhs: NodeId },
    Le { lhs: NodeId, rhs: NodeId },
    Gt { lhs: NodeId, rhs: NodeId },
    Ge { lhs: NodeId, rhs: NodeId },
    BoolAnd { lhs: NodeId, rhs: NodeId },
    BoolOr { lhs: NodeId, rhs: NodeId },
    Neg { operand: NodeId },
    Not { operand: NodeId },
    Popcount { operand: NodeId },
    LeadingZeros { operand: NodeId },
    TrailingZeros { operand: NodeId },
    BoolNot { operand: NodeId },
    Pack { array: NodeId },
    Select { cond: NodeId, true_val: NodeId, false_val: NodeId },
    Load { ptr: NodeId },
    Store { ptr: NodeId, value: NodeId },
    /// Allocates `count` values of the type named `ty`.
    Allocate { ty: String, count: NodeId },
    Deallocate { ptr: NodeId },
    /// Reads the field named `field` of `base`.
    FieldAccess { base: NodeId, field: String },
    ArrayAccess { base: NodeId, index: NodeId },
    Call { callee: NodeId, args: Vec<NodeId> },
    /// Calls the intrinsic named `name`.
    Intrinsic { name: String, args: Vec<NodeId> },
    /// Calls the external function named `name`.
    ExternalCall { name: String, args: Vec<NodeId> },
    Loop { body: Vec<NodeId>, termination: NodeId, outputs: Vec<NodeId>, carried_inputs: Vec<NodeId> },
    Iterator { collection: NodeId },
    /// Compares each element of `array` with `scalar` by `op`, giving a bit mask.
    ArrayCmpMask { array: NodeId, scalar: NodeId, op: CmpOperator },
    /// Converts an integer to the node's own type.
    Convert { operand: NodeId, kind: ConvertKind },
    /// Element `index` of a tuple value.
    TupleExtract { tuple: NodeId, index: usize },
    Return { value: NodeId },
}

/// How an integer conversion fills or drops bits.
#[derive(Clone, Copy, Debug, PartialEq, Eq, Structural)]
pub enum ConvertKind {
    ZeroExtend,
    SignExtend,
    Truncate,
}

/// The side effects a node may have.
#[derive(Clone, Copy, Debug, PartialEq, Eq, Structural)]
pub struct Effects {
    pub read_memory: bool,
    pub write_memory: bool,
    pub allocate: bool,
    pub io: bool,
    pub atomic: bool,
    /// Any other effect (such as a possible trap).
    pub other: bool,
}

impl Effects {
    /// Whether there is no effect at all.
    pub open spec fn spec_is_pure(self) -> bool {
        !self.read_memory && !self.write_memory && !self.allocate && !self.io && !self.atomic && !self.other
    }

    /// No effect.
    pub fn none() -> (e: Self)
        ensures
            e.spec_is_pure(),
    {
        Effects { read_memory: false, write_memory: false, allocate: false, io: false, atomic: false, other: false }
    }

    /// Whether there is no effect at all.
    pub fn is_pure(&self) -> (b: bool)
        ensures
            b == self.spec_is_pure(),
    {
        !self.read_memory && !self.write_memory && !self.allocate && !self.io && !self.atomic && !self.other
    }
}

/// A node of the arena.
#[derive(Clone, Debug)]
pub struct Node {
    pub id: NodeId,
    pub kind: NodeKind,
    /// The type of the value it produces.
    pub ty: IrType,
    /// The side effects of this node alone.
    pub effects: Effects,
}

/// A parameter of a function.
#[derive(Clone, Debug)]
pub struct Param {
    /// Its name; an unnamed value is written `%N`.
    pub name: String,
    /// Its type.
    pub ty: IrType,
}

/// A function: its name, its parameters, its nodes, and its return node.
#[derive(Clone, Debug)]
pub struct Function {
    pub name: String,
    pub params: Vec<Param>,
    /// The nodes, each identifier at most once.
    pub arena: Vec<Node>,
    pub return_node: Option<NodeId>,
    /// Its return type.
    pub return_ty: IrType,
}

/// Whether no identifier occurs twice among `nodes`.
pub open spec fn distinct_ids(nodes: Seq<Node>) -> bool {
    forall|i: int, j: int| 0 <= i < j < nodes.len() ==> nodes[i].id != nodes[j].id
}

/// Position of the node `id` in `nodes`, from position `i` on.
pub open spec fn position_of(nodes: Seq<Node>, id: NodeId, i: int) -> Option<int>
    decreases nodes.len() - i,
{
    if i < 0 || i >= nodes.len() {
        None
    } else if nodes[i].id == id {
        Some(i)
    } else {
        position_of(nodes, id, i + 1)
    }
}

/// The kind of node `id`, if the arena holds it.
pub open spec fn kind_of(nodes: Seq<Node>, id: NodeId) -> Option<NodeKind> {
    match position_of(nodes, id, 0) {
        Some(i) => Some(nodes[i].kind),
        None => None,
    }
}

pub proof fn lemma_position_of(nodes: Seq<Node>, id: NodeId, i: int)
    requires
        0 <= i,
    ensures
        position_of(nodes, id, i) matches Some(k) ==> i <= k < nodes.len() && nodes[k].id == id,
        position_of(nodes, id, i) is None ==> forall|k: int| i <= k < nodes.len() ==> nodes[k].id != id,
    decreases nodes.len() - i,
{
    if i < nodes.len() && nodes[i].id != id {
        lemma_position_of(nodes, id, i + 1);
    }
}

/// In an arena without repeated identifiers, the node at position `k` is
/// the one its identifier finds.
pub proof fn lemma_kind_at(nodes: Seq<Node>, k: int)
    requires
        distinct_ids(nodes),
        0 <= k < nodes.len(),
    ensures
        position_of(nodes, nodes[k].id, 0) == Some(k),
        kind_of(nodes, nodes[k].id) == Some(nodes[k].kind),
{
    lemma_position_of(nodes, nodes[k].id, 0);
}

/// The node with identifier `id` in `arena`, with its position.
pub fn find_node(arena: &Vec<Node>, id: NodeId) -> (r: Option<usize>)
    ensures
        match r {
            Some(k) => position_of(arena@, id, 0) == Some(k as int) && k < arena@.len() && arena@[k as int].id
                == id,
            None => position_of(arena@, id, 0) is None,
        },
{
    proof {
        lemma_position_of(arena@, id, 0);
    }
    let mut i: usize = 0;
    while i < arena.len()
        invariant
            i <= arena@.len(),
            position_of(arena@, id, 0) == position_of(arena@, id, i as int),
        decreases arena@.len() - i,
    {
        if arena[i].id == id {
            return Some(i);
        }
        i += 1;
    }
    None
}

impl Function {
    /// The node with identifier `id`, if the arena holds it.
    pub fn get_node(&self, id: NodeId) -> (r: Option<&Node>)
        ensures
            match r {
                Some(n) => position_of(self.arena@, id, 0) matches Some(k) && *n == self.arena@[k]
                    && n.id == id,
                None => position_of(self.arena@, id, 0) is None,
            },
    {
        match find_node(&self.arena, id) {
            Some(k) => Some(&self.arena[k]),
            None => None,
        }
    }
}

} // verus!
