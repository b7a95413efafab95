//! Expressions of the C emitter: the C type of an IR type, the literal of a
//! constant, and the C expression of a node, its operands written as
//! parameter names, inlined constants, carried-value variables or `v<id>`
//! statement variables.
use vstd::prelude::*;
use crate::facts::{ConstantData, spec_as_i64, spec_as_u64};
use crate::h3::CmpOperator;
use crate::ir::{ElemTy, Function, IntWidth, IrType, Node, NodeId, NodeKind, Param, elem_as_type, elem_as_type_exec, width_bits};
use crate::text::{chars_of, decimal, owned, push_decimal};
use crate::visit::node_of;

verus! {

// ── Types ───────────────────────────────────────────────────────────────

/// The digits of an integer width in a C type name (`int128` has no C
/// type and is written as 64 bits).
pub open spec fn width_digits(w: IntWidth) -> Seq<char> {
    match w {
        IntWidth::I8 => "8"@,
        IntWidth::I16 => "16"@,
        IntWidth::I32 => "32"@,
        IntWidth::I64 => "64"@,
        IntWidth::I128 => "64"@,
    }
}

/// The C type of a type without components.
pub open spec fn scalar_c_text(t: IrType) -> Seq<char> {
    match t {
        IrType::Bool => "bool"@,
        IrType::Integer { width, signed } => (if signed { "int"@ } else { "uint"@ }) + width_digits(width) + "_t"@,
        IrType::Unit => "void"@,
        IrType::BitVector { .. } => "sir_bv"@,
        _ => "void"@,
    }
}

/// The C type of a type: `bool`, `[u]int<N>_t`, `void`, `T *` or
/// `const T *` for a pointer, `T[n]` for an array, `sir_bv` for a bit mask,
/// `void` for anything else.
pub open spec fn c_type_text(t: IrType) -> Seq<char> {
    match t {
        IrType::Pointer { pointee, mutable } => if mutable {
            scalar_c_text(elem_as_type(pointee)) + " *"@
        } else {
            "const "@ + scalar_c_text(elem_as_type(pointee)) + " *"@
        },
        IrType::Array { element, length } => scalar_c_text(elem_as_type(element)) + "["@ + decimal(length as nat)
            + "]"@,
        _ => scalar_c_text(t),
    }
}

fn push_width_digits(s: &mut String, w: IntWidth)
    ensures
        final(s)@ == old(s)@ + width_digits(w),
{
    match w {
        IntWidth::I8 => s.append("8"),
        IntWidth::I16 => s.append("16"),
        IntWidth::I32 => s.append("32"),
        IntWidth::I64 => s.append("64"),
        IntWidth::I128 => s.append("64"),
    }
}

fn push_scalar_c(s: &mut String, t: IrType)
    ensures
        final(s)@ == old(s)@ + scalar_c_text(t),
{
    let ghost s0 = s@;
    match t {
        IrType::Bool => s.append("bool"),
        IrType::Integer { width, signed } => {
            if signed {
                s.append("int");
            } else {
                s.append("uint");
            }
            push_width_digits(s, width);
            s.append("_t");
        },
        IrType::Unit => s.append("void"),
        IrType::BitVector { .. } => s.append("sir_bv"),
        _ => s.append("void"),
    }
    assert(s@ =~= s0 + scalar_c_text(t));
}

/// The C type of a type (see `c_type_text`).
pub fn c_type(ty: &IrType) -> (c: String)
    ensures
        c@ == c_type_text(*ty),
{
    let mut s = String::new();
    match *ty {
        IrType::Pointer { pointee, mutable } => {
            if !mutable {
                s.append("const ");
            }
            push_scalar_c(&mut s, elem_as_type_exec(pointee));
            s.append(" *");
        },
        IrType::Array { element, length } => {
            push_scalar_c(&mut s, elem_as_type_exec(element));
            s.append("[");
            push_decimal(&mut s, length);
            s.append("]");
        },
        _ => push_scalar_c(&mut s, *ty),
    }
    assert(s@ =~= c_type_text(*ty));
    s
}

/// The width a bit-count builtin works on: 32 bits up to `int32`, 64 above.
pub open spec fn count_width(t: IrType) -> Option<nat> {
    match t {
        IrType::Integer { width, .. } => Some(
            match width {
                IntWidth::I64 => 64nat,
                IntWidth::I128 => 64nat,
                _ => 32nat,
            },
        ),
        _ => None,
    }
}

/// The size in bytes of an integer element.
pub open spec fn elem_bytes(e: ElemTy) -> Option<nat> {
    match e {
        ElemTy::Integer { width, .. } => Some(
            match width {
                IntWidth::I8 => 1nat,
                IntWidth::I16 => 2nat,
                IntWidth::I32 => 4nat,
                IntWidth::I64 => 8nat,
                IntWidth::I128 => 16nat,
            },
        ),
        _ => None,
    }
}

// ── Constants ───────────────────────────────────────────────────────────

/// The decimal text of a signed 64-bit value.
pub open spec fn i64_text(v: i64) -> Seq<char> {
    if v < 0 {
        "-"@ + decimal((-v) as nat)
    } else {
        decimal(v as nat)
    }
}

fn push_i64(s: &mut String, v: i64)
    ensures
        final(s)@ == old(s)@ + i64_text(v),
{
    if v < 0 {
        s.append("-");
        let m: i128 = -(v as i128);
        push_decimal(s, m as u64);
    } else {
        push_decimal(s, v as u64);
    }
}

/// An optional value, or 0.
pub open spec fn or_zero<T>(o: Option<T>, zero: T) -> T {
    match o {
        Some(v) => v,
        None => zero,
    }
}

/// The C literal of a constant of type `ty`: `(<v>)` for a signed integer,
/// `(<v>ULL)` for an unsigned one (0 when the value does not fit 64 bits),
/// `true`/`false` for a boolean, a one-word `sir_bv` for a bit mask, `0`
/// otherwise.
pub open spec fn constant_literal_text(data: ConstantData, ty: IrType) -> Seq<char> {
    match ty {
        IrType::Integer { signed, .. } => if signed {
            "("@ + i64_text(or_zero(spec_as_i64(data), 0i64)) + ")"@
        } else {
            "("@ + decimal(or_zero(spec_as_u64(data), 0u64) as nat) + "ULL)"@
        },
        IrType::Bool => if or_zero(spec_as_u64(data), 0u64) != 0 {
            "true"@
        } else {
            "false"@
        },
        IrType::BitVector { .. } => "((sir_bv){ .w = { (uint64_t)"@ + decimal(or_zero(spec_as_u64(data), 0u64) as nat)
            + "ULL } })"@,
        _ => "0"@,
    }
}

/// The C literal of a constant (see `constant_literal_text`).
pub fn constant_literal(data: &ConstantData, ty: &IrType) -> (s: String)
    ensures
        s@ == constant_literal_text(*data, *ty),
{
    let u: u64 = match data.as_u64() {
        Some(v) => v,
        None => 0,
    };
    match *ty {
        IrType::Integer { signed, .. } => {
            if signed {
                let v: i64 = match data.as_i64() {
                    Some(v) => v,
                    None => 0,
                };
                let mut s = owned("(");
                push_i64(&mut s, v);
                s.append(")");
                s
            } else {
                let mut s = owned("(");
                push_decimal(&mut s, u);
                s.append("ULL)");
                s
            }
        },
        IrType::Bool => if u != 0 {
            owned("true")
        } else {
            owned("false")
        },
        IrType::BitVector { .. } => {
            let mut s = owned("((sir_bv){ .w = { (uint64_t)");
            push_decimal(&mut s, u);
            s.append("ULL } })");
            s
        },
        _ => owned("0"),
    }
}

// ── Operands ────────────────────────────────────────────────────────────

/// The carried-value variables: each node standing for a carried value,
/// with its variable's name.
pub open spec fn carrier_views(c: Seq<(NodeId, String)>) -> Seq<(NodeId, Seq<char>)> {
    c.map_values(|p: (NodeId, String)| (p.0, p.1@))
}

/// The variable of the first carrier entry for `id`, if any.
pub open spec fn carrier_of(c: Seq<(NodeId, Seq<char>)>, id: NodeId) -> Option<Seq<char>>
    decreases c.len(),
{
    if c.len() == 0 {
        None
    } else if c[0].0 == id {
        Some(c[0].1)
    } else {
        carrier_of(c.drop_first(), id)
    }
}

/// The C name of parameter `idx`: its own name, or `p<idx>` when the name
/// is an unnamed `%N` value or there is no such parameter.
pub open spec fn param_text(params: Seq<Param>, idx: nat) -> Seq<char> {
    if idx < params.len() && !(params[idx as int].name@.len() > 0 && params[idx as int].name@[0] == '%') {
        params[idx as int].name@
    } else {
        "p"@ + decimal(idx)
    }
}

/// The C text of an operand: its carried-value variable; a parameter's
/// name (parameter nodes are numbered by their position); an inlined
/// constant; `v<id>` for any other node; a comment and `0` for a node that
/// is not in the arena.
pub open spec fn operand_text(f: Function, c: Seq<(NodeId, Seq<char>)>, id: NodeId) -> Seq<char> {
    match carrier_of(c, id) {
        Some(name) => name,
        None => match node_of(f.arena@, id) {
            None => "/* missing "@ + decimal(id.id as nat) + " */ 0"@,
            Some(n) => match n.kind {
                NodeKind::Parameter { .. } => param_text(f.params@, n.id.id as nat),
                NodeKind::Constant(d) => constant_literal_text(d, n.ty),
                _ => "v"@ + decimal(id.id as nat),
            },
        },
    }
}

fn carrier_lookup(c: &Vec<(NodeId, String)>, id: NodeId) -> (r: Option<String>)
    ensures
        match r {
            Some(s) => carrier_of(carrier_views(c@), id) == Some(s@),
            None => carrier_of(carrier_views(c@), id) is None,
        },
{
    let ghost cv = carrier_views(c@);
    let mut i: usize = 0;
    assert(cv.subrange(0, cv.len() as int) =~= cv);
    while i < c.len()
        invariant
            cv == carrier_views(c@),
            i <= c@.len(),
            carrier_of(cv, id) == carrier_of(cv.subrange(i as int, cv.len() as int), id),
        decreases c@.len() - i,
    {
        let ghost rest = cv.subrange(i as int, cv.len() as int);
        assert(rest.drop_first() =~= cv.subrange(i + 1, cv.len() as int));
        assert(rest[0] == cv[i as int]);
        if c[i].0 == id {
            let name = owned(c[i].1.as_str());
            return Some(name);
        }
        i += 1;
    }
    None
}

fn param_name(params: &Vec<Param>, idx: u64) -> (s: String)
    ensures
        s@ == param_text(params@, idx as nat),
{
    if idx < params.len() as u64 {
        let p = &params[idx as usize];
        let cs = chars_of(p.name.as_str());
        if !(cs.len() > 0 && cs[0] == '%') {
            return owned(p.name.as_str());
        }
    }
    let mut s = owned("p");
    push_decimal(&mut s, idx);
    s
}

/// The C text of an operand (see `operand_text`).
pub fn emit_operand(f: &Function, carriers: &Vec<(NodeId, String)>, id: NodeId) -> (s: String)
    ensures
        s@ == operand_text(*f, carrier_views(carriers@), id),
{
    match carrier_lookup(carriers, id) {
        Some(name) => name,
        None => match f.get_node(id) {
            None => {
                let mut s = owned("/* missing ");
                push_decimal(&mut s, id.id);
                s.append(" */ 0");
                s
            },
            Some(n) => match &n.kind {
                NodeKind::Parameter { .. } => param_name(&f.params, n.id.id),
                NodeKind::Constant(d) => constant_literal(d, &n.ty),
                _ => {
                    let mut s = owned("v");
                    push_decimal(&mut s, id.id);
                    s
                },
            },
        },
    }
}

// ── Expressions ─────────────────────────────────────────────────────────

/// The type of the node `id`, if the arena holds it.
pub open spec fn node_ty(f: Function, id: NodeId) -> Option<IrType> {
    match node_of(f.arena@, id) {
        Some(n) => Some(n.ty),
        None => None,
    }
}

/// `(<lhs><op><rhs>)`.
pub open spec fn binop_text(f: Function, c: Seq<(NodeId, Seq<char>)>, lhs: NodeId, op: Seq<char>, rhs: NodeId) -> Seq<
    char,
> {
    "("@ + operand_text(f, c, lhs) + op + operand_text(f, c, rhs) + ")"@
}

/// `<name>(<a>, <b>)`.
pub open spec fn call2_text(f: Function, c: Seq<(NodeId, Seq<char>)>, name: Seq<char>, a: NodeId, b: NodeId) -> Seq<
    char,
> {
    name + "("@ + operand_text(f, c, a) + ", "@ + operand_text(f, c, b) + ")"@
}

/// A bit count (`popcount`, `clz` or `ctz`): the bit-mask helper on a bit
/// mask operand (with its width for `clz`/`ctz`), otherwise the 32- or
/// 64-bit builtin by the operand's integer width (32 when it has none).
pub open spec fn bitcount_text(
    f: Function,
    c: Seq<(NodeId, Seq<char>)>,
    operand: NodeId,
    bv_name: Seq<char>,
    with_width: bool,
    builtin: Seq<char>,
) -> Seq<char> {
    let o = operand_text(f, c, operand);
    match node_ty(f, operand) {
        Some(IrType::BitVector { width }) => if with_width {
            bv_name + "("@ + o + ", "@ + decimal(width as nat) + "u)"@
        } else {
            bv_name + "("@ + o + ")"@
        },
        t => {
            let w = match t {
                Some(ty) => or_zero(count_width(ty), 32nat),
                None => 32nat,
            };
            builtin + (if w <= 32 { ""@ } else { "ll"@ }) + "("@ + o + ")"@
        },
    }
}

/// Whether the node `id` is a bit mask.
pub open spec fn is_bitvector_node(f: Function, id: NodeId) -> bool {
    node_ty(f, id) matches Some(IrType::BitVector { .. })
}

/// The helper's code for a comparison operator.
pub open spec fn op_code(op: CmpOperator) -> nat {
    match op {
        CmpOperator::Eq => 0,
        CmpOperator::Ne => 1,
        CmpOperator::Lt => 2,
        CmpOperator::Le => 3,
        CmpOperator::Gt => 4,
        CmpOperator::Ge => 5,
    }
}

/// The element size and length of an array operand: `(1, 0)` when it is
/// not an array, size 1 when the element is not an integer.
pub open spec fn array_shape(f: Function, id: NodeId) -> (nat, nat) {
    match node_ty(f, id) {
        Some(IrType::Array { element, length }) => (or_zero(elem_bytes(element), 1nat), length as nat),
        _ => (1, 0),
    }
}

/// The C expression of a node.
pub open spec fn expr_text(f: Function, c: Seq<(NodeId, Seq<char>)>, node: Node) -> Seq<char> {
    match node.kind {
        NodeKind::Parameter { .. } => operand_text(f, c, node.id),
        NodeKind::Constant(d) => constant_literal_text(d, node.ty),
        NodeKind::Add { lhs, rhs } => binop_text(f, c, lhs, " + "@, rhs),
        NodeKind::Sub { lhs, rhs } => binop_text(f, c, lhs, " - "@, rhs),
        NodeKind::Mul { lhs, rhs } => binop_text(f, c, lhs, " * "@, rhs),
        NodeKind::Div { lhs, rhs } => binop_text(f, c, lhs, " / "@, rhs),
        NodeKind::Rem { lhs, rhs } => binop_text(f, c, lhs, " % "@, rhs),
        NodeKind::And { lhs, rhs } => binop_text(f, c, lhs, " & "@, rhs),
        NodeKind::Or { lhs, rhs } => binop_text(f, c, lhs, " | "@, rhs),
        NodeKind::Xor { lhs, rhs } => binop_text(f, c, lhs, " ^ "@, rhs),
        NodeKind::Shl { lhs, rhs } => binop_text(f, c, lhs, " << "@, rhs),
        NodeKind::Shr { lhs, rhs } => binop_text(f, c, lhs, " >> "@, rhs),
        NodeKind::Not { operand } => "(~"@ + operand_text(f, c, operand) + ")"@,
        NodeKind::Popcount { operand } => bitcount_text(
            f,
            c,
            operand,
            "__sir_bv_popcount"@,
            false,
            "__builtin_popcount"@,
        ),
        NodeKind::LeadingZeros { operand } => bitcount_text(f, c, operand, "__sir_bv_clz"@, true, "__builtin_clz"@),
        NodeKind::TrailingZeros { operand } => bitcount_text(f, c, operand, "__sir_bv_ctz"@, true, "__builtin_ctz"@),
        NodeKind::Eq { lhs, rhs } => if is_bitvector_node(f, lhs) {
            call2_text(f, c, "__sir_bv_eq"@, lhs, rhs)
        } else {
            binop_text(f, c, lhs, " == "@, rhs)
        },
        NodeKind::Ne { lhs, rhs } => if is_bitvector_node(f, lhs) {
            call2_text(f, c, "__sir_bv_ne"@, lhs, rhs)
        } else {
            binop_text(f, c, lhs, " != "@, rhs)
        },
        NodeKind::ArrayCmpMask { array, scalar, op } => "__sir_mask_cmp((const uint8_t *)"@ + operand_text(
            f,
            c,
            array,
        ) + ", "@ + decimal(array_shape(f, array).1) + "u, "@ + decimal(array_shape(f, array).0) + "u, (uint64_t)("@
            + operand_text(f, c, scalar) + "), "@ + decimal(op_code(op)) + ")"@,
        NodeKind::Pack { array } => "__sir_pack_bools((const bool *)"@ + operand_text(f, c, array) + ", "@ + decimal(
            array_shape(f, array).1,
        ) + "u)"@,
        NodeKind::Lt { lhs, rhs } => binop_text(f, c, lhs, " < "@, rhs),
        NodeKind::Le { lhs, rhs } => binop_text(f, c, lhs, " <= "@, rhs),
        NodeKind::Gt { lhs, rhs } => binop_text(f, c, lhs, " > "@, rhs),
        NodeKind::Ge { lhs, rhs } => binop_text(f, c, lhs, " >= "@, rhs),
        NodeKind::Select { cond, true_val, false_val } => "("@ + operand_text(f, c, cond) + " ? "@ + operand_text(
            f,
            c,
            true_val,
        ) + " : "@ + operand_text(f, c, false_val) + ")"@,
        NodeKind::ArrayAccess { base, index } => operand_text(f, c, base) + "["@ + operand_text(f, c, index) + "]"@,
        NodeKind::Convert { operand, .. } => "(("@ + c_type_text(node.ty) + ") "@ + operand_text(f, c, operand) + ")"@,
        NodeKind::TupleExtract { index, .. } => "o_"@ + decimal(index as nat),
        _ => "0"@,
    }
}

fn binop(f: &Function, c: &Vec<(NodeId, String)>, lhs: NodeId, op: &str, rhs: NodeId) -> (s: String)
    ensures
        s@ == binop_text(*f, carrier_views(c@), lhs, op@, rhs),
{
    let mut s = owned("(");
    s.append(emit_operand(f, c, lhs).as_str());
    s.append(op);
    s.append(emit_operand(f, c, rhs).as_str());
    s.append(")");
    s
}

fn call2(f: &Function, c: &Vec<(NodeId, String)>, name: &str, a: NodeId, b: NodeId) -> (s: String)
    ensures
        s@ == call2_text(*f, carrier_views(c@), name@, a, b),
{
    let mut s = owned(name);
    s.append("(");
    s.append(emit_operand(f, c, a).as_str());
    s.append(", ");
    s.append(emit_operand(f, c, b).as_str());
    s.append(")");
    s
}

fn ty_of(f: &Function, id: NodeId) -> (t: Option<IrType>)
    ensures
        t == node_ty(*f, id),
{
    match f.get_node(id) {
        Some(n) => Some(n.ty),
        None => None,
    }
}

fn count_width_exec(t: IrType) -> (w: Option<u64>)
    ensures
        match w {
            Some(v) => count_width(t) == Some(v as nat),
            None => count_width(t) is None,
        },
{
    match t {
        IrType::Integer { width, .. } => Some(
            match width {
                IntWidth::I64 => 64,
                IntWidth::I128 => 64,
                _ => 32,
            },
        ),
        _ => None,
    }
}

fn bitcount(
    f: &Function,
    c: &Vec<(NodeId, String)>,
    operand: NodeId,
    bv_name: &str,
    with_width: bool,
    builtin: &str,
) -> (s: String)
    ensures
        s@ == bitcount_text(*f, carrier_views(c@), operand, bv_name@, with_width, builtin@),
{
    let o = emit_operand(f, c, operand);
    let t = ty_of(f, operand);
    match t {
        Some(IrType::BitVector { width }) => {
            let mut s = owned(bv_name);
            s.append("(");
            s.append(o.as_str());
            if with_width {
                s.append(", ");
                push_decimal(&mut s, width as u64);
                s.append("u)");
            } else {
                s.append(")");
            }
            assert(s@ =~= bitcount_text(*f, carrier_views(c@), operand, bv_name@, with_width, builtin@));
            s
        },
        _ => {
            let w: u64 = match t {
                Some(ty) => match count_width_exec(ty) {
                    Some(v) => v,
                    None => 32,
                },
                None => 32,
            };
            proof {
                reveal_strlit("");
            }
            let mut s = owned(builtin);
            if w > 32 {
                s.append("ll");
            }
            s.append("(");
            s.append(o.as_str());
            s.append(")");
            assert(s@ =~= bitcount_text(*f, carrier_views(c@), operand, bv_name@, with_width, builtin@));
            s
        },
    }
}

fn elem_bytes_exec(e: ElemTy) -> (b: Option<u64>)
    ensures
        match b {
            Some(v) => elem_bytes(e) == Some(v as nat),
            None => elem_bytes(e) is None,
        },
{
    match e {
        ElemTy::Integer { width, .. } => Some(
            match width {
                IntWidth::I8 => 1,
                IntWidth::I16 => 2,
                IntWidth::I32 => 4,
                IntWidth::I64 => 8,
                IntWidth::I128 => 16,
            },
        ),
        _ => None,
    }
}

fn array_shape_exec(f: &Function, id: NodeId) -> (r: (u64, u64))
    ensures
        (r.0 as nat, r.1 as nat) == array_shape(*f, id),
{
    match ty_of(f, id) {
        Some(IrType::Array { element, length }) => {
            let b: u64 = match elem_bytes_exec(element) {
                Some(v) => v,
                None => 1,
            };
            (b, length)
        },
        _ => (1, 0),
    }
}

fn op_code_exec(op: CmpOperator) -> (n: u64)
    ensures
        n as nat == op_code(op),
{
    match op {
        CmpOperator::Eq => 0,
        CmpOperator::Ne => 1,
        CmpOperator::Lt => 2,
        CmpOperator::Le => 3,
        CmpOperator::Gt => 4,
        CmpOperator::Ge => 5,
    }
}

fn mask_compare(f: &Function, c: &Vec<(NodeId, String)>, array: NodeId, scalar: NodeId, op: CmpOperator) -> (s: String)
    ensures
        s@ == expr_text(*f, carrier_views(c@), Node { id: array, kind: NodeKind::ArrayCmpMask { array, scalar, op }, ty: IrType::Unit, effects: crate::ir::Effects { read_memory: false, write_memory: false, allocate: false, io: false, atomic: false, other: false } }),
{
    let (bytes, length) = array_shape_exec(f, array);
    let mut s = owned("__sir_mask_cmp((const uint8_t *)");
    s.append(emit_operand(f, c, array).as_str());
    s.append(", ");
    push_decimal(&mut s, length);
    s.append("u, ");
    push_decimal(&mut s, bytes);
    s.append("u, (uint64_t)(");
    s.append(emit_operand(f, c, scalar).as_str());
    s.append("), ");
    push_decimal(&mut s, op_code_exec(op));
    s.append(")");
    s
}

/// The C expression of a node (see `expr_text`), its operands written with
/// the given carried-value variables.
#[verifier::rlimit(40)]
pub fn emit_expr(f: &Function, carriers: &Vec<(NodeId, String)>, node: &Node) -> (s: String)
    ensures
        s@ == expr_text(*f, carrier_views(carriers@), *node),
{
    let c = carriers;
    match &node.kind {
        NodeKind::Parameter { .. } => emit_operand(f, c, node.id),
        NodeKind::Constant(d) => constant_literal(d, &node.ty),
        NodeKind::Add { lhs, rhs } => binop(f, c, *lhs, " + ", *rhs),
        NodeKind::Sub { lhs, rhs } => binop(f, c, *lhs, " - ", *rhs),
        NodeKind::Mul { lhs, rhs } => binop(f, c, *lhs, " * ", *rhs),
        NodeKind::Div { lhs, rhs } => binop(f, c, *lhs, " / ", *rhs),
        NodeKind::Rem { lhs, rhs } => binop(f, c, *lhs, " % ", *rhs),
        NodeKind::And { lhs, rhs } => binop(f, c, *lhs, " & ", *rhs),
        NodeKind::Or { lhs, rhs } => binop(f, c, *lhs, " | ", *rhs),
        NodeKind::Xor { lhs, rhs } => binop(f, c, *lhs, " ^ ", *rhs),
        NodeKind::Shl { lhs, rhs } => binop(f, c, *lhs, " << ", *rhs),
        NodeKind::Shr { lhs, rhs } => binop(f, c, *lhs, " >> ", *rhs),
        NodeKind::Not { operand } => {
            let mut s = owned("(~");
            s.append(emit_operand(f, c, *operand).as_str());
            s.append(")");
            s
        },
        NodeKind::Popcount { operand } => bitcount(f, c, *operand, "__sir_bv_popcount", false, "__builtin_popcount"),
        NodeKind::LeadingZeros { operand } => bitcount(f, c, *operand, "__sir_bv_clz", true, "__builtin_clz"),
        NodeKind::TrailingZeros { operand } => bitcount(f, c, *operand, "__sir_bv_ctz", true, "__builtin_ctz"),
        NodeKind::Eq { lhs, rhs } => match ty_of(f, *lhs) {
            Some(IrType::BitVector { .. }) => call2(f, c, "__sir_bv_eq", *lhs, *rhs),
            _ => binop(f, c, *lhs, " == ", *rhs),
        },
        NodeKind::Ne { lhs, rhs } => match ty_of(f, *lhs) {
            Some(IrType::BitVector { .. }) => call2(f, c, "__sir_bv_ne", *lhs, *rhs),
            _ => binop(f, c, *lhs, " != ", *rhs),
        },
        NodeKind::ArrayCmpMask { array, scalar, op } => mask_compare(f, c, *array, *scalar, *op),
        NodeKind::Pack { array } => {
            let (_, length) = array_shape_exec(f, *array);
            let mut s = owned("__sir_pack_bools((const bool *)");
            s.append(emit_operand(f, c, *array).as_str());
            s.append(", ");
            push_decimal(&mut s, length);
            s.append("u)");
            s
        },
        NodeKind::Lt { lhs, rhs } => binop(f, c, *lhs, " < ", *rhs),
        NodeKind::Le { lhs, rhs } => binop(f, c, *lhs, " <= ", *rhs),
        NodeKind::Gt { lhs, rhs } => binop(f, c, *lhs, " > ", *rhs),
        NodeKind::Ge { lhs, rhs } => binop(f, c, *lhs, " >= ", *rhs),
        NodeKind::Select { cond, true_val, false_val } => {
            let mut s = owned("(");
            s.append(emit_operand(f, c, *cond).as_str());
            s.append(" ? ");
            s.append(emit_operand(f, c, *true_val).as_str());
            s.append(" : ");
            s.append(emit_operand(f, c, *false_val).as_str());
            s.append(")");
            s
        },
        NodeKind::ArrayAccess { base, index } => {
            let mut s = emit_operand(f, c, *base);
            s.append("[");
            s.append(emit_operand(f, c, *index).as_str());
            s.append("]");
            s
        },
        NodeKind::Convert { operand, .. } => {
            let mut s = owned("((");
            s.append(c_type(&node.ty).as_str());
            s.append(") ");
            s.append(emit_operand(f, c, *operand).as_str());
            s.append(")");
            s
        },
        NodeKind::TupleExtract { index, .. } => {
            let mut s = owned("o_");
            push_decimal(&mut s, *index as u64);
            s
        },
        _ => owned("0"),
    }
}


/// `(<lhs> <op> <rhs>)`: the operator between single spaces, the whole in
/// round brackets.
pub open spec fn infix_text(f: Function, c: Seq<(NodeId, Seq<char>)>, lhs: NodeId, op: Seq<char>, rhs: NodeId) -> Seq<
    char,
> {
    seq!['('] + operand_text(f, c, lhs) + seq![' '] + op + seq![' '] + operand_text(f, c, rhs) + seq![')']
}

/// Each binary arithmetic, bitwise, shift and comparison node is written as
/// the C operator of its operation between its two operands: `+ - * / %`,
/// `& | ^ << >>`, `< <= > >=`, and `== !=` where the left operand is not a
/// bit mask.
pub proof fn law_infix_operators(f: Function, c: Seq<(NodeId, Seq<char>)>, node: Node)
    ensures
        node.kind matches NodeKind::Add { lhs, rhs } ==> expr_text(f, c, node) == infix_text(
            f,
            c,
            lhs,
            seq!['+'],
            rhs,
        ),
        node.kind matches NodeKind::Sub { lhs, rhs } ==> expr_text(f, c, node) == infix_text(
            f,
            c,
            lhs,
            seq!['-'],
            rhs,
        ),
        node.kind matches NodeKind::Mul { lhs, rhs } ==> expr_text(f, c, node) == infix_text(
            f,
            c,
            lhs,
            seq!['*'],
            rhs,
        ),
        node.kind matches NodeKind::Div { lhs, rhs } ==> expr_text(f, c, node) == infix_text(
            f,
            c,
            lhs,
            seq!['/'],
            rhs,
        ),
        node.kind matches NodeKind::Rem { lhs, rhs } ==> expr_text(f, c, node) == infix_text(
            f,
            c,
            lhs,
            seq!['%'],
            rhs,
        ),
        node.kind matches NodeKind::And { lhs, rhs } ==> expr_text(f, c, node) == infix_text(
            f,
            c,
            lhs,
            seq!['&'],
            rhs,
        ),
        node.kind matches NodeKind::Or { lhs, rhs } ==> expr_text(f, c, node) == infix_text(
            f,
            c,
            lhs,
            seq!['|'],
            rhs,
        ),
        node.kind matches NodeKind::Xor { lhs, rhs } ==> expr_text(f, c, node) == infix_text(
            f,
            c,
            lhs,
            seq!['^'],
            rhs,
        ),
        node.kind matches NodeKind::Shl { lhs, rhs } ==> expr_text(f, c, node) == infix_text(
            f,
            c,
            lhs,
            seq!['<', '<'],
            rhs,
        ),
        node.kind matches NodeKind::Shr { lhs, rhs } ==> expr_text(f, c, node) == infix_text(
            f,
            c,
            lhs,
            seq!['>', '>'],
            rhs,
        ),
        node.kind matches NodeKind::Lt { lhs, rhs } ==> expr_text(f, c, node) == infix_text(
            f,
            c,
            lhs,
            seq!['<'],
            rhs,
        ),
        node.kind matches NodeKind::Le { lhs, rhs } ==> expr_text(f, c, node) == infix_text(
            f,
            c,
            lhs,
            seq!['<', '='],
            rhs,
        ),
        node.kind matches NodeKind::Gt { lhs, rhs } ==> expr_text(f, c, node) == infix_text(
            f,
            c,
            lhs,
            seq!['>'],
            rhs,
        ),
        node.kind matches NodeKind::Ge { lhs, rhs } ==> expr_text(f, c, node) == infix_text(
            f,
            c,
            lhs,
            seq!['>', '='],
            rhs,
        ),
        node.kind matches NodeKind::Eq { lhs, rhs } ==> (!is_bitvector_node(f, lhs) ==> expr_text(f, c, node)
            == infix_text(f, c, lhs, seq!['=', '='], rhs)),
        node.kind matches NodeKind::Ne { lhs, rhs } ==> (!is_bitvector_node(f, lhs) ==> expr_text(f, c, node)
            == infix_text(f, c, lhs, seq!['!', '='], rhs)),
{
    match node.kind {
        NodeKind::Add { lhs, rhs } => {
            reveal_strlit(" + ");
            assert(" + "@ =~= seq![' '] + seq!['+'] + seq![' ']);
            lemma_binop_infix(f, c, lhs, " + "@, seq!['+'], rhs);
        },
        NodeKind::Sub { lhs, rhs } => {
            reveal_strlit(" - ");
            assert(" - "@ =~= seq![' '] + seq!['-'] + seq![' ']);
            lemma_binop_infix(f, c, lhs, " - "@, seq!['-'], rhs);
        },
        NodeKind::Mul { lhs, rhs } => {
            reveal_strlit(" * ");
            assert(" * "@ =~= seq![' '] + seq!['*'] + seq![' ']);
            lemma_binop_infix(f, c, lhs, " * "@, seq!['*'], rhs);
        },
        NodeKind::Div { lhs, rhs } => {
            reveal_strlit(" / ");
            assert(" / "@ =~= seq![' '] + seq!['/'] + seq![' ']);
            lemma_binop_infix(f, c, lhs, " / "@, seq!['/'], rhs);
        },
        NodeKind::Rem { lhs, rhs } => {
            reveal_strlit(" % ");
            assert(" % "@ =~= seq![' '] + seq!['%'] + seq![' ']);
            lemma_binop_infix(f, c, lhs, " % "@, seq!['%'], rhs);
        },
        NodeKind::And { lhs, rhs } => {
            reveal_strlit(" & ");
            assert(" & "@ =~= seq![' '] + seq!['&'] + seq![' ']);
            lemma_binop_infix(f, c, lhs, " & "@, seq!['&'], rhs);
        },
        NodeKind::Or { lhs, rhs } => {
            reveal_strlit(" | ");
            assert(" | "@ =~= seq![' '] + seq!['|'] + seq![' ']);
            lemma_binop_infix(f, c, lhs, " | "@, seq!['|'], rhs);
        },
        NodeKind::Xor { lhs, rhs } => {
            reveal_strlit(" ^ ");
            assert(" ^ "@ =~= seq![' '] + seq!['^'] + seq![' ']);
            lemma_binop_infix(f, c, lhs, " ^ "@, seq!['^'], rhs);
        },
        NodeKind::Shl { lhs, rhs } => {
            reveal_strlit(" << ");
            assert(" << "@ =~= seq![' '] + seq!['<', '<'] + seq![' ']);
            lemma_binop_infix(f, c, lhs, " << "@, seq!['<', '<'], rhs);
        },
        NodeKind::Shr { lhs, rhs } => {
            reveal_strlit(" >> ");
            assert(" >> "@ =~= seq![' '] + seq!['>', '>'] + seq![' ']);
            lemma_binop_infix(f, c, lhs, " >> "@, seq!['>', '>'], rhs);
        },
        NodeKind::Lt { lhs, rhs } => {
            reveal_strlit(" < ");
            assert(" < "@ =~= seq![' '] + seq!['<'] + seq![' ']);
            lemma_binop_infix(f, c, lhs, " < "@, seq!['<'], rhs);
        },
        NodeKind::Le { lhs, rhs } => {
            reveal_strlit(" <= ");
            assert(" <= "@ =~= seq![' '] + seq!['<', '='] + seq![' ']);
            lemma_binop_infix(f, c, lhs, " <= "@, seq!['<', '='], rhs);
        },
        NodeKind::Gt { lhs, rhs } => {
            reveal_strlit(" > ");
            assert(" > "@ =~= seq![' '] + seq!['>'] + seq![' ']);
            lemma_binop_infix(f, c, lhs, " > "@, seq!['>'], rhs);
        },
        NodeKind::Ge { lhs, rhs } => {
            reveal_strlit(" >= ");
            assert(" >= "@ =~= seq![' '] + seq!['>', '='] + seq![' ']);
            lemma_binop_infix(f, c, lhs, " >= "@, seq!['>', '='], rhs);
        },
        NodeKind::Eq { lhs, rhs } => {
            if !is_bitvector_node(f, lhs) {
                reveal_strlit(" == ");
                assert(" == "@ =~= seq![' '] + seq!['=', '='] + seq![' ']);
                lemma_binop_infix(f, c, lhs, " == "@, seq!['=', '='], rhs);
            }
        },
        NodeKind::Ne { lhs, rhs } => {
            if !is_bitvector_node(f, lhs) {
                reveal_strlit(" != ");
                assert(" != "@ =~= seq![' '] + seq!['!', '='] + seq![' ']);
                lemma_binop_infix(f, c, lhs, " != "@, seq!['!', '='], rhs);
            }
        },
        _ => {},
    }
}

proof fn lemma_binop_infix(
    f: Function,
    c: Seq<(NodeId, Seq<char>)>,
    lhs: NodeId,
    spaced: Seq<char>,
    op: Seq<char>,
    rhs: NodeId,
)
    requires
        spaced == seq![' '] + op + seq![' '],
    ensures
        binop_text(f, c, lhs, spaced, rhs) == infix_text(f, c, lhs, op, rhs),
{
    reveal_strlit("(");
    reveal_strlit(")");
    assert(binop_text(f, c, lhs, spaced, rhs) =~= infix_text(f, c, lhs, op, rhs));
}


/// The C type of an integer names its width in bits (64 for the 128-bit
/// integers, which C lacks): `int<N>_t` when signed, `uint<N>_t`
/// otherwise; an integer element takes `N / 8` bytes, and a bit count works
/// on 32 bits up to 32-bit integers and on 64 above.
pub proof fn law_integer_types(w: IntWidth, signed: bool)
    ensures
        c_type_text(IrType::Integer { width: w, signed }) == (if signed {
            "int"@
        } else {
            "uint"@
        }) + decimal(if w is I128 {
            64nat
        } else {
            width_bits(w)
        }) + "_t"@,
        elem_bytes(ElemTy::Integer { width: w, signed }) == Some(width_bits(w) / 8),
        count_width(IrType::Integer { width: w, signed }) == Some(if width_bits(w) <= 32 {
            32nat
        } else {
            64nat
        }),
{
    reveal_strlit("8");
    reveal_strlit("16");
    reveal_strlit("32");
    reveal_strlit("64");
    reveal_with_fuel(decimal, 3);
    assert(decimal(8) =~= "8"@);
    assert(decimal(16) =~= "16"@);
    assert(decimal(32) =~= "32"@);
    assert(decimal(64) =~= "64"@);
}


/// A bitwise complement is written `(~<operand>)`, a selection
/// `(<cond> ? <then> : <else>)`, and an array element `<base>[<index>]`.
pub proof fn law_other_expressions(f: Function, c: Seq<(NodeId, Seq<char>)>, node: Node)
    ensures
        node.kind matches NodeKind::Not { operand } ==> expr_text(f, c, node) == seq!['(', '~'] + operand_text(
            f,
            c,
            operand,
        ) + seq![')'],
        node.kind matches NodeKind::Select { cond, true_val, false_val } ==> expr_text(f, c, node) == seq!['(']
            + operand_text(f, c, cond) + seq![' ', '?', ' '] + operand_text(f, c, true_val) + seq![' ', ':', ' ']
            + operand_text(f, c, false_val) + seq![')'],
        node.kind matches NodeKind::ArrayAccess { base, index } ==> expr_text(f, c, node) == operand_text(f, c, base)
            + seq!['['] + operand_text(f, c, index) + seq![']'],
{
    reveal_strlit("(~");
    reveal_strlit(")");
    reveal_strlit("(");
    reveal_strlit(" ? ");
    reveal_strlit(" : ");
    reveal_strlit("[");
    reveal_strlit("]");
    match node.kind {
        NodeKind::Not { operand } => {
            assert(expr_text(f, c, node) =~= seq!['(', '~'] + operand_text(f, c, operand) + seq![')']);
        },
        NodeKind::Select { cond, true_val, false_val } => {
            assert(expr_text(f, c, node) =~= seq!['('] + operand_text(f, c, cond) + seq![' ', '?', ' '] + operand_text(
                f,
                c,
                true_val,
            ) + seq![' ', ':', ' '] + operand_text(f, c, false_val) + seq![')']);
        },
        NodeKind::ArrayAccess { base, index } => {
            assert(expr_text(f, c, node) =~= operand_text(f, c, base) + seq!['['] + operand_text(f, c, index) + seq![
                ']',
            ]);
        },
        _ => {},
    }
}

} // verus!
