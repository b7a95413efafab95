//! The IR interpreter: each node of a function evaluated on argument values,
//! with a bound on evaluation steps since a loop need not end.
use vstd::prelude::*;
use vstd::arithmetic::power2::pow2;
use crate::h3::{Value, CmpOperator, wrap, compare_int, compare_vals, int_words, compare_ints, low_bits, signed_value};
use crate::facts::{ConstantData, integer_value, fits_i128, integer_of_bits};
use crate::ir::{ElemTy, Function, IrType, NodeId, NodeKind, width_bits, elem_as_type, elem_as_type_exec};
use crate::numparse::{parse_nat, parses_usize, parse_usize};
use crate::text::chars_of;
use crate::visit::node_of;

verus! {

/// What a value is: booleans, integers with their width and signedness,
/// bit masks as words, arrays, and tuples of values.
pub enum Val {
    Bool(bool),
    Int { bits: u128, signed: bool, width: u32 },
    Bits(Seq<u64>),
    BoolArray(Seq<bool>),
    IntArray(Seq<u128>),
    Tuple(Seq<Val>),
}

/// The view of a value.
pub open spec fn value_view(v: Value) -> Val
    decreases v, 0nat,
{
    match v {
        Value::Bool(b) => Val::Bool(b),
        Value::Int { bits, signed, width } => Val::Int { bits, signed, width },
        Value::Bits(w) => Val::Bits(w@),
        Value::BoolArray(a) => Val::BoolArray(a@),
        Value::IntArray(a) => Val::IntArray(a@),
        Value::Tuple(vs) => Val::Tuple(values_view(vs@, vs@.len())),
    }
}

/// The views of the first `n` values of `s`.
pub open spec fn values_view(s: Seq<Value>, n: nat) -> Seq<Val>
    decreases s, n,
{
    if n == 0 || n > s.len() {
        Seq::empty()
    } else {
        values_view(s, (n - 1) as nat).push(value_view(s[n - 1]))
    }
}

/// A copy of a value.
pub fn clone_value(v: &Value) -> (r: Value)
    ensures
        value_view(r) == value_view(*v),
    decreases v,
{
    match v {
        Value::Bool(b) => Value::Bool(*b),
        Value::Int { bits, signed, width } => Value::Int { bits: *bits, signed: *signed, width: *width },
        Value::Bits(w) => Value::Bits(w.clone()),
        Value::BoolArray(a) => Value::BoolArray(a.clone()),
        Value::IntArray(a) => Value::IntArray(a.clone()),
        Value::Tuple(vs) => {
            let mut out: Vec<Value> = Vec::new();
            let mut i: usize = 0;
            while i < vs.len()
                invariant
                    *v == Value::Tuple(*vs),
                    i <= vs@.len(),
                    out@.len() == i,
                    values_view(out@, i as nat) == values_view(vs@, i as nat),
                decreases vs@.len() - i,
            {
                proof {
                    let t = *vs;
                    assert(*v == Value::Tuple(t));
                    assert(decreases_to!(*v => (*v)->Tuple_0));
                    assert(decreases_to!(t => t@));
                    assert(decreases_to!(t@ => t@[i as int]));
                }
                let c = clone_value(&vs[i]);
                let ghost before = out@;
                out.push(c);
                proof {
                    lemma_values_view_prefix(before, out@, i as nat);
                }
                i += 1;
            }
            Value::Tuple(out)
        },
    }
}

proof fn lemma_values_view_prefix(a: Seq<Value>, b: Seq<Value>, n: nat)
    requires
        n <= a.len(),
        n <= b.len(),
        forall|k: int| 0 <= k < n ==> a[k] == b[k],
    ensures
        values_view(a, n) == values_view(b, n),
    decreases n,
{
    if n > 0 {
        lemma_values_view_prefix(a, b, (n - 1) as nat);
    }
}

proof fn lemma_values_view_map(s: Seq<Value>, n: nat)
    requires
        n <= s.len(),
    ensures
        values_view(s, n) == s.subrange(0, n as int).map_values(|v: Value| value_view(v)),
    decreases n,
{
    if n > 0 {
        lemma_values_view_map(s, (n - 1) as nat);
        assert(values_view(s, n) =~= s.subrange(0, n as int).map_values(|v: Value| value_view(v)));
    } else {
        assert(values_view(s, n) =~= s.subrange(0, n as int).map_values(|v: Value| value_view(v)));
    }
}

/// The views of a sequence of values.
pub open spec fn seq_view(s: Seq<Value>) -> Seq<Val> {
    s.map_values(|v: Value| value_view(v))
}

/// The view of a tuple of values.
proof fn lemma_tuple_view(vs: Vec<Value>)
    ensures
        value_view(Value::Tuple(vs)) == Val::Tuple(seq_view(vs@)),
{
    lemma_values_view_map(vs@, vs@.len());
    assert(vs@.subrange(0, vs@.len() as int) =~= vs@);
}

/// The views of overriding values, each with its node.
pub open spec fn overrides_view(ov: Seq<(NodeId, Value)>) -> Seq<(NodeId, Val)> {
    ov.map_values(|p: (NodeId, Value)| (p.0, value_view(p.1)))
}

/// The view of an optional value.
pub open spec fn option_view(o: Option<Value>) -> Option<Val> {
    match o {
        Some(v) => Some(value_view(v)),
        None => None,
    }
}

// ── Operations on values ────────────────────────────────────────────────

/// `bits` truncated to its low `w` bits (all of them from 128 on).
pub open spec fn wrap_bits(bits: u128, w: u32) -> u128 {
    if w >= 128 {
        bits
    } else {
        (bits as nat % pow2(w as nat)) as u128
    }
}

fn wrap_exec(bits: u128, w: u32) -> (r: u128)
    ensures
        r == wrap_bits(bits, w),
{
    let r = wrap(bits, w);
    proof {
        if w < 128 {
            vstd::arithmetic::power2::lemma_pow2_pos(w as nat);
            assert(r as nat == bits as nat % pow2(w as nat));
        }
    }
    r
}

/// An integer value of an integer type: `bits` truncated to its width;
/// nothing for any other type.
pub open spec fn int_of_type(bits: u128, t: IrType) -> Option<Val> {
    match t {
        IrType::Integer { width, signed } => Some(
            Val::Int { bits: wrap_bits(bits, width_bits(width) as u32), signed, width: width_bits(width) as u32 },
        ),
        _ => None,
    }
}

fn int_of_type_exec(bits: u128, t: IrType) -> (r: Option<Value>)
    ensures
        option_view(r) == int_of_type(bits, t),
{
    match t {
        IrType::Integer { width, signed } => {
            let w: u32 = match width {
                crate::ir::IntWidth::I8 => 8,
                crate::ir::IntWidth::I16 => 16,
                crate::ir::IntWidth::I32 => 32,
                crate::ir::IntWidth::I64 => 64,
                crate::ir::IntWidth::I128 => 128,
            };
            Some(Value::Int { bits: wrap_exec(bits, w), signed, width: w })
        },
        _ => None,
    }
}

/// The words of a bit-mask constant of `width` bits: `max(ceil(width/64), 1)`
/// words, the low 64 bits of `v` first and, for more than one word, the
/// next 64 bits.
pub open spec fn mask_constant_words(v: i128, width: u32) -> Seq<u64> {
    let words = (width + 63) / 64;
    let n = if words >= 1 { words } else { 1 };
    Seq::new(
        n as nat,
        |k: int|
            if k == 0 {
                v as u64
            } else if k == 1 && words > 1 {
                ((v as u128) >> 64u32) as u64
            } else {
                0u64
            },
    )
}

/// The value of a constant of type `ty`: a boolean; an integer, as a bit
/// mask for a bit-mask type and otherwise truncated to its integer type;
/// nothing for a unit constant, an integer outside `i128`, or an integer of
/// a type that is neither.
pub open spec fn const_val(d: ConstantData, ty: IrType) -> Option<Val> {
    match d {
        ConstantData::Bool(b) => Some(Val::Bool(b)),
        ConstantData::Integer { bits, signed, width } => if fits_i128(integer_value(bits, signed, width)) {
            let v = integer_value(bits, signed, width) as i128;
            match ty {
                IrType::BitVector { width: bw } => Some(Val::Bits(mask_constant_words(v, bw))),
                _ => int_of_type(v as u128, ty),
            }
        } else {
            None
        },
        ConstantData::Unit => None,
    }
}

fn const_val_exec(d: &ConstantData, ty: IrType) -> (r: Option<Value>)
    ensures
        option_view(r) == const_val(*d, ty),
{
    match d {
        ConstantData::Bool(b) => Some(Value::Bool(*b)),
        ConstantData::Integer { bits, signed, width } => match integer_of_bits(*bits, *signed, *width) {
            Some(v) => match ty {
                IrType::BitVector { width: bw } => {
                    let words: u64 = (bw as u64 + 63) / 64;
                    let n: u64 = if words >= 1 { words } else { 1 };
                    let mut out: Vec<u64> = Vec::new();
                    let mut k: u64 = 0;
                    while k < n
                        invariant
                            k <= n,
                            n == (if (bw + 63) / 64 >= 1 { (bw + 63) / 64 } else { 1 }),
                            words == (bw + 63) / 64,
                            out@.len() == k,
                            forall|j: int| 0 <= j < k ==> #[trigger] out@[j] == mask_constant_words(v, bw)[j],
                        decreases n - k,
                    {
                        let w: u64 = if k == 0 {
                            v as u64
                        } else if k == 1 && words > 1 {
                            ((v as u128) >> 64u32) as u64
                        } else {
                            0
                        };
                        out.push(w);
                        k += 1;
                    }
                    assert(out@ =~= mask_constant_words(v, bw));
                    Some(Value::Bits(out))
                },
                _ => int_of_type_exec(v as u128, ty),
            },
            None => None,
        },
        ConstantData::Unit => None,
    }
}

/// `a + b` modulo `2^128`.
pub open spec fn add128(a: u128, b: u128) -> u128 {
    if a + b <= u128::MAX {
        (a + b) as u128
    } else {
        (a + b - 0x1_0000_0000_0000_0000_0000_0000_0000_0000) as u128
    }
}

/// `a - b` modulo `2^128`.
pub open spec fn sub128(a: u128, b: u128) -> u128 {
    if a >= b {
        (a - b) as u128
    } else {
        (a - b + 0x1_0000_0000_0000_0000_0000_0000_0000_0000) as u128
    }
}

/// Integer addition or subtraction: both operands integers, the result the
/// wrapped sum or difference at the left operand's width, unsigned.
pub open spec fn arith(a: Option<Val>, b: Option<Val>, add: bool) -> Option<Val> {
    match (a, b) {
        (Some(Val::Int { bits: x, width: w, .. }), Some(Val::Int { bits: y, .. })) => Some(
            Val::Int { bits: wrap_bits(if add { add128(x, y) } else { sub128(x, y) }, w), signed: false, width: w },
        ),
        _ => None,
    }
}

fn arith_exec(a: Option<Value>, b: Option<Value>, add: bool) -> (r: Option<Value>)
    ensures
        option_view(r) == arith(option_view(a), option_view(b), add),
{
    match (a, b) {
        (Some(Value::Int { bits: x, width: w, .. }), Some(Value::Int { bits: y, .. })) => {
            let z: u128 = if add {
                if x <= u128::MAX - y {
                    x + y
                } else {
                    x - (u128::MAX - y) - 1
                }
            } else {
                if x >= y {
                    x - y
                } else {
                    u128::MAX - (y - x) + 1
                }
            };
            Some(Value::Int { bits: wrap_exec(z, w), signed: false, width: w })
        },
        _ => None,
    }
}

/// The words of an integer or bit-mask value.
pub open spec fn val_words(v: Val) -> Seq<u64> {
    match v {
        Val::Bits(w) => w,
        Val::Int { bits, width, .. } => int_words(bits, width),
        _ => Seq::empty(),
    }
}

/// Integer comparison at the left operand's width and signedness.
pub open spec fn val_int_comparison(l: Val, r: Val, op: CmpOperator) -> bool {
    match (l, r) {
        (Val::Int { bits: lb, signed, width }, Val::Int { bits: rb, .. }) => if signed {
            compare_ints(signed_value(lb, width), signed_value(rb, width), op)
        } else {
            compare_ints(low_bits(lb, width), low_bits(rb, width), op)
        },
        _ => false,
    }
}

/// A comparison of two values: booleans by equality, integers at the left
/// one's width and signedness, bit masks by their words padded with zero
/// words.
pub open spec fn val_compare(l: Val, r: Val, op: CmpOperator) -> bool {
    match (l, r) {
        (Val::Bool(a), Val::Bool(b)) => if op == CmpOperator::Eq {
            a == b
        } else {
            a != b
        },
        (Val::Int { .. }, Val::Int { .. }) => val_int_comparison(l, r, op),
        _ => if op == CmpOperator::Eq {
            crate::h3::same_words(val_words(l), val_words(r))
        } else {
            !crate::h3::same_words(val_words(l), val_words(r))
        },
    }
}

/// Whether two values can be compared by `op`: booleans and bit masks only
/// for equality, signed integers of width 1 to 128, and nothing else.
pub open spec fn comparable(l: Val, r: Val, op: CmpOperator) -> bool {
    let eqne = op == CmpOperator::Eq || op == CmpOperator::Ne;
    if l is Bool && r is Bool {
        eqne
    } else if l is Int && r is Int {
        l matches Val::Int { signed, width, .. } && (signed ==> 1 <= width <= 128)
    } else {
        eqne && val_has_words(l) && val_has_words(r)
    }
}

/// Whether a value is a bit mask or an integer whose words can be built.
pub open spec fn val_has_words(v: Val) -> bool {
    v is Bits || (v matches Val::Int { width, .. } && width as int + 63 <= usize::MAX)
}

/// The result of a comparison node.
pub open spec fn compare_result(a: Option<Val>, b: Option<Val>, op: CmpOperator) -> Option<Val> {
    match (a, b) {
        (Some(l), Some(r)) => if comparable(l, r, op) {
            Some(Val::Bool(val_compare(l, r, op)))
        } else {
            None
        },
        _ => None,
    }
}

fn compare_result_exec(a: Option<Value>, b: Option<Value>, op: CmpOperator) -> (r: Option<Value>)
    ensures
        option_view(r) == compare_result(option_view(a), option_view(b), op),
{
    match (a, b) {
        (Some(l), Some(r)) => {
            let eqne = op == CmpOperator::Eq || op == CmpOperator::Ne;
            let ok = match (&l, &r) {
                (Value::Bool(_), Value::Bool(_)) => eqne,
                (Value::Int { signed, width, .. }, Value::Int { .. }) => !*signed || (1 <= *width && *width <= 128),
                _ => {
                    let lw = match &l {
                        Value::Bits(_) => true,
                        Value::Int { width, .. } => (*width as u64) <= (usize::MAX as u64) - 63,
                        _ => false,
                    };
                    let rw = match &r {
                        Value::Bits(_) => true,
                        Value::Int { width, .. } => (*width as u64) <= (usize::MAX as u64) - 63,
                        _ => false,
                    };
                    eqne && lw && rw
                },
            };
            if ok {
                let b = compare_vals(l, r, op);
                Some(Value::Bool(b))
            } else {
                None
            }
        },
        _ => None,
    }
}

/// Bit-mask words packing booleans: word `k` holds bits `64k` to `64k+63`,
/// bit `j` of it set exactly when boolean `64k + j` is true.
pub open spec fn pack_word(a: Seq<bool>, k: int, j: nat) -> u64
    decreases j,
{
    if j == 0 {
        0
    } else {
        let w = pack_word(a, k, (j - 1) as nat);
        let i = 64 * k + j - 1;
        if 0 <= i < a.len() && a[i] {
            w | (1u64 << ((j - 1) as u64))
        } else {
            w
        }
    }
}

/// The words of a boolean array packed into a bit mask, `ceil(len / 64)`
/// of them.
pub open spec fn pack_words(a: Seq<bool>) -> Seq<u64> {
    Seq::new((a.len() + 63) / 64, |k: int| pack_word(a, k, 64))
}

/// Packs booleans into bit-mask words (see `pack_words`).
pub fn pack_bools(a: &Vec<bool>) -> (w: Vec<u64>)
    ensures
        w@ == pack_words(a@),
{
    let len = a.len();
    let n: usize = len / 64 + if len % 64 == 0 { 0 } else { 1 };
    assert(n == (a@.len() + 63) / 64);
    let mut out: Vec<u64> = Vec::new();
    let mut k: usize = 0;
    while k < n
        invariant
            len == a@.len(),
            k <= n,
            n == (a@.len() + 63) / 64,
            out@.len() == k,
            forall|m: int| 0 <= m < k ==> #[trigger] out@[m] == pack_word(a@, m, 64),
        decreases n - k,
    {
        let mut word: u64 = 0;
        let mut j: u64 = 0;
        while j < 64
            invariant
                len == a@.len(),
                j <= 64,
                k < n,
                n == (a@.len() + 63) / 64,
                word == pack_word(a@, k as int, j as nat),
            decreases 64 - j,
        {
            assert(64 * k < a@.len()) by (nonlinear_arith)
                requires
                    k < n,
                    n == (a@.len() + 63) / 64,
            ;
            let base: usize = 64 * k;
            if (j as usize) < len - base && a[base + j as usize] {
                word = word | (1u64 << j);
            }
            j += 1;
        }
        out.push(word);
        k += 1;
    }
    assert(out@ =~= pack_words(a@));
    out
}

/// The element type of an array or slice type.
pub open spec fn elem_of(t: IrType) -> Option<ElemTy> {
    match t {
        IrType::Array { element, .. } => Some(element),
        IrType::Slice { element } => Some(element),
        _ => None,
    }
}

fn elem_of_exec(t: IrType) -> (e: Option<ElemTy>)
    ensures
        e == elem_of(t),
{
    match t {
        IrType::Array { element, .. } => Some(element),
        IrType::Slice { element } => Some(element),
        _ => None,
    }
}

/// The type of node `id`, if the arena holds it.
pub open spec fn type_of(f: Function, id: NodeId) -> Option<IrType> {
    match node_of(f.arena@, id) {
        Some(n) => Some(n.ty),
        None => None,
    }
}

/// An array element: the index an integer (as `usize`), the array's type
/// an array or slice type, the array a boolean array (its element) or an
/// integer array (its element at the element type), the index in range.
pub open spec fn access_result(index: Option<Val>, ty: Option<IrType>, base: Option<Val>) -> Option<Val> {
    match (index, ty, base) {
        (Some(Val::Int { bits, .. }), Some(t), Some(b)) => match elem_of(t) {
            Some(e) => {
                let i = bits as usize;
                match b {
                    Val::BoolArray(a) => if i < a.len() {
                        Some(Val::Bool(a[i as int]))
                    } else {
                        None
                    },
                    Val::IntArray(a) => if i < a.len() {
                        int_of_type(a[i as int], elem_as_type(e))
                    } else {
                        None
                    },
                    _ => None,
                }
            },
            None => None,
        },
        _ => None,
    }
}

fn access_exec(index: Option<Value>, ty: Option<IrType>, base: Option<Value>) -> (r: Option<Value>)
    ensures
        option_view(r) == access_result(option_view(index), ty, option_view(base)),
{
    match (index, ty, base) {
        (Some(Value::Int { bits, .. }), Some(t), Some(b)) => match elem_of_exec(t) {
            Some(e) => {
                let i = bits as usize;
                match b {
                    Value::BoolArray(a) => if i < a.len() {
                        Some(Value::Bool(a[i]))
                    } else {
                        None
                    },
                    Value::IntArray(a) => if i < a.len() {
                        int_of_type_exec(a[i], elem_as_type_exec(e))
                    } else {
                        None
                    },
                    _ => None,
                }
            },
            None => None,
        },
        _ => None,
    }
}

/// The result of a mask comparison: the array's type an array or slice of
/// integers of width `w` and signedness `s`, the array an integer array,
/// the scalar an integer; bit `i` of the mask tells whether element `i`
/// (truncated to `w` bits) compares by `op` with the scalar (truncated).
pub open spec fn mask_result(ty: Option<IrType>, array: Option<Val>, scalar: Option<Val>, op: CmpOperator) -> Option<Val> {
    match (ty, array, scalar) {
        (Some(t), Some(Val::IntArray(vs)), Some(Val::Int { bits, .. })) => match elem_of(t) {
            Some(ElemTy::Integer { width, signed }) => {
                let w = width_bits(width) as u32;
                let sc = wrap_bits(bits, w);
                Some(
                    Val::Bits(
                        pack_words(
                            Seq::new(
                                vs.len(),
                                |i: int|
                                    val_int_comparison(
                                        Val::Int { bits: wrap_bits(vs[i], w), signed, width: w },
                                        Val::Int { bits: sc, signed, width: w },
                                        op,
                                    ),
                            ),
                        ),
                    ),
                )
            },
            _ => None,
        },
        _ => None,
    }
}

fn mask_exec(ty: Option<IrType>, array: Option<Value>, scalar: Option<Value>, op: CmpOperator) -> (r: Option<Value>)
    ensures
        option_view(r) == mask_result(ty, option_view(array), option_view(scalar), op),
{
    match (ty, array, scalar) {
        (Some(t), Some(Value::IntArray(vs)), Some(Value::Int { bits, .. })) => match elem_of_exec(t) {
            Some(ElemTy::Integer { width, signed }) => {
                let w: u32 = match width {
                    crate::ir::IntWidth::I8 => 8,
                    crate::ir::IntWidth::I16 => 16,
                    crate::ir::IntWidth::I32 => 32,
                    crate::ir::IntWidth::I64 => 64,
                    crate::ir::IntWidth::I128 => 128,
                };
                let sc = wrap_exec(bits, w);
                let ghost want = Seq::new(
                    vs@.len(),
                    |i: int|
                        val_int_comparison(
                            Val::Int { bits: wrap_bits(vs@[i], w), signed, width: w },
                            Val::Int { bits: sc, signed, width: w },
                            op,
                        ),
                );
                let mut bools: Vec<bool> = Vec::new();
                let mut i: usize = 0;
                while i < vs.len()
                    invariant
                        i <= vs@.len(),
                        8 <= w <= 128,
                        bools@.len() == i,
                        want.len() == vs@.len(),
                        forall|k: int| 0 <= k < i ==> #[trigger] bools@[k] == want[k],
                        want == Seq::new(
                            vs@.len(),
                            |i: int|
                                val_int_comparison(
                                    Val::Int { bits: wrap_bits(vs@[i], w), signed, width: w },
                                    Val::Int { bits: sc, signed, width: w },
                                    op,
                                ),
                        ),
                    decreases vs@.len() - i,
                {
                    let elem = Value::Int { bits: wrap_exec(vs[i], w), signed, width: w };
                    let rhs = Value::Int { bits: sc, signed, width: w };
                    let b = compare_int(&elem, &rhs, op);
                    bools.push(b);
                    i += 1;
                }
                assert(bools@ =~= want);
                Some(Value::Bits(pack_bools(&bools)))
            },
            _ => None,
        },
        _ => None,
    }
}

/// The value the last override for `id` gives, if any: overrides are read
/// as a map built by inserting them in order.
pub open spec fn lookup_last(ov: Seq<(NodeId, Val)>, id: NodeId) -> Option<Val>
    decreases ov.len(),
{
    if ov.len() == 0 {
        None
    } else if ov.last().0 == id {
        Some(ov.last().1)
    } else {
        lookup_last(ov.drop_last(), id)
    }
}

fn lookup_exec(ov: &Vec<(NodeId, Value)>, id: NodeId) -> (r: Option<Value>)
    ensures
        option_view(r) == lookup_last(overrides_view(ov@), id),
{
    let ghost v = overrides_view(ov@);
    let mut i: usize = ov.len();
    assert(v.subrange(0, v.len() as int) =~= v);
    while i > 0
        invariant
            v == overrides_view(ov@),
            i <= ov@.len(),
            lookup_last(v, id) == lookup_last(v.subrange(0, i as int), id),
        decreases i,
    {
        let ghost pre = v.subrange(0, i as int);
        assert(pre.drop_last() =~= v.subrange(0, i - 1));
        assert(pre.last() == v[i - 1]);
        i -= 1;
        if ov[i].0 == id {
            return Some(clone_value(&ov[i].1));
        }
    }
    None
}

/// The overrides for one loop iteration: each carried input with its
/// current value, as far as both lists go.
pub open spec fn zip_pairs(ids: Seq<NodeId>, vals: Seq<Val>) -> Seq<(NodeId, Val)> {
    let n = if ids.len() <= vals.len() { ids.len() } else { vals.len() };
    Seq::new(n, |i: int| (ids[i], vals[i]))
}

// ── The interpreter ─────────────────────────────────────────────────────

/// The value of node `id` of `f` on arguments `args`, nodes in `ov` taking
/// their (last) overriding value instead, within `fuel` steps. Nothing when
/// the steps run out or evaluation fails: a missing node or parameter, a
/// value of the wrong form, an index out of range, an unsupported kind.
/// A loop evaluates its carried inputs, then, while its termination
/// (evaluated with the carried inputs overridden by their current values,
/// and no other override) is true, replaces the carried values by its
/// outputs; its value is the tuple of the carried values.
pub open spec fn spec_eval(f: Function, id: NodeId, args: Seq<Val>, ov: Seq<(NodeId, Val)>, fuel: nat) -> Option<Val>
    decreases fuel, 0nat, 0nat,
{
    if fuel == 0 {
        None
    } else {
        let g = (fuel - 1) as nat;
        match lookup_last(ov, id) {
            Some(v) => Some(v),
            None => match node_of(f.arena@, id) {
                None => None,
                Some(n) => match n.kind {
                    NodeKind::Parameter { index } => if index < args.len() {
                        Some(args[index as int])
                    } else {
                        None
                    },
                    NodeKind::Constant(d) => const_val(d, n.ty),
                    NodeKind::Add { lhs, rhs } => arith(
                        spec_eval(f, lhs, args, ov, g),
                        spec_eval(f, rhs, args, ov, g),
                        true,
                    ),
                    NodeKind::Sub { lhs, rhs } => arith(
                        spec_eval(f, lhs, args, ov, g),
                        spec_eval(f, rhs, args, ov, g),
                        false,
                    ),
                    NodeKind::Lt { lhs, rhs } => compare_result(
                        spec_eval(f, lhs, args, ov, g),
                        spec_eval(f, rhs, args, ov, g),
                        CmpOperator::Lt,
                    ),
                    NodeKind::Le { lhs, rhs } => compare_result(
                        spec_eval(f, lhs, args, ov, g),
                        spec_eval(f, rhs, args, ov, g),
                        CmpOperator::Le,
                    ),
                    NodeKind::Gt { lhs, rhs } => compare_result(
                        spec_eval(f, lhs, args, ov, g),
                        spec_eval(f, rhs, args, ov, g),
                        CmpOperator::Gt,
                    ),
                    NodeKind::Ge { lhs, rhs } => compare_result(
                        spec_eval(f, lhs, args, ov, g),
                        spec_eval(f, rhs, args, ov, g),
                        CmpOperator::Ge,
                    ),
                    NodeKind::Eq { lhs, rhs } => compare_result(
                        spec_eval(f, lhs, args, ov, g),
                        spec_eval(f, rhs, args, ov, g),
                        CmpOperator::Eq,
                    ),
                    NodeKind::Ne { lhs, rhs } => compare_result(
                        spec_eval(f, lhs, args, ov, g),
                        spec_eval(f, rhs, args, ov, g),
                        CmpOperator::Ne,
                    ),
                    NodeKind::BoolOr { lhs, rhs } => match spec_eval(f, lhs, args, ov, g) {
                        Some(Val::Bool(a)) => if a {
                            Some(Val::Bool(true))
                        } else {
                            match spec_eval(f, rhs, args, ov, g) {
                                Some(Val::Bool(b)) => Some(Val::Bool(b)),
                                _ => None,
                            }
                        },
                        _ => None,
                    },
                    NodeKind::BoolAnd { lhs, rhs } => match spec_eval(f, lhs, args, ov, g) {
                        Some(Val::Bool(a)) => if !a {
                            Some(Val::Bool(false))
                        } else {
                            match spec_eval(f, rhs, args, ov, g) {
                                Some(Val::Bool(b)) => Some(Val::Bool(b)),
                                _ => None,
                            }
                        },
                        _ => None,
                    },
                    NodeKind::Select { cond, true_val, false_val } => match spec_eval(f, cond, args, ov, g) {
                        Some(Val::Bool(c)) => if c {
                            spec_eval(f, true_val, args, ov, g)
                        } else {
                            spec_eval(f, false_val, args, ov, g)
                        },
                        _ => None,
                    },
                    NodeKind::ArrayAccess { base, index } => access_result(
                        spec_eval(f, index, args, ov, g),
                        type_of(f, base),
                        spec_eval(f, base, args, ov, g),
                    ),
                    NodeKind::FieldAccess { base, field } => match spec_eval(f, base, args, ov, g) {
                        Some(Val::Tuple(t)) => if parses_usize(field@) && (parse_nat(field@)->0 < t.len()) {
                            Some(t[parse_nat(field@)->0 as int])
                        } else {
                            None
                        },
                        _ => None,
                    },
                    NodeKind::TupleExtract { tuple, index } => match spec_eval(f, tuple, args, ov, g) {
                        Some(Val::Tuple(t)) => if index < t.len() {
                            Some(t[index as int])
                        } else {
                            None
                        },
                        _ => None,
                    },
                    NodeKind::Pack { array } => match spec_eval(f, array, args, ov, g) {
                        Some(Val::BoolArray(a)) => Some(Val::Bits(pack_words(a))),
                        _ => None,
                    },
                    NodeKind::ArrayCmpMask { array, scalar, op } => mask_result(
                        type_of(f, array),
                        spec_eval(f, array, args, ov, g),
                        spec_eval(f, scalar, args, ov, g),
                        op,
                    ),
                    NodeKind::Convert { operand, .. } => match spec_eval(f, operand, args, ov, g) {
                        Some(Val::Int { bits, .. }) => int_of_type(bits, n.ty),
                        _ => None,
                    },
                    NodeKind::Loop { termination, outputs, carried_inputs, .. } => match eval_list(
                        f,
                        carried_inputs@,
                        args,
                        ov,
                        g,
                    ) {
                        Some(c) => eval_loop(f, termination, outputs@, carried_inputs@, c, args, g),
                        None => None,
                    },
                    NodeKind::Return { value } => spec_eval(f, value, args, ov, g),
                    _ => None,
                },
            },
        }
    }
}

/// The values of the nodes `ids`, in order, if each has one.
pub open spec fn eval_list(f: Function, ids: Seq<NodeId>, args: Seq<Val>, ov: Seq<(NodeId, Val)>, fuel: nat) -> Option<
    Seq<Val>,
>
    decreases fuel, 1nat, ids.len(),
{
    if ids.len() == 0 {
        Some(Seq::empty())
    } else {
        match eval_list(f, ids.drop_last(), args, ov, fuel) {
            Some(s) => match spec_eval(f, ids.last(), args, ov, fuel) {
                Some(v) => Some(s.push(v)),
                None => None,
            },
            None => None,
        }
    }
}

/// A loop from carried values `carried`, within `fuel` iterations.
pub open spec fn eval_loop(
    f: Function,
    termination: NodeId,
    outputs: Seq<NodeId>,
    carried_inputs: Seq<NodeId>,
    carried: Seq<Val>,
    args: Seq<Val>,
    fuel: nat,
) -> Option<Val>
    decreases fuel, 2nat, 0nat,
{
    if fuel == 0 {
        None
    } else {
        let it = zip_pairs(carried_inputs, carried);
        match spec_eval(f, termination, args, it, fuel) {
            Some(Val::Bool(b)) => if !b {
                Some(Val::Tuple(carried))
            } else {
                match eval_list(f, outputs, args, it, fuel) {
                    Some(next) => eval_loop(f, termination, outputs, carried_inputs, next, args, (fuel - 1) as nat),
                    None => None,
                }
            },
            _ => None,
        }
    }
}

proof fn lemma_eval_mono(f: Function, id: NodeId, a: Seq<Val>, ov: Seq<(NodeId, Val)>, fuel: nat)
    requires
        spec_eval(f, id, a, ov, fuel) is Some,
    ensures
        spec_eval(f, id, a, ov, fuel + 1) == spec_eval(f, id, a, ov, fuel),
    decreases fuel, 0nat, 0nat,
{
    let g = (fuel - 1) as nat;
    if lookup_last(ov, id) is None {
        let n = node_of(f.arena@, id)->0;
        match n.kind {
            NodeKind::Add { lhs, rhs } | NodeKind::Sub { lhs, rhs } | NodeKind::Lt { lhs, rhs } | NodeKind::Le {
                lhs,
                rhs,
            } | NodeKind::Gt { lhs, rhs } | NodeKind::Ge { lhs, rhs } | NodeKind::Eq { lhs, rhs } | NodeKind::Ne {
                lhs,
                rhs,
            } | NodeKind::BoolOr { lhs, rhs } | NodeKind::BoolAnd { lhs, rhs } => {
                if spec_eval(f, lhs, a, ov, g) is Some {
                    lemma_eval_mono(f, lhs, a, ov, g);
                }
                if spec_eval(f, rhs, a, ov, g) is Some {
                    lemma_eval_mono(f, rhs, a, ov, g);
                }
            },
            NodeKind::Select { cond, true_val, false_val } => {
                if spec_eval(f, cond, a, ov, g) is Some {
                    lemma_eval_mono(f, cond, a, ov, g);
                }
                if spec_eval(f, true_val, a, ov, g) is Some {
                    lemma_eval_mono(f, true_val, a, ov, g);
                }
                if spec_eval(f, false_val, a, ov, g) is Some {
                    lemma_eval_mono(f, false_val, a, ov, g);
                }
            },
            NodeKind::ArrayAccess { base, index } => {
                if spec_eval(f, base, a, ov, g) is Some {
                    lemma_eval_mono(f, base, a, ov, g);
                }
                if spec_eval(f, index, a, ov, g) is Some {
                    lemma_eval_mono(f, index, a, ov, g);
                }
            },
            NodeKind::ArrayCmpMask { array, scalar, .. } => {
                if spec_eval(f, array, a, ov, g) is Some {
                    lemma_eval_mono(f, array, a, ov, g);
                }
                if spec_eval(f, scalar, a, ov, g) is Some {
                    lemma_eval_mono(f, scalar, a, ov, g);
                }
            },
            NodeKind::FieldAccess { base, .. } => {
                lemma_eval_mono(f, base, a, ov, g);
            },
            NodeKind::TupleExtract { tuple, .. } => {
                lemma_eval_mono(f, tuple, a, ov, g);
            },
            NodeKind::Pack { array } => {
                lemma_eval_mono(f, array, a, ov, g);
            },
            NodeKind::Convert { operand, .. } => {
                lemma_eval_mono(f, operand, a, ov, g);
            },
            NodeKind::Return { value } => {
                lemma_eval_mono(f, value, a, ov, g);
            },
            NodeKind::Loop { termination, outputs, carried_inputs, .. } => {
                lemma_list_mono(f, carried_inputs@, a, ov, g);
                let c = eval_list(f, carried_inputs@, a, ov, g)->0;
                lemma_loop_mono(f, termination, outputs@, carried_inputs@, c, a, g);
            },
            _ => {},
        }
    }
}

proof fn lemma_list_mono(f: Function, ids: Seq<NodeId>, a: Seq<Val>, ov: Seq<(NodeId, Val)>, fuel: nat)
    requires
        eval_list(f, ids, a, ov, fuel) is Some,
    ensures
        eval_list(f, ids, a, ov, fuel + 1) == eval_list(f, ids, a, ov, fuel),
    decreases fuel, 1nat, ids.len(),
{
    if ids.len() > 0 {
        lemma_list_mono(f, ids.drop_last(), a, ov, fuel);
        lemma_eval_mono(f, ids.last(), a, ov, fuel);
    }
}

proof fn lemma_loop_mono(
    f: Function,
    termination: NodeId,
    outputs: Seq<NodeId>,
    carried_inputs: Seq<NodeId>,
    carried: Seq<Val>,
    a: Seq<Val>,
    fuel: nat,
)
    requires
        eval_loop(f, termination, outputs, carried_inputs, carried, a, fuel) is Some,
    ensures
        eval_loop(f, termination, outputs, carried_inputs, carried, a, fuel + 1) == eval_loop(
            f,
            termination,
            outputs,
            carried_inputs,
            carried,
            a,
            fuel,
        ),
    decreases fuel, 2nat, 0nat,
{
    let it = zip_pairs(carried_inputs, carried);
    lemma_eval_mono(f, termination, a, it, fuel);
    if spec_eval(f, termination, a, it, fuel) == Some(Val::Bool(true)) {
        lemma_list_mono(f, outputs, a, it, fuel);
        let next = eval_list(f, outputs, a, it, fuel)->0;
        lemma_loop_mono(f, termination, outputs, carried_inputs, next, a, (fuel - 1) as nat);
    }
}

/// More evaluation steps never change a value found: once `fuel` steps give
/// a node a value, any larger bound gives the same value.
pub proof fn law_more_steps_same_value(
    f: Function,
    id: NodeId,
    args: Seq<Val>,
    ov: Seq<(NodeId, Val)>,
    fuel: nat,
    more: nat,
)
    requires
        spec_eval(f, id, args, ov, fuel) is Some,
    ensures
        spec_eval(f, id, args, ov, fuel + more) == spec_eval(f, id, args, ov, fuel),
    decreases more,
{
    if more > 0 {
        law_more_steps_same_value(f, id, args, ov, fuel, (more - 1) as nat);
        lemma_eval_mono(f, id, args, ov, (fuel + more - 1) as nat);
    }
}

fn eval_pair(
    f: &Function,
    a: NodeId,
    b: NodeId,
    args: &Vec<Value>,
    ov: &Vec<(NodeId, Value)>,
    fuel: u64,
) -> (r: (Option<Value>, Option<Value>))
    ensures
        option_view(r.0) == spec_eval(*f, a, seq_view(args@), overrides_view(ov@), fuel as nat),
        option_view(r.1) == spec_eval(*f, b, seq_view(args@), overrides_view(ov@), fuel as nat),
    decreases fuel, 3nat, 0nat,
{
    (eval_node(f, a, args, ov, fuel), eval_node(f, b, args, ov, fuel))
}

/// Evaluates node `id` of `f` (see `spec_eval`): `None` where evaluation
/// fails or the steps run out.
#[verifier::rlimit(60)]
pub fn eval_node(f: &Function, id: NodeId, args: &Vec<Value>, overrides: &Vec<(NodeId, Value)>, fuel: u64) -> (r: Option<
    Value,
>)
    ensures
        option_view(r) == spec_eval(*f, id, seq_view(args@), overrides_view(overrides@), fuel as nat),
    decreases fuel, 0nat, 0nat,
{
    let ov = overrides;
    if fuel == 0 {
        return None;
    }
    let g = fuel - 1;
    match lookup_exec(ov, id) {
        Some(v) => {
            return Some(v);
        },
        None => {},
    }
    let n = match f.get_node(id) {
        Some(n) => n,
        None => {
            return None;
        },
    };
    match &n.kind {
        NodeKind::Parameter { index } => if *index < args.len() {
            Some(clone_value(&args[*index]))
        } else {
            None
        },
        NodeKind::Constant(d) => const_val_exec(d, n.ty),
        NodeKind::Add { lhs, rhs } => {
            let (a, b) = eval_pair(f, *lhs, *rhs, args, ov, g);
            arith_exec(a, b, true)
        },
        NodeKind::Sub { lhs, rhs } => {
            let (a, b) = eval_pair(f, *lhs, *rhs, args, ov, g);
            arith_exec(a, b, false)
        },
        NodeKind::Lt { lhs, rhs } => {
            let (a, b) = eval_pair(f, *lhs, *rhs, args, ov, g);
            compare_result_exec(a, b, CmpOperator::Lt)
        },
        NodeKind::Le { lhs, rhs } => {
            let (a, b) = eval_pair(f, *lhs, *rhs, args, ov, g);
            compare_result_exec(a, b, CmpOperator::Le)
        },
        NodeKind::Gt { lhs, rhs } => {
            let (a, b) = eval_pair(f, *lhs, *rhs, args, ov, g);
            compare_result_exec(a, b, CmpOperator::Gt)
        },
        NodeKind::Ge { lhs, rhs } => {
            let (a, b) = eval_pair(f, *lhs, *rhs, args, ov, g);
            compare_result_exec(a, b, CmpOperator::Ge)
        },
        NodeKind::Eq { lhs, rhs } => {
            let (a, b) = eval_pair(f, *lhs, *rhs, args, ov, g);
            compare_result_exec(a, b, CmpOperator::Eq)
        },
        NodeKind::Ne { lhs, rhs } => {
            let (a, b) = eval_pair(f, *lhs, *rhs, args, ov, g);
            compare_result_exec(a, b, CmpOperator::Ne)
        },
        NodeKind::BoolOr { lhs, rhs } => match eval_node(f, *lhs, args, ov, g) {
            Some(Value::Bool(a)) => if a {
                Some(Value::Bool(true))
            } else {
                match eval_node(f, *rhs, args, ov, g) {
                    Some(Value::Bool(b)) => Some(Value::Bool(b)),
                    _ => None,
                }
            },
            _ => None,
        },
        NodeKind::BoolAnd { lhs, rhs } => match eval_node(f, *lhs, args, ov, g) {
            Some(Value::Bool(a)) => if !a {
                Some(Value::Bool(false))
            } else {
                match eval_node(f, *rhs, args, ov, g) {
                    Some(Value::Bool(b)) => Some(Value::Bool(b)),
                    _ => None,
                }
            },
            _ => None,
        },
        NodeKind::Select { cond, true_val, false_val } => match eval_node(f, *cond, args, ov, g) {
            Some(Value::Bool(c)) => if c {
                eval_node(f, *true_val, args, ov, g)
            } else {
                eval_node(f, *false_val, args, ov, g)
            },
            _ => None,
        },
        NodeKind::ArrayAccess { base, index } => {
            let (i, b) = eval_pair(f, *index, *base, args, ov, g);
            let t = match f.get_node(*base) {
                Some(bn) => Some(bn.ty),
                None => None,
            };
            access_exec(i, t, b)
        },
        NodeKind::FieldAccess { base, field } => match eval_node(f, *base, args, ov, g) {
            Some(Value::Tuple(t)) => {
                proof {
                    lemma_tuple_view(t);
                }
                let cs = chars_of(field.as_str());
                match parse_usize(&cs) {
                    Some(k) => if k < t.len() {
                        Some(clone_value(&t[k]))
                    } else {
                        None
                    },
                    None => None,
                }
            },
            _ => None,
        },
        NodeKind::TupleExtract { tuple, index } => match eval_node(f, *tuple, args, ov, g) {
            Some(Value::Tuple(t)) => {
                proof {
                    lemma_tuple_view(t);
                }
                if *index < t.len() {
                    Some(clone_value(&t[*index]))
                } else {
                    None
                }
            },
            _ => None,
        },
        NodeKind::Pack { array } => match eval_node(f, *array, args, ov, g) {
            Some(Value::BoolArray(a)) => Some(Value::Bits(pack_bools(&a))),
            _ => None,
        },
        NodeKind::ArrayCmpMask { array, scalar, op } => {
            let t = match f.get_node(*array) {
                Some(an) => Some(an.ty),
                None => None,
            };
            let (a, s) = eval_pair(f, *array, *scalar, args, ov, g);
            mask_exec(t, a, s, *op)
        },
        NodeKind::Convert { operand, .. } => match eval_node(f, *operand, args, ov, g) {
            Some(Value::Int { bits, .. }) => int_of_type_exec(bits, n.ty),
            _ => None,
        },
        NodeKind::Loop { termination, outputs, carried_inputs, .. } => match eval_list_exec(
            f,
            carried_inputs,
            args,
            ov,
            g,
        ) {
            Some(c) => eval_loop_exec(f, *termination, outputs, carried_inputs, c, args, g),
            None => None,
        },
        NodeKind::Return { value } => eval_node(f, *value, args, ov, g),
        _ => None,
    }
}

fn eval_list_exec(
    f: &Function,
    ids: &Vec<NodeId>,
    args: &Vec<Value>,
    ov: &Vec<(NodeId, Value)>,
    fuel: u64,
) -> (r: Option<Vec<Value>>)
    ensures
        match r {
            Some(vs) => eval_list(*f, ids@, seq_view(args@), overrides_view(ov@), fuel as nat) == Some(seq_view(vs@)),
            None => eval_list(*f, ids@, seq_view(args@), overrides_view(ov@), fuel as nat) is None,
        },
    decreases fuel, 1nat, ids@.len(),
{
    let ghost a = seq_view(args@);
    let ghost o = overrides_view(ov@);
    let mut out: Vec<Value> = Vec::new();
    let mut i: usize = 0;
    assert(ids@.subrange(0, 0) =~= Seq::<NodeId>::empty());
    assert(seq_view(out@) =~= Seq::<Val>::empty());
    while i < ids.len()
        invariant
            a == seq_view(args@),
            o == overrides_view(ov@),
            i <= ids@.len(),
            eval_list(*f, ids@.subrange(0, i as int), a, o, fuel as nat) == Some(seq_view(out@)),
        decreases ids@.len() - i,
    {
        let ghost pre = ids@.subrange(0, i + 1);
        assert(pre.drop_last() =~= ids@.subrange(0, i as int));
        assert(pre.last() == ids@[i as int]);
        match eval_node(f, ids[i], args, ov, fuel) {
            Some(v) => {
                let ghost before = out@;
                out.push(v);
                assert(seq_view(out@) =~= seq_view(before).push(value_view(v)));
            },
            None => {
                proof {
                    lemma_eval_list_none(*f, ids@, a, o, fuel as nat, (i + 1) as nat);
                }
                return None;
            },
        }
        i += 1;
    }
    assert(ids@.subrange(0, ids@.len() as int) =~= ids@);
    Some(out)
}

/// Once a prefix of a list has no value, the whole list has none.
proof fn lemma_eval_list_none(f: Function, ids: Seq<NodeId>, args: Seq<Val>, ov: Seq<(NodeId, Val)>, fuel: nat, k: nat)
    requires
        k <= ids.len(),
        eval_list(f, ids.subrange(0, k as int), args, ov, fuel) is None,
    ensures
        eval_list(f, ids, args, ov, fuel) is None,
    decreases ids.len() - k,
{
    if k < ids.len() {
        let next = ids.subrange(0, (k + 1) as int);
        assert(next.drop_last() =~= ids.subrange(0, k as int));
        lemma_eval_list_none(f, ids, args, ov, fuel, k + 1);
    } else {
        assert(ids.subrange(0, k as int) =~= ids);
    }
}

fn eval_loop_exec(
    f: &Function,
    termination: NodeId,
    outputs: &Vec<NodeId>,
    carried_inputs: &Vec<NodeId>,
    carried: Vec<Value>,
    args: &Vec<Value>,
    fuel: u64,
) -> (r: Option<Value>)
    ensures
        option_view(r) == eval_loop(
            *f,
            termination,
            outputs@,
            carried_inputs@,
            seq_view(carried@),
            seq_view(args@),
            fuel as nat,
        ),
    decreases fuel, 2nat, 0nat,
{
    if fuel == 0 {
        return None;
    }
    let m = if carried_inputs.len() <= carried.len() { carried_inputs.len() } else { carried.len() };
    let mut it: Vec<(NodeId, Value)> = Vec::new();
    let mut i: usize = 0;
    while i < m
        invariant
            i <= m,
            m == (if carried_inputs@.len() <= carried@.len() { carried_inputs@.len() } else { carried@.len() }),
            it@.len() == i,
            forall|k: int| 0 <= k < i ==> #[trigger] overrides_view(it@)[k] == (carried_inputs@[k], value_view(carried@[k])),
        decreases m - i,
    {
        let c = clone_value(&carried[i]);
        let ghost before = it@;
        it.push((carried_inputs[i], c));
        proof {
            assert forall|k: int| 0 <= k < i + 1 implies #[trigger] overrides_view(it@)[k] == (
                carried_inputs@[k],
                value_view(carried@[k]),
            ) by {
                if k < i {
                    assert(it@[k] == before[k]);
                    assert(overrides_view(before)[k] == (before[k].0, value_view(before[k].1)));
                }
            }
        }
        i += 1;
    }
    assert(overrides_view(it@) =~= zip_pairs(carried_inputs@, seq_view(carried@)));
    match eval_node(f, termination, args, &it, fuel) {
        Some(Value::Bool(b)) => if !b {
            proof {
                lemma_tuple_view(carried);
            }
            Some(Value::Tuple(carried))
        } else {
            match eval_list_exec(f, outputs, args, &it, fuel) {
                Some(next) => eval_loop_exec(f, termination, outputs, carried_inputs, next, args, fuel - 1),
                None => None,
            }
        },
        _ => None,
    }
}

/// Evaluates a function: the value of its return node (nothing when it has
/// none).
pub fn eval_function(f: &Function, args: &Vec<Value>, fuel: u64) -> (r: Option<Value>)
    ensures
        option_view(r) == match f.return_node {
            Some(ret) => spec_eval(*f, ret, seq_view(args@), Seq::empty(), fuel as nat),
            None => None,
        },
{
    match f.return_node {
        Some(ret) => {
            let ov: Vec<(NodeId, Value)> = Vec::new();
            assert(overrides_view(ov@) =~= Seq::<(NodeId, Val)>::empty());
            eval_node(f, ret, args, &ov, fuel)
        },
        None => None,
    }
}


/// The number the bits `bits` hold at a width and signedness: two's
/// complement when signed, the plain low bits otherwise.
pub open spec fn int_at(bits: u128, signed: bool, width: u32) -> int {
    if signed {
        signed_value(bits, width)
    } else {
        low_bits(bits, width)
    }
}

/// A comparison node whose operands evaluate to integers is the truth value
/// of its comparison (`<`, `<=`, `>`, `>=`, `==`, `!=`) on the two numbers,
/// both read at the left operand's width and signedness.
pub proof fn law_integer_comparisons(
    f: Function,
    id: NodeId,
    args: Seq<Val>,
    ov: Seq<(NodeId, Val)>,
    fuel: nat,
    n: crate::ir::Node,
    lb: u128,
    rb: u128,
    signed: bool,
    width: u32,
    r_signed: bool,
    r_width: u32,
)
    requires
        fuel > 0,
        lookup_last(ov, id) is None,
        node_of(f.arena@, id) == Some(n),
        signed ==> 1 <= width <= 128,
        match n.kind {
            NodeKind::Lt { lhs, rhs } | NodeKind::Le { lhs, rhs } | NodeKind::Gt { lhs, rhs }
            | NodeKind::Ge { lhs, rhs } | NodeKind::Eq { lhs, rhs } | NodeKind::Ne { lhs, rhs } =>
                spec_eval(f, lhs, args, ov, (fuel - 1) as nat) == Some(Val::Int { bits: lb, signed, width })
                && spec_eval(f, rhs, args, ov, (fuel - 1) as nat) == Some(
                    Val::Int { bits: rb, signed: r_signed, width: r_width },
                ),
            _ => false,
        },
    ensures
        n.kind is Lt ==> spec_eval(f, id, args, ov, fuel) == Some(
            Val::Bool(int_at(lb, signed, width) < int_at(rb, signed, width)),
        ),
        n.kind is Le ==> spec_eval(f, id, args, ov, fuel) == Some(
            Val::Bool(int_at(lb, signed, width) <= int_at(rb, signed, width)),
        ),
        n.kind is Gt ==> spec_eval(f, id, args, ov, fuel) == Some(
            Val::Bool(int_at(lb, signed, width) > int_at(rb, signed, width)),
        ),
        n.kind is Ge ==> spec_eval(f, id, args, ov, fuel) == Some(
            Val::Bool(int_at(lb, signed, width) >= int_at(rb, signed, width)),
        ),
        n.kind is Eq ==> spec_eval(f, id, args, ov, fuel) == Some(
            Val::Bool(int_at(lb, signed, width) == int_at(rb, signed, width)),
        ),
        n.kind is Ne ==> spec_eval(f, id, args, ov, fuel) == Some(
            Val::Bool(int_at(lb, signed, width) != int_at(rb, signed, width)),
        ),
{
    let l = Val::Int { bits: lb, signed, width };
    let r = Val::Int { bits: rb, signed: r_signed, width: r_width };
    assert(comparable(l, r, CmpOperator::Lt));
    assert(comparable(l, r, CmpOperator::Eq));
}


/// The modulus of integers of width `w`: `2^w`, and `2^128` from 128 bits
/// on.
pub open spec fn modulus(w: u32) -> int {
    if w >= 128 {
        pow2(128) as int
    } else {
        pow2(w as nat) as int
    }
}

/// `wrap_bits` of a sum or difference modulo `2^128` is the exact sum or
/// difference modulo the width's modulus.
proof fn lemma_wrapped_exact(x: u128, y: u128, w: u32)
    ensures
        wrap_bits(add128(x, y), w) as int == (x + y) % modulus(w),
        wrap_bits(sub128(x, y), w) as int == (x - y) % modulus(w),
{
    crate::facts::lemma_pow2_values();
    let big: int = pow2(128) as int;
    vstd::arithmetic::div_mod::lemma_mod_multiples_vanish(-1, x + y, big);
    vstd::arithmetic::div_mod::lemma_mod_multiples_vanish(1, x - y, big);
    assert(add128(x, y) as int == (x + y) % big);
    assert(sub128(x, y) as int == (x - y) % big);
    if w < 128 {
        let p = pow2(w as nat) as int;
        let q = pow2((128 - w) as nat) as int;
        vstd::arithmetic::power2::lemma_pow2_adds(w as nat, (128 - w) as nat);
        vstd::arithmetic::power2::lemma_pow2_pos(w as nat);
        vstd::arithmetic::power2::lemma_pow2_pos((128 - w) as nat);
        assert(p * q == big);
        vstd::arithmetic::div_mod::lemma_mod_mod(x + y, p, q);
        vstd::arithmetic::div_mod::lemma_mod_mod(x - y, p, q);
        assert(((x + y) % big) % p == (x + y) % p);
        assert(((x - y) % big) % p == (x - y) % p);
        crate::facts::lemma_pow2_monotone(w as nat, 128);
        vstd::arithmetic::div_mod::lemma_mod_bound(add128(x, y) as int, p);
        vstd::arithmetic::div_mod::lemma_mod_bound(sub128(x, y) as int, p);
        assert(wrap_bits(add128(x, y), w) as int == (add128(x, y) as int) % p);
        assert(wrap_bits(sub128(x, y), w) as int == (sub128(x, y) as int) % p);
    } else {
        assert(modulus(w) == big);
    }
}

/// An addition or subtraction node whose operands evaluate to integers is
/// the unsigned integer at the left operand's width whose bits are the exact
/// sum or difference modulo `2^width` (`2^128` from 128 bits on).
pub proof fn law_integer_arithmetic(
    f: Function,
    id: NodeId,
    args: Seq<Val>,
    ov: Seq<(NodeId, Val)>,
    fuel: nat,
    n: crate::ir::Node,
    x: u128,
    y: u128,
    signed: bool,
    width: u32,
    r_signed: bool,
    r_width: u32,
)
    requires
        fuel > 0,
        lookup_last(ov, id) is None,
        node_of(f.arena@, id) == Some(n),
        match n.kind {
            NodeKind::Add { lhs, rhs } | NodeKind::Sub { lhs, rhs } =>
                spec_eval(f, lhs, args, ov, (fuel - 1) as nat) == Some(Val::Int { bits: x, signed, width })
                && spec_eval(f, rhs, args, ov, (fuel - 1) as nat) == Some(
                    Val::Int { bits: y, signed: r_signed, width: r_width },
                ),
            _ => false,
        },
    ensures
        spec_eval(f, id, args, ov, fuel) matches Some(Val::Int { bits, signed: false, width: w }) && w == width
            && bits as int == (if n.kind is Add {
            (x + y) % modulus(width)
        } else {
            (x - y) % modulus(width)
        }),
{
    lemma_wrapped_exact(x, y, width);
}


/// The boolean operations on operands that evaluate to booleans are their
/// conjunction and disjunction, and a selection on a boolean condition is
/// the value of the operand it chooses.
pub proof fn law_boolean_operations(
    f: Function,
    id: NodeId,
    args: Seq<Val>,
    ov: Seq<(NodeId, Val)>,
    fuel: nat,
    n: crate::ir::Node,
    p: bool,
    q: bool,
)
    requires
        fuel > 0,
        lookup_last(ov, id) is None,
        node_of(f.arena@, id) == Some(n),
        match n.kind {
            NodeKind::BoolAnd { lhs, rhs } | NodeKind::BoolOr { lhs, rhs } =>
                spec_eval(f, lhs, args, ov, (fuel - 1) as nat) == Some(Val::Bool(p))
                && spec_eval(f, rhs, args, ov, (fuel - 1) as nat) == Some(Val::Bool(q)),
            NodeKind::Select { cond, .. } => spec_eval(f, cond, args, ov, (fuel - 1) as nat) == Some(Val::Bool(p)),
            _ => false,
        },
    ensures
        n.kind is BoolAnd ==> spec_eval(f, id, args, ov, fuel) == Some(Val::Bool(p && q)),
        n.kind is BoolOr ==> spec_eval(f, id, args, ov, fuel) == Some(Val::Bool(p || q)),
        n.kind matches NodeKind::Select { true_val, false_val, .. } ==> spec_eval(f, id, args, ov, fuel)
            == spec_eval(
            f,
            if p {
                true_val
            } else {
                false_val
            },
            args,
            ov,
            (fuel - 1) as nat,
        ),
{
}


/// A conversion to an integer type of an operand that evaluates to an
/// integer keeps the operand's bits modulo `2^N` for the type's `N` bits,
/// with the type's signedness and width; to any other type it has no value.
pub proof fn law_integer_conversion(
    f: Function,
    id: NodeId,
    args: Seq<Val>,
    ov: Seq<(NodeId, Val)>,
    fuel: nat,
    n: crate::ir::Node,
    operand: NodeId,
    b: u128,
    o_signed: bool,
    o_width: u32,
)
    requires
        fuel > 0,
        lookup_last(ov, id) is None,
        node_of(f.arena@, id) == Some(n),
        n.kind matches NodeKind::Convert { operand: o, .. } && o == operand,
        spec_eval(f, operand, args, ov, (fuel - 1) as nat) == Some(
            Val::Int { bits: b, signed: o_signed, width: o_width },
        ),
    ensures
        n.ty matches IrType::Integer { width, signed } ==> (spec_eval(f, id, args, ov, fuel) matches Some(
            Val::Int { bits, signed: s, width: w },
        ) && s == signed && w == width_bits(width) && bits as int == (b as int) % modulus(width_bits(width) as u32)),
        !(n.ty is Integer) ==> spec_eval(f, id, args, ov, fuel) is None,
{
    if let IrType::Integer { width, signed } = n.ty {
        let w = width_bits(width) as u32;
        crate::facts::lemma_pow2_values();
        if w < 128 {
            vstd::arithmetic::power2::lemma_pow2_pos(w as nat);
            crate::facts::lemma_pow2_monotone(w as nat, 128);
            vstd::arithmetic::div_mod::lemma_mod_bound(b as int, pow2(w as nat) as int);
        } else {
            vstd::arithmetic::div_mod::lemma_small_mod(b as nat, pow2(128));
        }
    }
}

} // verus!
