//! Value model and input generators of the held-out evaluation harness.
//!
//! Integer values are raw two's-complement bits with a declared width and
//! signedness; bit-vectors are word-chunked so extents up to 512 fit.
use vstd::prelude::*;
use vstd::arithmetic::power2::{pow2, lemma_pow2_unfold, lemma_pow2_pos, lemma2_to64};
use vstd::arithmetic::div_mod::lemma_mod_breakdown;
use crate::text::{str_eq, chars_of, string_of};
use crate::chars::{trim_start_char, starts_with, trim_start_char_vec, starts_with_vec, slice_chars, trim, lines, split_char, views, trim_vec, lines_vec, split_vec};
use crate::numparse::{parse_nat, parse_int, parses_u32, parses_i128, parse_u32, parse_i128, parses_usize, parse_usize};

verus! {

/// An interpreted value.
#[derive(Debug, PartialEq, Eq)]
pub enum Value {
    Bool(bool),
    /// Integer values: raw two's-complement bits, declared width + signedness.
    Int { bits: u128, signed: bool, width: u32 },
    /// Bit-vector (packed collection): word-chunked so extents up to 512 fit.
    Bits(Vec<u64>),
    BoolArray(Vec<bool>),
    IntArray(Vec<u128>),
    Tuple(Vec<Value>),
}

proof fn lemma_shl_one_is_pow2(w: u32)
    requires
        w < 128,
    ensures
        (1u128 << w) as nat == pow2(w as nat),
    decreases w,
{
    if w == 0 {
        assert(1u128 << 0u32 == 1) by (bit_vector);
        lemma2_to64();
    } else {
        lemma_shl_one_is_pow2((w - 1) as u32);
        assert(1u128 << w == 2 * (1u128 << ((w - 1) as u32))) by (bit_vector)
            requires
                0 < w < 128,
        ;
        lemma_pow2_unfold(w as nat);
    }
}

/// The low `w` bits of a 128-bit word as a mask.
spec fn low_mask(w: u32) -> u128 {
    ((1u128 << w) - 1) as u128
}

proof fn lemma_mask_split(x: u128, w: u32)
    requires
        0 < w < 128,
    ensures
        x & low_mask(w) == 2 * ((x / 2) & low_mask((w - 1) as u32)) + x % 2,
{
    assert(x & (((1u128 << w) - 1) as u128) == 2 * ((x / 2) & (((1u128 << ((w - 1) as u32)) - 1) as u128)) + x % 2) by (bit_vector)
        requires
            0 < w < 128,
    ;
}

proof fn lemma_mask_is_mod(x: u128, w: u32)
    requires
        w < 128,
    ensures
        (x & low_mask(w)) as nat == x as nat % pow2(w as nat),
    decreases w,
{
    if w == 0 {
        assert(x & (((1u128 << 0u32) - 1) as u128) == 0) by (bit_vector);
        lemma2_to64();
    } else {
        lemma_mask_split(x, w);
        lemma_mask_is_mod(x / 2, (w - 1) as u32);
        lemma_pow2_unfold(w as nat);
        lemma_pow2_pos((w - 1) as nat);
        lemma_mod_breakdown(x as int, 2, pow2((w - 1) as nat) as int);
    }
}

/// Truncates `bits` to its low `width` bits (all of them from 128 on).
pub fn wrap(bits: u128, width: u32) -> (r: u128)
    ensures
        width >= 128 ==> r == bits,
        width < 128 ==> r as nat == bits as nat % pow2(width as nat),
{
    if width >= 128 {
        bits
    } else {
        proof {
            lemma_mask_is_mod(bits, width);
            assert((1u128 << width) >= 1) by (bit_vector)
                requires
                    width < 128,
            ;
        }
        bits & ((1u128 << width) - 1)
    }
}

/// The boolean held by a `Bool` value.
pub fn as_bool(value: Value) -> (b: bool)
    requires
        value is Bool,
    ensures
        value == Value::Bool(b),
{
    match value {
        Value::Bool(b) => b,
        _ => {
            assert(false);
            false
        },
    }
}

/// The words of a bit-vector view of an integer: `max(ceil(width / 64), 1)`
/// words, the low 64 bits first, then (for widths above 64) the next 64
/// bits, then zeros.
pub open spec fn int_words(bits: u128, width: u32) -> Seq<u64> {
    let n = if (width + 63) / 64 >= 1 { (width + 63) / 64 } else { 1 };
    Seq::new(
        n as nat,
        |i: int|
            if i == 0 {
                bits as u64
            } else if i == 1 && width > 64 {
                (bits >> 64u32) as u64
            } else {
                0u64
            },
    )
}

/// The words of a bit-vector or integer value.
pub fn as_bits(value: Value) -> (words: Vec<u64>)
    requires
        value is Bits || value is Int,
        value matches Value::Int { width, .. } ==> width as int + 63 <= usize::MAX,
    ensures
        value matches Value::Bits(w) ==> words@ == w@,
        value matches Value::Int { bits, width, .. } ==> words@ == int_words(bits, width),
{
    match value {
        Value::Bits(words) => words,
        Value::Int { bits, width, .. } => {
            let words = (width as usize + 63) / 64;
            let n = if words >= 1 { words } else { 1 };
            let mut out: Vec<u64> = Vec::new();
            let mut i: usize = 0;
            while i < n
                invariant
                    i <= n,
                    out@.len() == i,
                    forall|k: int| 0 <= k < i ==> out@[k] == 0,
                decreases n - i,
            {
                out.push(0);
                i += 1;
            }
            out.set(0, bits as u64);
            if width > 64 {
                out.set(1, (bits >> 64) as u64);
            }
            assert(out@ =~= int_words(bits, width));
            out
        },
        _ => {
            assert(false);
            Vec::new()
        },
    }
}

/// Bit `j` of a word-chunked bit-vector.
pub open spec fn word_bit(words: Seq<u64>, j: int) -> bool {
    (words[j / 64] >> ((j % 64) as u64)) & 1 == 1
}

proof fn lemma_set_bit(x: u64, s: u64, t: u64)
    requires
        s < 64,
        t < 64,
    ensures
        ((x | (1u64 << s)) >> t) & 1 == (if s == t { 1 } else { (x >> t) & 1 }),
{
    assert(((x | (1u64 << s)) >> t) & 1 == (if s == t { 1 } else { (x >> t) & 1 })) by (bit_vector)
        requires
            s < 64,
            t < 64,
    ;
}

proof fn lemma_zero_bits(t: u64)
    requires
        t < 64,
    ensures
        (0u64 >> t) & 1 == 0,
{
    assert((0u64 >> t) & 1 == 0) by (bit_vector);
}

/// Packs booleans into a bit-vector: bit `i` is set exactly when
/// `array[i]` is true; the words hold `ceil(len / 64)` words.
pub fn bits_from_bools(array: &[bool]) -> (v: Value)
    ensures
        v matches Value::Bits(w) && w@.len() == (array@.len() + 63) / 64 && forall|j: int|
            0 <= j < 64 * w@.len() ==> (word_bit(w@, j) <==> (j < array@.len() && array@[j])),
{
    let n = array.len() / 64 + if array.len() % 64 == 0 { 0 } else { 1 };
    assert(n == (array@.len() + 63) / 64);
    let mut words: Vec<u64> = Vec::new();
    let mut k: usize = 0;
    while k < n
        invariant
            k <= n,
            words@.len() == k,
            forall|m: int| 0 <= m < k ==> words@[m] == 0,
        decreases n - k,
    {
        words.push(0);
        k += 1;
    }
    assert forall|j: int| 0 <= j < 64 * n implies !word_bit(words@, j) by {
        lemma_zero_bits((j % 64) as u64);
    }
    let mut i: usize = 0;
    while i < array.len()
        invariant
            i <= array@.len(),
            n == (array@.len() + 63) / 64,
            words@.len() == n,
            forall|j: int|
                0 <= j < 64 * n ==> (word_bit(words@, j) <==> (j < i && array@[j])),
        decreases array@.len() - i,
    {
        if array[i] {
            let ghost before = words@;
            assert(i / 64 < n);
            let w = words[i / 64] | (1u64 << ((i % 64) as u64));
            words.set(i / 64, w);
            assert forall|j: int| 0 <= j < 64 * n implies (word_bit(words@, j) <==> (j < i + 1
                && array@[j])) by {
                let wi = (i / 64) as int;
                if j / 64 != wi {
                    assert(words@[j / 64] == before[j / 64]);
                    assert(word_bit(words@, j) == word_bit(before, j));
                    assert(j != i);
                } else {
                    assert(words@[j / 64] == (before[wi] | (1u64 << ((i % 64) as u64))));
                    lemma_set_bit(before[wi], (i % 64) as u64, (j % 64) as u64);
                    if j != i {
                        assert(j % 64 != (i % 64) as int);
                        assert(word_bit(before, j) == word_bit(words@, j));
                    } else {
                        assert(word_bit(words@, j));
                        assert(array@[j]);
                    }
                }
            }
        }
        i += 1;
    }
    Value::Bits(words)
}

/// One step of the xorshift64 generator.
pub open spec fn xorshift_step(x: u64) -> u64 {
    let a = x ^ (x << 13u64);
    let b = a ^ (a >> 7u64);
    b ^ (b << 17u64)
}

/// The xorshift64 state after `k` steps from `seed`.
pub open spec fn xorshift_iter(seed: u64, k: nat) -> u64
    decreases k,
{
    if k == 0 {
        seed
    } else {
        xorshift_step(xorshift_iter(seed, (k - 1) as nat))
    }
}

/// Advances the xorshift64 state and returns the new state.
pub fn xorshift64(state: &mut u64) -> (r: u64)
    ensures
        r == xorshift_step(*old(state)),
        *final(state) == r,
{
    let mut x = *state;
    x ^= x << 13;
    x ^= x >> 7;
    x ^= x << 17;
    *state = x;
    x
}

/// Operand width in bits for an element type name.
pub open spec fn spec_int_arg_width(elem: Seq<char>) -> u32 {
    if elem == "u8"@ || elem == "i8"@ {
        8
    } else if elem == "u16"@ || elem == "i16"@ {
        16
    } else if elem == "u32"@ || elem == "i32"@ {
        32
    } else {
        64
    }
}

/// Operand width in bits for an element type name (64 for any other name).
pub fn int_arg_width(elem: &str) -> (w: u32)
    ensures
        w == spec_int_arg_width(elem@),
{
    if str_eq(elem, "u8") || str_eq(elem, "i8") {
        8
    } else if str_eq(elem, "u16") || str_eq(elem, "i16") {
        16
    } else if str_eq(elem, "u32") || str_eq(elem, "i32") {
        32
    } else {
        64
    }
}

proof fn lemma_xorshift_iter_add(s: u64, a: nat, b: nat)
    ensures
        xorshift_iter(xorshift_iter(s, a), b) == xorshift_iter(s, a + b),
    decreases b,
{
    if b > 0 {
        lemma_xorshift_iter_add(s, a, (b - 1) as nat);
    }
}

/// The booleans of bit pattern `mask` over `extent` positions: position `i`
/// holds bit `i` of the mask.
pub open spec fn mask_bools(mask: u32, extent: nat) -> Seq<bool> {
    Seq::new(extent, |i: int| (mask >> (i as u32)) & 1 == 1)
}

/// `extent` copies of `b`.
pub open spec fn constant_bools(b: bool, extent: nat) -> Seq<bool> {
    Seq::new(extent, |i: int| b)
}

/// `extent` booleans with only position `p` true.
pub open spec fn one_hot_bools(p: nat, extent: nat) -> Seq<bool> {
    Seq::new(extent, |i: int| i == p)
}

/// `extent` booleans, true at even positions.
pub open spec fn alternating_bools(extent: nat) -> Seq<bool> {
    Seq::new(extent, |i: int| i % 2 == 0)
}

/// `extent` pseudo-random booleans: the low bit of each successive
/// xorshift64 state after `seed`.
pub open spec fn random_bools(seed: u64, extent: nat) -> Seq<bool> {
    Seq::new(extent, |i: int| xorshift_iter(seed, (i + 1) as nat) & 1 == 1)
}

/// Seed of the pseudo-random boolean cases for an extent.
pub open spec fn bool_seed(extent: usize) -> u64 {
    0xC0FFEEu64 ^ (extent as u64)
}

/// The boolean input cases of an extent: every bit pattern when the extent
/// is at most 12; otherwise all false, all true, one-hot at the first,
/// middle and last position, alternating, and eight pseudo-random cases
/// drawn from one xorshift64 stream.
pub open spec fn bool_cases(extent: usize) -> Seq<Seq<bool>> {
    let e = extent as nat;
    if extent <= 12 {
        Seq::new(pow2(e), |m: int| mask_bools(m as u32, e))
    } else {
        seq![
            constant_bools(false, e),
            constant_bools(true, e),
            one_hot_bools(0, e),
            one_hot_bools(e / 2, e),
            one_hot_bools((e - 1) as nat, e),
            alternating_bools(e),
        ] + Seq::new(8, |j: int| random_bools(xorshift_iter(bool_seed(extent), (j * e) as nat), e))
    }
}

fn mask_case(mask: u32, extent: usize) -> (v: Vec<bool>)
    requires
        extent <= 12,
    ensures
        v@ == mask_bools(mask, extent as nat),
{
    let mut v: Vec<bool> = Vec::new();
    let mut i: usize = 0;
    while i < extent
        invariant
            i <= extent,
            extent <= 12,
            v@ == mask_bools(mask, extent as nat).subrange(0, i as int),
        decreases extent - i,
    {
        let ii = i as u32;
        assert((mask & (1u32 << ii) != 0) == ((mask >> ii) & 1 == 1)) by (bit_vector)
            requires
                ii < 32,
        ;
        v.push(mask & (1u32 << ii) != 0);
        i += 1;
        assert(v@ =~= mask_bools(mask, extent as nat).subrange(0, i as int));
    }
    assert(v@ =~= mask_bools(mask, extent as nat));
    v
}

fn filled(b: bool, extent: usize) -> (v: Vec<bool>)
    ensures
        v@ == constant_bools(b, extent as nat),
{
    let mut v: Vec<bool> = Vec::new();
    let mut i: usize = 0;
    while i < extent
        invariant
            i <= extent,
            v@ == constant_bools(b, i as nat),
        decreases extent - i,
    {
        v.push(b);
        i += 1;
        assert(v@ =~= constant_bools(b, i as nat));
    }
    v
}

fn random_case(extent: usize, seed: &mut u64) -> (v: Vec<bool>)
    ensures
        v@ == random_bools(*old(seed), extent as nat),
        *final(seed) == xorshift_iter(*old(seed), extent as nat),
{
    let ghost s0 = *seed;
    let mut v: Vec<bool> = Vec::new();
    let mut i: usize = 0;
    while i < extent
        invariant
            i <= extent,
            *seed == xorshift_iter(s0, i as nat),
            v@ == random_bools(s0, extent as nat).subrange(0, i as int),
        decreases extent - i,
    {
        let x = xorshift64(seed);
        v.push(x & 1 == 1);
        i += 1;
        assert(v@ =~= random_bools(s0, extent as nat).subrange(0, i as int));
    }
    assert(v@ =~= random_bools(s0, extent as nat));
    v
}

/// The boolean input cases of an extent (see `bool_cases`).
pub fn bool_inputs(extent: usize) -> (cases: Vec<Vec<bool>>)
    ensures
        cases@.len() == bool_cases(extent).len(),
        forall|k: int| 0 <= k < cases@.len() ==> (#[trigger] cases@[k])@ == bool_cases(extent)[k],
{
    let mut cases: Vec<Vec<bool>> = Vec::new();
    if extent <= 12 {
        let limit = 1u32 << (extent as u32);
        proof {
            vstd::bits::lemma_u32_pow2_no_overflow(extent as nat);
            vstd::bits::lemma_u32_shl_is_mul(1, extent as u32);
        }
        let mut mask: u32 = 0;
        while mask < limit
            invariant
                extent <= 12,
                limit as nat == pow2(extent as nat),
                mask <= limit,
                cases@.len() == mask,
                forall|k: int| 0 <= k < mask ==> (#[trigger] cases@[k])@ == mask_bools(k as u32, extent as nat),
            decreases limit - mask,
        {
            cases.push(mask_case(mask, extent));
            mask += 1;
        }
        return cases;
    }
    let e = extent;
    cases.push(filled(false, e));
    cases.push(filled(true, e));
    let ps: [usize; 3] = [0, e / 2, e - 1];
    let mut q: usize = 0;
    while q < 3
        invariant
            e == extent,
            e > 12,
            ps@ == seq![0usize, e / 2, (e - 1) as usize],
            q <= 3,
            cases@.len() == 2 + q,
            cases@[0]@ == constant_bools(false, e as nat),
            cases@[1]@ == constant_bools(true, e as nat),
            forall|k: int| 0 <= k < q ==> (#[trigger] cases@[2 + k])@ == one_hot_bools(ps@[k] as nat, e as nat),
        decreases 3 - q,
    {
        let p = ps[q];
        if p < e {
            let mut v = filled(false, e);
            v.set(p, true);
            assert(v@ =~= one_hot_bools(p as nat, e as nat));
            cases.push(v);
        }
        q += 1;
    }
    let mut alt: Vec<bool> = Vec::new();
    let mut i: usize = 0;
    while i < e
        invariant
            i <= e,
            alt@ == alternating_bools(i as nat),
        decreases e - i,
    {
        alt.push(i % 2 == 0);
        i += 1;
        assert(alt@ =~= alternating_bools(i as nat));
    }
    cases.push(alt);
    proof {
        let bc = bool_cases(extent);
        let en = e as nat;
        assert(bc[0] == constant_bools(false, en));
        assert(bc[1] == constant_bools(true, en));
        assert(bc[2] == one_hot_bools(0, en));
        assert(bc[3] == one_hot_bools(en / 2, en));
        assert(bc[4] == one_hot_bools((en - 1) as nat, en));
        assert(bc[5] == alternating_bools(en));
        assert(cases@[2int + 0] == cases@[2]);
        assert(cases@[2int + 1] == cases@[3]);
        assert(cases@[2int + 2] == cases@[4]);
    }
    let mut seed: u64 = 0xC0FFEEu64 ^ (e as u64);
    let mut j: usize = 0;
    while j < 8
        invariant
            e == extent,
            e > 12,
            j <= 8,
            cases@.len() == 6 + j,
            seed == xorshift_iter(bool_seed(extent), (j * e) as nat),
            forall|k: int| 0 <= k < 6 ==> (#[trigger] cases@[k])@ == bool_cases(extent)[k],
            forall|k: int| 0 <= k < j ==> (#[trigger] cases@[6 + k])@ == random_bools(
                xorshift_iter(bool_seed(extent), (k * e) as nat),
                e as nat,
            ),
        decreases 8 - j,
    {
        let ghost s = seed;
        let v = random_case(e, &mut seed);
        proof {
            lemma_xorshift_iter_add(bool_seed(extent), (j * e) as nat, e as nat);
            assert((j * e) as nat + e as nat == ((j + 1) * e) as nat) by (nonlinear_arith);
        }
        cases.push(v);
        j += 1;
    }
    assert forall|k: int| 0 <= k < cases@.len() implies (#[trigger] cases@[k])@ == bool_cases(extent)[k] by {
        if k >= 6 {
            assert(cases@[6 + (k - 6)] == cases@[k]);
        }
    }
    cases
}

} // verus!

verus! {

// ── Integer input patterns ──────────────────────────────────────────────

/// One row of the tier-A corpus table.
#[derive(Clone)]
pub struct Row {
    pub id: String,
    pub class: String,
    /// `bool` or `pred`.
    pub kind: String,
    /// Element type name, or `-`.
    pub elem: String,
    /// `or`, or a comparison `eq`/`ne`/`lt`/`le`/`gt`/`ge`.
    pub op: String,
    /// `-`, `param` or `const:N`.
    pub scalar: String,
    pub extent: usize,
    pub acc_slot: usize,
    pub identity: u8,
    /// `field`, `extract`, `select` or `tuple`.
    pub consumer: String,
    pub deviation: String,
}

/// One input case: raw element bits (boolean arrays store 0/1), the scalar
/// operand and the flag operand.
pub struct Inputs {
    pub array: Vec<u128>,
    pub scalar: Option<u128>,
    pub flag: Option<bool>,
}

pub open spec fn inputs_view(x: Inputs) -> (Seq<u128>, Option<u128>, Option<bool>) {
    (x.array@, x.scalar, x.flag)
}

pub open spec fn inputs_views(v: Seq<Inputs>) -> Seq<(Seq<u128>, Option<u128>, Option<bool>)> {
    v.map_values(|x: Inputs| inputs_view(x))
}

/// The width digits of an element type name (`i32` and `u32` give `32`).
pub open spec fn width_text(elem: Seq<char>) -> Seq<char> {
    trim_start_char(trim_start_char(elem, 'i'), 'u')
}

/// Pattern width of an element type: 8, 16 or 32 where the name says so,
/// 64 otherwise.
pub open spec fn pattern_width(elem: Seq<char>) -> u32 {
    match parse_nat(width_text(elem)) {
        Some(n) => if n == 8 {
            8
        } else if n == 16 {
            16
        } else if n == 32 {
            32
        } else {
            64
        },
        None => 64,
    }
}

/// The largest value of `w` bits.
pub open spec fn max_value(w: u32) -> u128 {
    (pow2(w as nat) - 1) as u128
}

pub open spec fn is_const_scalar(scalar: Seq<char>) -> bool {
    starts_with(scalar, "const:"@)
}

/// The number text after `const:`.
pub open spec fn const_text(scalar: Seq<char>) -> Seq<char> {
    scalar.subrange("const:"@.len() as int, scalar.len() as int)
}

/// The two's-complement bits of a constant: a negative one reduced to `w`
/// bits, a non-negative one as it is.
pub open spec fn const_bits(v: int, w: u32) -> u128 {
    if v < 0 {
        (v % (pow2(w as nat) as int)) as u128
    } else {
        v as u128
    }
}

/// The scalar operand values of a row: its constant, or 0, 1, half the
/// maximum and the maximum (and the maximum again, as -1, when signed).
pub open spec fn scalar_values(row: Row) -> Seq<u128> {
    let w = pattern_width(row.elem@);
    let maxv = max_value(w);
    if is_const_scalar(row.scalar@) {
        seq![const_bits(parse_int(const_text(row.scalar@))->0, w)]
    } else {
        let base = seq![0u128, 1u128, maxv / 2, maxv];
        if row.elem@.len() > 0 && row.elem@[0] == 'i' {
            base.push(maxv)
        } else {
            base
        }
    }
}

pub open spec fn pattern_seed(sc: u128, w: u32) -> u64 {
    0xABAD1DEAu64 ^ (sc as u64) ^ (w as u64)
}

/// `extent` pseudo-random values: successive xorshift64 states after `seed`,
/// masked by `maxv`.
pub open spec fn random_values(seed: u64, extent: nat, maxv: u128) -> Seq<u128> {
    Seq::new(extent, |i: int| (xorshift_iter(seed, (i + 1) as nat) as u128) & maxv)
}

/// The six arrays of one scalar value: all zero, all maximal, maximal only
/// first, maximal only last, alternating maximal and zero, pseudo-random.
pub open spec fn array_patterns(sc: u128, w: u32, extent: nat) -> Seq<Seq<u128>> {
    let m = max_value(w);
    seq![
        Seq::new(extent, |i: int| 0u128),
        Seq::new(extent, |i: int| m),
        Seq::new(extent, |i: int| if i == 0 { m } else { 0u128 }),
        Seq::new(extent, |i: int| if i == extent - 1 { m } else { 0u128 }),
        Seq::new(extent, |i: int| if i % 2 == 0 { m } else { 0u128 }),
        random_values(pattern_seed(sc, w), extent, m),
    ]
}

/// The cases of the scalar values `svs`, six per value.
pub open spec fn cases_for(svs: Seq<u128>, w: u32, extent: nat) -> Seq<(Seq<u128>, Option<u128>, Option<bool>)>
    decreases svs.len(),
{
    if svs.len() == 0 {
        Seq::empty()
    } else {
        cases_for(svs.drop_last(), w, extent) + array_patterns(svs.last(), w, extent).map_values(
            |a: Seq<u128>| (a, Some(svs.last()), None::<bool>),
        )
    }
}

/// The integer input cases of a row.
pub open spec fn int_cases(row: Row) -> Seq<(Seq<u128>, Option<u128>, Option<bool>)> {
    cases_for(scalar_values(row), pattern_width(row.elem@), row.extent as nat)
}

/// Whether the row's width digits and constant (if any) are numbers the
/// pattern generator can read.
pub open spec fn int_patterns_defined(row: Row) -> bool {
    &&& parses_u32(width_text(row.elem@))
    &&& is_const_scalar(row.scalar@) ==> parses_i128(const_text(row.scalar@))
}

fn filled_u128(v: u128, extent: usize) -> (a: Vec<u128>)
    ensures
        a@ == Seq::new(extent as nat, |i: int| v),
{
    let mut a: Vec<u128> = Vec::new();
    let mut i: usize = 0;
    while i < extent
        invariant
            i <= extent,
            a@ == Seq::new(i as nat, |k: int| v),
        decreases extent - i,
    {
        a.push(v);
        i += 1;
        assert(a@ =~= Seq::new(i as nat, |k: int| v));
    }
    a
}

fn push_pattern_cases(cases: &mut Vec<Inputs>, sc: u128, width: u32, maxv: u128, extent: usize)
    requires
        maxv == max_value(width),
    ensures
        inputs_views(final(cases)@) == inputs_views(old(cases)@) + array_patterns(
            sc,
            width,
            extent as nat,
        ).map_values(|a: Seq<u128>| (a, Some(sc), None::<bool>)),
{
    let ghost pats = array_patterns(sc, width, extent as nat);
    let e = extent;
    let base = filled_u128(0, e);
    let all_max = filled_u128(maxv, e);
    let mut first = filled_u128(0, e);
    if e > 0 {
        first.set(0, maxv);
    }
    assert(first@ =~= pats[2]);
    let mut last = filled_u128(0, e);
    if e > 0 {
        last.set(e - 1, maxv);
    }
    assert(last@ =~= pats[3]);
    let mut alt: Vec<u128> = Vec::new();
    let mut i: usize = 0;
    while i < e
        invariant
            i <= e,
            alt@ == Seq::new(i as nat, |k: int| if k % 2 == 0 { maxv } else { 0u128 }),
        decreases e - i,
    {
        alt.push(if i % 2 == 0 { maxv } else { 0 });
        i += 1;
        assert(alt@ =~= Seq::new(i as nat, |k: int| if k % 2 == 0 { maxv } else { 0u128 }));
    }
    assert(alt@ =~= pats[4]);
    let mut seed: u64 = 0xABAD1DEAu64 ^ (sc as u64) ^ (width as u64);
    let ghost s0 = seed;
    let mut rnd: Vec<u128> = Vec::new();
    let mut j: usize = 0;
    while j < e
        invariant
            j <= e,
            seed == xorshift_iter(s0, j as nat),
            rnd@ == random_values(s0, e as nat, maxv).subrange(0, j as int),
        decreases e - j,
    {
        let x = xorshift64(&mut seed);
        rnd.push((x as u128) & maxv);
        j += 1;
        assert(rnd@ =~= random_values(s0, e as nat, maxv).subrange(0, j as int));
    }
    assert(rnd@ =~= pats[5]);
    assert(base@ =~= pats[0]);
    assert(all_max@ =~= pats[1]);
    let ghost old_cases = cases@;
    cases.push(Inputs { array: base, scalar: Some(sc), flag: None });
    cases.push(Inputs { array: all_max, scalar: Some(sc), flag: None });
    cases.push(Inputs { array: first, scalar: Some(sc), flag: None });
    cases.push(Inputs { array: last, scalar: Some(sc), flag: None });
    cases.push(Inputs { array: alt, scalar: Some(sc), flag: None });
    cases.push(Inputs { array: rnd, scalar: Some(sc), flag: None });
    assert(inputs_views(cases@) =~= inputs_views(old_cases) + pats.map_values(
        |a: Seq<u128>| (a, Some(sc), None::<bool>),
    ));
}

proof fn lemma_neg_mod(mag: nat, p: nat)
    requires
        p > 0,
    ensures
        (-(mag as int)) % (p as int) == if mag % p == 0 {
            0
        } else {
            p - mag % p
        },
{
    let q = (mag / p) as int;
    let r = (mag % p) as int;
    vstd::arithmetic::div_mod::lemma_fundamental_div_mod(mag as int, p as int);
    assert(mag as int == p * q + r);
    if r == 0 {
        assert(-(mag as int) == (-q) * p) by (nonlinear_arith)
            requires
                mag as int == p * q + r,
                r == 0,
        ;
        vstd::arithmetic::div_mod::lemma_fundamental_div_mod_converse(-(mag as int), p as int, -q, 0);
    } else {
        assert(-(mag as int) == (-q - 1) * p + (p - r)) by (nonlinear_arith)
            requires
                mag as int == p * q + r,
        ;
        vstd::arithmetic::div_mod::lemma_fundamental_div_mod_converse(
            -(mag as int),
            p as int,
            -q - 1,
            p - r,
        );
    }
}

/// The integer input cases of a row: for each scalar value (the row's
/// constant, or 0, 1, half the maximum and the maximum, and the maximum
/// again when signed), six arrays of `extent` elements (see
/// `array_patterns`).
pub fn int_patterns(row: &Row) -> (cases: Vec<Inputs>)
    requires
        int_patterns_defined(*row),
    ensures
        inputs_views(cases@) == int_cases(*row),
{
    let elem = chars_of(row.elem.as_str());
    let is_signed = elem.len() > 0 && elem[0] == 'i';
    let wt = trim_start_char_vec(&trim_start_char_vec(&elem, 'i'), 'u');
    let width: u32 = match parse_u32(&wt) {
        Some(n) => if n == 8 {
            8
        } else if n == 16 {
            16
        } else if n == 32 {
            32
        } else {
            64
        },
        None => 64,
    };
    assert(width == pattern_width(row.elem@));
    proof {
        lemma_shl_one_is_pow2(width);
        lemma_pow2_pos(width as nat);
        assert(1u128 << width >= 1) by (bit_vector)
            requires
                width < 128,
        ;
    }
    let p: u128 = 1u128 << width;
    let maxv: u128 = p - 1;
    assert(maxv == max_value(width));
    let half = maxv / 2;
    let sv = chars_of(row.scalar.as_str());
    let prefix = chars_of("const:");
    let mut svs: Vec<u128> = Vec::new();
    if starts_with_vec(&sv, &prefix) {
        let rest = slice_chars(&sv, prefix.len(), sv.len());
        let v: i128 = match parse_i128(&rest) {
            Some(v) => v,
            None => 0,
        };
        let bits: u128 = if v < 0 {
            let mag: u128 = (-(v + 1)) as u128 + 1;
            let r = mag % p;
            proof {
                lemma_neg_mod(mag as nat, p as nat);
            }
            if r == 0 {
                0
            } else {
                p - r
            }
        } else {
            v as u128
        };
        svs.push(bits);
    } else {
        svs.push(0);
        svs.push(1);
        svs.push(half);
        svs.push(maxv);
        if is_signed {
            svs.push(maxv);
        }
    }
    assert(svs@ =~= scalar_values(*row));
    let mut cases: Vec<Inputs> = Vec::new();
    let mut j: usize = 0;
    assert(svs@.subrange(0, 0) =~= Seq::<u128>::empty());
    assert(inputs_views(cases@) =~= Seq::<(Seq<u128>, Option<u128>, Option<bool>)>::empty());
    while j < svs.len()
        invariant
            j <= svs@.len(),
            maxv == max_value(width),
            inputs_views(cases@) == cases_for(svs@.subrange(0, j as int), width, row.extent as nat),
        decreases svs@.len() - j,
    {
        let sc = svs[j];
        assert(svs@.subrange(0, j as int + 1).drop_last() =~= svs@.subrange(0, j as int));
        push_pattern_cases(&mut cases, sc, width, maxv, row.extent);
        j += 1;
    }
    assert(svs@.subrange(0, svs@.len() as int) =~= svs@);
    cases
}

} // verus!

verus! {

// ── Comparisons ─────────────────────────────────────────────────────────

/// A comparison operator.
#[derive(Clone, Copy, Debug, PartialEq, Eq, Structural)]
pub enum CmpOperator {
    Eq,
    Ne,
    Lt,
    Le,
    Gt,
    Ge,
}

/// Whether `a op b` holds.
pub open spec fn compare_ints(a: int, b: int, op: CmpOperator) -> bool {
    match op {
        CmpOperator::Eq => a == b,
        CmpOperator::Ne => a != b,
        CmpOperator::Lt => a < b,
        CmpOperator::Le => a <= b,
        CmpOperator::Gt => a > b,
        CmpOperator::Ge => a >= b,
    }
}

/// The number held by the low `w` bits of `bits` (all of them from 128 on).
pub open spec fn low_bits(bits: u128, w: u32) -> int {
    if w >= 128 {
        bits as int
    } else {
        (bits as nat % pow2(w as nat)) as int
    }
}

/// The two's-complement value of the low `w` bits of `bits`, for a width
/// `w` from 1 to 128.
pub open spec fn signed_value(bits: u128, w: u32) -> int {
    let u = low_bits(bits, w);
    if u >= pow2((w - 1) as nat) {
        u - pow2(w as nat)
    } else {
        u
    }
}

/// The comparison of two integer values, at the width and signedness of
/// the left one.
pub open spec fn int_comparison(l: Value, r: Value, op: CmpOperator) -> bool {
    match (l, r) {
        (Value::Int { bits: lb, signed, width }, Value::Int { bits: rb, .. }) => if signed {
            compare_ints(signed_value(lb, width), signed_value(rb, width), op)
        } else {
            compare_ints(low_bits(lb, width), low_bits(rb, width), op)
        },
        _ => false,
    }
}

fn compare_u128(a: u128, b: u128, op: CmpOperator) -> (r: bool)
    ensures
        r == compare_ints(a as int, b as int, op),
{
    match op {
        CmpOperator::Eq => a == b,
        CmpOperator::Ne => a != b,
        CmpOperator::Lt => a < b,
        CmpOperator::Le => a <= b,
        CmpOperator::Gt => a > b,
        CmpOperator::Ge => a >= b,
    }
}

/// The signed value of `x` (a `w`-bit number) shifted up by `2^(w-1)`:
/// an unsigned number in the same order as the signed values.
fn order_key(x: u128, w: u32) -> (k: u128)
    requires
        1 <= w <= 128,
        w < 128 ==> x < pow2(w as nat),
    ensures
        k as int == signed_value(x, w) + pow2((w - 1) as nat),
{
    let half = 1u128 << (w - 1);
    proof {
        lemma_shl_one_is_pow2((w - 1) as u32);
        lemma_pow2_unfold(w as nat);
        assert((1u128 << ((w - 1) as u32)) <= (1u128 << 127u32)) by (bit_vector)
            requires
                1 <= w <= 128,
        ;
        assert((1u128 << 127u32) == 0x8000_0000_0000_0000_0000_0000_0000_0000u128) by (bit_vector);
        if w < 128 {
            assert(x as nat % pow2(w as nat) == x as nat) by {
                vstd::arithmetic::div_mod::lemma_small_mod(x as nat, pow2(w as nat));
            }
        } else {
            lemma_shl_one_is_pow2(127);
            lemma_pow2_unfold(128);
        }
    }
    if x >= half {
        x - half
    } else {
        x + half
    }
}

/// Compares two integer values with `op` at the width and signedness of the
/// left one (see `int_comparison`).
pub fn compare_int(l: &Value, r: &Value, op: CmpOperator) -> (b: bool)
    requires
        l is Int,
        r is Int,
        (*l) matches Value::Int { signed, width, .. } && (signed ==> 1 <= width <= 128),
    ensures
        b == int_comparison(*l, *r, op),
{
    let (lb, ls, lw) = match l {
        Value::Int { bits, signed, width } => (*bits, *signed, *width),
        _ => {
            assert(false);
            (0, false, 0)
        },
    };
    let rb = match r {
        Value::Int { bits, .. } => *bits,
        _ => {
            assert(false);
            0
        },
    };
    let rb = wrap(rb, lw);
    let lb = wrap(lb, lw);
    proof {
        if lw < 128 {
            lemma_pow2_pos(lw as nat);
        }
    }
    assert(lb as int == low_bits(l->bits, lw));
    assert(rb as int == low_bits(rb, lw)) by {
        if lw < 128 {
            vstd::arithmetic::div_mod::lemma_small_mod(rb as nat, pow2(lw as nat));
        }
    }
    if ls {
        let lk = order_key(lb, lw);
        let rk = order_key(rb, lw);
        proof {
            if lw < 128 {
                vstd::arithmetic::div_mod::lemma_small_mod(lb as nat, pow2(lw as nat));
            }
        }
        compare_u128(lk, rk, op)
    } else {
        compare_u128(lb, rb, op)
    }
}


/// The words of a bit-vector or integer value.
pub open spec fn value_words(v: Value) -> Seq<u64> {
    match v {
        Value::Bits(w) => w@,
        Value::Int { bits, width, .. } => int_words(bits, width),
        _ => Seq::empty(),
    }
}

/// `a` padded with zero words to `n` words.
pub open spec fn padded(a: Seq<u64>, n: nat) -> Seq<u64> {
    Seq::new(n, |i: int| if i < a.len() { a[i] } else { 0u64 })
}

/// Whether two word sequences are equal once the shorter is padded with
/// zero words.
pub open spec fn same_words(a: Seq<u64>, b: Seq<u64>) -> bool {
    let n = if a.len() >= b.len() { a.len() } else { b.len() };
    padded(a, n) == padded(b, n)
}

/// Whether a value has a word view that `as_bits` can build.
pub open spec fn has_words(v: Value) -> bool {
    v is Bits || (v matches Value::Int { width, .. } && width as int + 63 <= usize::MAX)
}

/// The comparison of two values: booleans by equality, integers as
/// `int_comparison` does, and bit-vectors (or a bit-vector and an integer)
/// by equality of their words once padded with zero words.
pub open spec fn spec_compare_vals(l: Value, r: Value, op: CmpOperator) -> bool {
    match (l, r) {
        (Value::Bool(a), Value::Bool(b)) => if op == CmpOperator::Eq {
            a == b
        } else {
            a != b
        },
        (Value::Int { .. }, Value::Int { .. }) => int_comparison(l, r, op),
        _ => if op == CmpOperator::Eq {
            same_words(value_words(l), value_words(r))
        } else {
            !same_words(value_words(l), value_words(r))
        },
    }
}

/// Equality and inequality of two values are each other's negation, and
/// so are `<` and `>=`, `>` and `<=` between integers.
pub proof fn law_comparisons_complement(l: Value, r: Value)
    ensures
        spec_compare_vals(l, r, CmpOperator::Ne) == !spec_compare_vals(l, r, CmpOperator::Eq),
        (l is Int && r is Int) ==> spec_compare_vals(l, r, CmpOperator::Ge) == !spec_compare_vals(
            l,
            r,
            CmpOperator::Lt,
        ),
        (l is Int && r is Int) ==> spec_compare_vals(l, r, CmpOperator::Le) == !spec_compare_vals(
            l,
            r,
            CmpOperator::Gt,
        ),
{
}

/// Each comparison operator compares two integer values as numbers, both
/// read at the left value's width and signedness (two's complement when
/// signed): `<`, `<=`, `>`, `>=`, `==`, `!=`; two booleans compare by
/// equality.
pub proof fn law_comparison_operators(
    lb: u128,
    rb: u128,
    signed: bool,
    width: u32,
    r_signed: bool,
    r_width: u32,
    p: bool,
    q: bool,
)
    ensures
        ({
            let l = Value::Int { bits: lb, signed, width };
            let r = Value::Int { bits: rb, signed: r_signed, width: r_width };
            let x = if signed {
                signed_value(lb, width)
            } else {
                low_bits(lb, width)
            };
            let y = if signed {
                signed_value(rb, width)
            } else {
                low_bits(rb, width)
            };
            &&& spec_compare_vals(l, r, CmpOperator::Lt) == (x < y)
            &&& spec_compare_vals(l, r, CmpOperator::Le) == (x <= y)
            &&& spec_compare_vals(l, r, CmpOperator::Gt) == (x > y)
            &&& spec_compare_vals(l, r, CmpOperator::Ge) == (x >= y)
            &&& spec_compare_vals(l, r, CmpOperator::Eq) == (x == y)
            &&& spec_compare_vals(l, r, CmpOperator::Ne) == (x != y)
        }),
        spec_compare_vals(Value::Bool(p), Value::Bool(q), CmpOperator::Eq) == (p == q),
        spec_compare_vals(Value::Bool(p), Value::Bool(q), CmpOperator::Ne) == (p != q),
{
}


fn same_padded(a: &Vec<u64>, b: &Vec<u64>) -> (r: bool)
    ensures
        r == same_words(a@, b@),
{
    let n = if a.len() >= b.len() { a.len() } else { b.len() };
    let ghost pa = padded(a@, n as nat);
    let ghost pb = padded(b@, n as nat);
    let mut i: usize = 0;
    while i < n
        invariant
            i <= n,
            n == (if a@.len() >= b@.len() { a@.len() } else { b@.len() }),
            pa == padded(a@, n as nat),
            pb == padded(b@, n as nat),
            forall|k: int| 0 <= k < i ==> pa[k] == pb[k],
        decreases n - i,
    {
        let x = if i < a.len() { a[i] } else { 0 };
        let y = if i < b.len() { b[i] } else { 0 };
        if x != y {
            assert(pa[i as int] != pb[i as int]);
            return false;
        }
        i += 1;
    }
    assert(pa =~= pb);
    true
}

/// Compares two values with `op` (see `spec_compare_vals`). Booleans and
/// bit-vectors only compare for equality or inequality.
pub fn compare_vals(left: Value, right: Value, op: CmpOperator) -> (b: bool)
    requires
        (left is Bool && right is Bool) ==> (op == CmpOperator::Eq || op == CmpOperator::Ne),
        (left is Int && right is Int) ==> (left matches Value::Int { signed, width, .. } && (signed ==> 1 <= width
            <= 128)),
        !(left is Bool && right is Bool) && !(left is Int && right is Int) ==> has_words(left) && has_words(right)
            && (op == CmpOperator::Eq || op == CmpOperator::Ne),
    ensures
        b == spec_compare_vals(left, right, op),
{
    if let Value::Bool(l) = left {
        if let Value::Bool(r) = right {
            return if op == CmpOperator::Eq {
                l == r
            } else {
                l != r
            };
        }
    }
    let both_int = matches!(left, Value::Int { .. }) && matches!(right, Value::Int { .. });
    if both_int {
        return compare_int(&left, &right, op);
    }
    let a = as_bits(left);
    let b = as_bits(right);
    let same = same_padded(&a, &b);
    if op == CmpOperator::Eq {
        same
    } else {
        !same
    }
}


// ── Element types and arguments ─────────────────────────────────────────

/// An element type of the corpus table: `bool`, or an integer type with
/// its width in bits and signedness.
#[derive(Clone, Copy, Debug, PartialEq, Eq, Structural)]
pub enum ElemType {
    Bool,
    Integer { bits: u32, signed: bool },
}

/// The element type a name denotes, if any.
pub open spec fn spec_elem_type(name: Seq<char>) -> Option<ElemType> {
    if name == "bool"@ {
        Some(ElemType::Bool)
    } else if name == "u8"@ {
        Some(ElemType::Integer { bits: 8, signed: false })
    } else if name == "u16"@ {
        Some(ElemType::Integer { bits: 16, signed: false })
    } else if name == "u32"@ {
        Some(ElemType::Integer { bits: 32, signed: false })
    } else if name == "u64"@ {
        Some(ElemType::Integer { bits: 64, signed: false })
    } else if name == "i8"@ {
        Some(ElemType::Integer { bits: 8, signed: true })
    } else if name == "i16"@ {
        Some(ElemType::Integer { bits: 16, signed: true })
    } else if name == "i32"@ {
        Some(ElemType::Integer { bits: 32, signed: true })
    } else if name == "i64"@ {
        Some(ElemType::Integer { bits: 64, signed: true })
    } else {
        None
    }
}

/// The element type named `name` (see `spec_elem_type`).
pub fn elem_type(name: &str) -> (t: Option<ElemType>)
    ensures
        t == spec_elem_type(name@),
{
    if str_eq(name, "bool") {
        Some(ElemType::Bool)
    } else if str_eq(name, "u8") {
        Some(ElemType::Integer { bits: 8, signed: false })
    } else if str_eq(name, "u16") {
        Some(ElemType::Integer { bits: 16, signed: false })
    } else if str_eq(name, "u32") {
        Some(ElemType::Integer { bits: 32, signed: false })
    } else if str_eq(name, "u64") {
        Some(ElemType::Integer { bits: 64, signed: false })
    } else if str_eq(name, "i8") {
        Some(ElemType::Integer { bits: 8, signed: true })
    } else if str_eq(name, "i16") {
        Some(ElemType::Integer { bits: 16, signed: true })
    } else if str_eq(name, "i32") {
        Some(ElemType::Integer { bits: 32, signed: true })
    } else if str_eq(name, "i64") {
        Some(ElemType::Integer { bits: 64, signed: true })
    } else {
        None
    }
}

/// An integer value of an integer type: `bits` truncated to its width.
pub fn int_of_ty(bits: u128, ty: ElemType) -> (v: Value)
    requires
        ty is Integer,
    ensures
        ty matches ElemType::Integer { bits: w, signed } && v matches Value::Int { bits: b, signed: s, width }
            && s == signed && width == w && (w < 128 ==> b as nat == bits as nat % pow2(w as nat)) && (w >= 128
            ==> b == bits),
{
    match ty {
        ElemType::Integer { bits: w, signed } => Value::Int { bits: wrap(bits, w), signed, width: w },
        ElemType::Bool => {
            assert(false);
            Value::Bool(false)
        },
    }
}

/// The width the scalar argument takes: an integer type's width, 64 for
/// `bool`.
pub open spec fn scalar_width(t: ElemType) -> u32 {
    match t {
        ElemType::Integer { bits, .. } => bits,
        ElemType::Bool => 64,
    }
}

/// Which elements of an array are not zero.
pub open spec fn nonzero_view(v: Seq<u128>) -> Seq<bool> {
    v.map_values(|x: u128| x != 0)
}

/// The scalar argument of a row for an input case: the case's scalar, signed
/// for an `i..` element type, at the element type's width.
pub open spec fn scalar_arg(row: Row, inp: Inputs) -> Value {
    Value::Int {
        bits: inp.scalar->0,
        signed: row.elem@.len() > 0 && row.elem@[0] == 'i',
        width: scalar_width(spec_elem_type(row.elem@)->0),
    }
}

/// A flag's value, false when unset.
pub open spec fn flag_or_false(f: Option<bool>) -> bool {
    match f {
        Some(b) => b,
        None => false,
    }
}

/// Whether a row's fixture takes the scalar as a parameter.
pub open spec fn takes_scalar(row: Row) -> bool {
    row.kind@ != "bool"@ && row.scalar@ == "param"@ && row.deviation@ != "unstable_scalar"@
}

/// The number of arguments a row's fixture takes: the array, then the
/// scalar and the select flag where it takes them.
pub open spec fn arg_count(row: Row) -> nat {
    1 + (if takes_scalar(row) { 1nat } else { 0nat }) + (if row.consumer@ == "select"@ { 1nat } else { 0nat })
}

fn copy_u128s(v: &Vec<u128>) -> (r: Vec<u128>)
    ensures
        r@ == v@,
{
    let mut r: Vec<u128> = Vec::new();
    let mut i: usize = 0;
    while i < v.len()
        invariant
            i <= v@.len(),
            r@ == v@.subrange(0, i as int),
        decreases v@.len() - i,
    {
        r.push(v[i]);
        i += 1;
        assert(r@ =~= v@.subrange(0, i as int));
    }
    assert(v@.subrange(0, v@.len() as int) =~= v@);
    r
}

fn nonzero_flags(v: &Vec<u128>) -> (r: Vec<bool>)
    ensures
        r@ == nonzero_view(v@),
{
    let mut r: Vec<bool> = Vec::new();
    let mut i: usize = 0;
    while i < v.len()
        invariant
            i <= v@.len(),
            r@ == v@.subrange(0, i as int).map_values(|x: u128| x != 0),
        decreases v@.len() - i,
    {
        r.push(v[i] != 0);
        i += 1;
        assert(r@ =~= v@.subrange(0, i as int).map_values(|x: u128| x != 0));
    }
    assert(v@.subrange(0, v@.len() as int) =~= v@);
    r
}

/// The arguments of a row's fixture for one input case: the array (as
/// booleans for a `bool` row, as integers otherwise), then the scalar at
/// the element type's width when the fixture takes it, then the select
/// flag (false when unset) for a `select` consumer.
pub fn args_for_row(row: &Row, inp: &Inputs) -> (args: Vec<Value>)
    requires
        takes_scalar(*row) ==> (inp.scalar is Some && spec_elem_type(row.elem@) is Some),
    ensures
        args@.len() == arg_count(*row),
        row.kind@ == "bool"@ ==> (args@[0] matches Value::BoolArray(a) && a@ == nonzero_view(inp.array@)),
        row.kind@ != "bool"@ ==> (args@[0] matches Value::IntArray(a) && a@ == inp.array@),
        takes_scalar(*row) ==> args@[1] == scalar_arg(*row, *inp),
        row.consumer@ == "select"@ ==> args@.last() == Value::Bool(flag_or_false(inp.flag)),
{
    let is_bool = str_eq(row.kind.as_str(), "bool");
    let mut args: Vec<Value> = Vec::new();
    if is_bool {
        args.push(Value::BoolArray(nonzero_flags(&inp.array)));
    } else {
        args.push(Value::IntArray(copy_u128s(&inp.array)));
    }
    if !is_bool && str_eq(row.scalar.as_str(), "param") && !str_eq(row.deviation.as_str(), "unstable_scalar") {
        let width = match elem_type(row.elem.as_str()) {
            Some(ElemType::Integer { bits, .. }) => bits,
            Some(ElemType::Bool) => 64,
            None => {
                assert(false);
                64
            },
        };
        let ev = chars_of(row.elem.as_str());
        let signed = ev.len() > 0 && ev[0] == 'i';
        let bits = match inp.scalar {
            Some(b) => b,
            None => {
                assert(false);
                0
            },
        };
        args.push(Value::Int { bits, signed, width });
    }
    if str_eq(row.consumer.as_str(), "select") {
        let flag = match inp.flag {
            Some(f) => f,
            None => false,
        };
        args.push(Value::Bool(flag));
    }
    args
}

// ── The corpus table ────────────────────────────────────────────────────

/// Whether a trimmed line of the table holds a row: it is not empty, not a
/// comment (`#`) and not the column header (`id` and a tab).
pub open spec fn is_row_line(t: Seq<char>) -> bool {
    !(t.len() == 0 || starts_with(t, "#"@) || starts_with(t, "id\t"@))
}

/// The trimmed lines that hold rows, in order.
pub open spec fn row_lines(ls: Seq<Seq<char>>) -> Seq<Seq<char>>
    decreases ls.len(),
{
    if ls.len() == 0 {
        Seq::empty()
    } else {
        let p = row_lines(ls.drop_last());
        let t = trim(ls.last());
        if is_row_line(t) {
            p.push(t)
        } else {
            p
        }
    }
}

/// Whether the tab-separated fields of a row line make a row: at least
/// eleven, with an extent and an accumulator slot that parse as `usize`
/// and an identity that parses as `u8`.
pub open spec fn fields_ok(f: Seq<Seq<char>>) -> bool {
    &&& f.len() >= 11
    &&& parses_usize(f[6])
    &&& parses_usize(f[7])
    &&& parse_nat(f[8]) matches Some(v) && v <= 255
}

/// Whether `row` holds the fields `f`, in column order.
pub open spec fn row_of_fields(row: Row, f: Seq<Seq<char>>) -> bool {
    &&& row.id@ == f[0]
    &&& row.class@ == f[1]
    &&& row.kind@ == f[2]
    &&& row.elem@ == f[3]
    &&& row.op@ == f[4]
    &&& row.scalar@ == f[5]
    &&& parse_nat(f[6]) == Some(row.extent as nat)
    &&& parse_nat(f[7]) == Some(row.acc_slot as nat)
    &&& parse_nat(f[8]) == Some(row.identity as nat)
    &&& row.consumer@ == f[9]
    &&& row.deviation@ == f[10]
}

/// Whether `row` is the row the fields `f` make.
pub open spec fn row_ok(row: Row, f: Seq<Seq<char>>) -> bool {
    fields_ok(f) && row_of_fields(row, f)
}

/// The row lines of a table text, split at tabs.
pub open spec fn table_fields(text: Seq<char>) -> Seq<Seq<Seq<char>>> {
    row_lines(lines(text)).map_values(|t: Seq<char>| split_char(t, '\t'))
}

proof fn lemma_row_lines_prefix(ls: Seq<Seq<char>>, k: int)
    requires
        0 <= k <= ls.len(),
    ensures
        row_lines(ls.subrange(0, k)).len() <= row_lines(ls).len(),
        forall|i: int| 0 <= i < row_lines(ls.subrange(0, k)).len() ==> row_lines(ls)[i] == row_lines(ls.subrange(0, k))[i],
    decreases ls.len(),
{
    if k < ls.len() {
        lemma_row_lines_prefix(ls.drop_last(), k);
        assert(ls.drop_last().subrange(0, k) =~= ls.subrange(0, k));
    } else {
        assert(ls.subrange(0, k) =~= ls);
    }
}

fn parse_u8_field(s: &Vec<char>) -> (r: Option<u8>)
    ensures
        match r {
            Some(v) => parse_nat(s@) == Some(v as nat),
            None => !(parse_nat(s@) matches Some(v) && v <= 255),
        },
{
    match parse_u32(s) {
        Some(v) => if v <= 255 {
            Some(v as u8)
        } else {
            None
        },
        None => None,
    }
}

/// The rows of the corpus table text: every trimmed line that holds a row,
/// split at tabs. None when some row line does not make a row.
pub fn parse_rows(text: &str) -> (r: Option<Vec<Row>>)
    ensures
        r is Some <==> forall|i: int| 0 <= i < table_fields(text@).len() ==> fields_ok(#[trigger] table_fields(text@)[i]),
        r matches Some(rows) ==> rows@.len() == table_fields(text@).len() && forall|i: int|
            0 <= i < rows@.len() ==> row_of_fields(#[trigger] rows@[i], table_fields(text@)[i]),
{
    let ls = lines_vec(&chars_of(text));
    let ghost all = views(ls@);
    let ghost tf = table_fields(text@);
    let hash = chars_of("#");
    let header = chars_of("id\t");
    let mut rows: Vec<Row> = Vec::new();
    let mut k: usize = 0;
    let ghost mut done: Seq<Seq<char>> = Seq::empty();
    proof {
        assert(all.subrange(0, 0) =~= Seq::<Seq<char>>::empty());
    }
    while k < ls.len()
        invariant
            all == views(ls@),
            all == lines(text@),
            tf == table_fields(text@),
            tf == row_lines(all).map_values(|t: Seq<char>| split_char(t, '\t')),
            hash@ == "#"@,
            header@ == "id\t"@,
            k <= ls@.len(),
            done == row_lines(all.subrange(0, k as int)),
            rows@.len() == done.len(),
            done.len() <= tf.len(),
            forall|i: int| 0 <= i < done.len() ==> tf[i] == split_char(#[trigger] done[i], '\t'),
            forall|i: int| 0 <= i < rows@.len() ==> #[trigger] row_ok(rows@[i], tf[i]),
        decreases ls@.len() - k,
    {
        let t = trim_vec(&ls[k]);
        proof {
            assert(all.subrange(0, k + 1).drop_last() =~= all.subrange(0, k as int));
            assert(all.subrange(0, k + 1).last() == ls@[k as int]@);
            lemma_row_lines_prefix(all, k + 1);
        }
        if t.len() == 0 || starts_with_vec(&t, &hash) || starts_with_vec(&t, &header) {
            k += 1;
        } else {
            let f = split_vec(&t, '\t');
            let ghost fs = views(f@);
            proof {
                assert(row_lines(all.subrange(0, k + 1)) == done.push(t@));
                assert(row_lines(all)[done.len() as int] == t@);
                assert(tf[done.len() as int] == fs);
            }
            if f.len() < 11 {
                return None;
            }
            let extent = match parse_usize(&f[6]) {
                Some(v) => v,
                None => return None,
            };
            let acc_slot = match parse_usize(&f[7]) {
                Some(v) => v,
                None => return None,
            };
            let identity = match parse_u8_field(&f[8]) {
                Some(v) => v,
                None => return None,
            };
            let row = Row {
                id: string_of(&f[0]),
                class: string_of(&f[1]),
                kind: string_of(&f[2]),
                elem: string_of(&f[3]),
                op: string_of(&f[4]),
                scalar: string_of(&f[5]),
                extent,
                acc_slot,
                identity,
                consumer: string_of(&f[9]),
                deviation: string_of(&f[10]),
            };
            let ghost new_row = row;
            proof {
                assert(fields_ok(fs));
                assert(row_of_fields(new_row, fs));
            }
            let ghost before = rows@;
            rows.push(row);
            k += 1;
            proof {
                let old_done = done;
                done = done.push(t@);
                assert forall|i: int| 0 <= i < done.len() implies tf[i] == split_char(#[trigger] done[i], '\t') by {
                    if i < old_done.len() {
                        assert(done[i] == old_done[i]);
                    }
                }
                assert forall|i: int| 0 <= i < rows@.len() implies #[trigger] row_ok(rows@[i], tf[i]) by {
                    if i < before.len() {
                        assert(rows@[i] == before[i]);
                    } else {
                        assert(rows@[i] == new_row);
                        assert(tf[i] == fs);
                    }
                }
            }
        }
    }
    proof {
        assert(all.subrange(0, ls@.len() as int) =~= all);
        assert(done == row_lines(all));
        assert(tf.len() == rows@.len());
        assert forall|i: int| 0 <= i < tf.len() implies fields_ok(#[trigger] tf[i]) by {
            assert(row_ok(rows@[i], tf[i]));
        }
        assert forall|i: int| 0 <= i < rows@.len() implies row_of_fields(#[trigger] rows@[i], tf[i]) by {
            assert(row_ok(rows@[i], tf[i]));
        }
    }
    Some(rows)
}

} // verus!
