//! The C helper definitions that emitted code uses for values wider than a
//! machine word (512-bit vectors stored as eight 64-bit words).
use vstd::prelude::*;

verus! {

/// The C definitions of the 512-bit vector type and its helpers.
pub const BITVECTOR_PRELUDE: &'static str = r#"
#include <string.h>

typedef struct { uint64_t w[8]; } sir_bv;

static sir_bv __sir_bv_zero(void) {
    sir_bv r;
    for (int i = 0; i < 8; i++) r.w[i] = 0;
    return r;
}
static int __sir_bv_eq(sir_bv a, sir_bv b) {
    for (int i = 0; i < 8; i++) if (a.w[i] != b.w[i]) return 0;
    return 1;
}
static int __sir_bv_ne(sir_bv a, sir_bv b) { return !__sir_bv_eq(a, b); }
static uint64_t __sir_bv_popcount(sir_bv a) {
    uint64_t c = 0;
    for (int i = 0; i < 8; i++) c += (uint64_t)__builtin_popcountll(a.w[i]);
    return c;
}
static uint64_t __sir_bv_ctz(sir_bv a, unsigned width) {
    for (unsigned i = 0; i < width && i < 512; i++)
        if ((a.w[i / 64] >> (i % 64)) & 1u) return i;
    return width;
}
static uint64_t __sir_bv_clz(sir_bv a, unsigned width) {
    for (unsigned i = 0; i < width && i < 512; i++) {
        unsigned bit = width - 1 - i;
        if ((a.w[bit / 64] >> (bit % 64)) & 1u) return i;
    }
    return width;
}
static sir_bv __sir_mask_cmp(const uint8_t *base, unsigned n, unsigned elem_bytes,
                             uint64_t scalar, int op) {
    sir_bv r = __sir_bv_zero();
    for (unsigned i = 0; i < n && i < 512; i++) {
        uint64_t v = 0;
        memcpy(&v, base + (size_t)i * elem_bytes, elem_bytes);
        int take = 0;
        switch (op) {
            case 0: take = (v == scalar); break;
            case 1: take = (v != scalar); break;
            case 2: take = (v < scalar); break;
            case 3: take = (v <= scalar); break;
            case 4: take = (v > scalar); break;
            case 5: take = (v >= scalar); break;
        }
        if (take) r.w[i / 64] |= (uint64_t)1 << (i % 64);
    }
    return r;
}
static sir_bv __sir_pack_bools(const bool *b, unsigned n) {
    sir_bv r = __sir_bv_zero();
    for (unsigned i = 0; i < n && i < 512; i++)
        if (b[i]) r.w[i / 64] |= (uint64_t)1 << (i % 64);
    return r;
}
"#;

/// The C helper definitions for 512-bit vector values.
pub fn bitvector_prelude() -> (s: &'static str)
    ensures
        s@ == BITVECTOR_PRELUDE@,
{
    BITVECTOR_PRELUDE
}

} // verus!
