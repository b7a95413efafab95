//! Bit counting on 32-bit words.
use vstd::prelude::*;

verus! {

/// Number of one bits among the lowest `k` bits of `x`.
pub open spec fn low_bits_set(x: nat, k: nat) -> nat
    decreases k,
{
    if k == 0 {
        0
    } else {
        (x % 2) + low_bits_set(x / 2, (k - 1) as nat)
    }
}

/// Number of one bits of a 32-bit word.
pub open spec fn popcount32(x: u32) -> nat {
    low_bits_set(x as nat, 32)
}

proof fn lemma_low_bits_set_bound(x: nat, k: nat)
    ensures
        low_bits_set(x, k) <= k,
    decreases k,
{
    if k > 0 {
        lemma_low_bits_set_bound(x / 2, (k - 1) as nat);
    }
}

/// Counts the one bits of `x` by testing its lowest bit 32 times.
pub fn popcount_naive(x: u32) -> (count: u32)
    ensures
        count as nat == popcount32(x),
        count <= 32,
{
    let mut count: u32 = 0;
    let mut temp: u32 = x;
    let mut i: u32 = 0;
    while i < 32
        invariant
            i <= 32,
            count <= i,
            count as nat + low_bits_set(temp as nat, (32 - i) as nat) == popcount32(x),
        decreases 32 - i,
    {
        assert(temp & 1 == temp % 2) by (bit_vector);
        assert(temp >> 1 == temp / 2) by (bit_vector);
        if temp & 1 != 0 {
            count += 1;
        }
        temp = temp >> 1;
        i += 1;
    }
    proof {
        lemma_low_bits_set_bound(x as nat, 32);
    }
    count
}

} // verus!
