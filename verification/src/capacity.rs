//! How many circuit rows a dataset needs.
use vstd::arithmetic::power2::*;
use vstd::prelude::*;

verus! {

/// Rows kept free beyond the dataset, for the rows that the proving system
/// cannot use and some margin.
pub const LOGROWS_HEADROOM: usize = 32;

/// The least size exponent that is ever chosen.
pub const LEAST_LOGROWS: u32 = 4;

/// `k` is the least exponent, from `LEAST_LOGROWS` on, such that `2^k` rows hold
/// `num_rows` dataset rows and the headroom.
pub open spec fn is_minimum_logrows(num_rows: nat, k: nat) -> bool {
    &&& k >= LEAST_LOGROWS
    &&& num_rows + LOGROWS_HEADROOM <= pow2(k)
    &&& k > LEAST_LOGROWS ==> pow2((k - 1) as nat) < num_rows + LOGROWS_HEADROOM
}

/// Picks the smallest `k` such that `2^k` fits the dataset rows plus the rows
/// reserved for the proving system. A row count for which no such power of two
/// is a `usize` is out of range.
pub fn minimum_logrows(num_rows: usize) -> (k: u32)
    requires
        num_rows + LOGROWS_HEADROOM <= usize::MAX / 2 + 1,
    ensures
        is_minimum_logrows(num_rows as nat, k as nat),
        k >= 4,
        num_rows + 32 <= pow2(k as nat),
        k > 4 ==> pow2((k - 1) as nat) < num_rows + 32,
{
    let required_rows: usize = num_rows + LOGROWS_HEADROOM;
    let mut k: u32 = LEAST_LOGROWS;
    let mut capacity: usize = 16;
    proof {
        lemma2_to64();
    }
    while capacity < required_rows
        invariant
            k >= LEAST_LOGROWS,
            k < usize::BITS,
            capacity == pow2(k as nat),
            required_rows == num_rows + LOGROWS_HEADROOM,
            required_rows <= usize::MAX / 2 + 1,
            k > LEAST_LOGROWS ==> pow2((k - 1) as nat) < required_rows,
        decreases usize::BITS - k,
    {
        proof {
            lemma_pow2_unfold((k + 1) as nat);
            lemma2_to64();
            lemma2_to64_rest();
            if k + 1 >= usize::BITS {
                lemma_pow2_unfold(usize::BITS as nat);
            }
        }
        capacity = capacity * 2;
        k = k + 1;
    }
    k
}

/// At most one exponent is the least one.
pub proof fn law_minimum_logrows_unique(num_rows: nat, k1: nat, k2: nat)
    requires
        is_minimum_logrows(num_rows, k1),
        is_minimum_logrows(num_rows, k2),
    ensures
        k1 == k2,
{
    law_minimum_logrows_monotone(num_rows, k1, num_rows, k2);
    law_minimum_logrows_monotone(num_rows, k2, num_rows, k1);
}

/// More rows never need a smaller circuit.
pub proof fn law_minimum_logrows_monotone(num_rows1: nat, k1: nat, num_rows2: nat, k2: nat)
    requires
        is_minimum_logrows(num_rows1, k1),
        is_minimum_logrows(num_rows2, k2),
        num_rows1 <= num_rows2,
    ensures
        k1 <= k2,
{
    if k2 < k1 {
        if k2 < k1 - 1 {
            lemma_pow2_strictly_increases(k2, (k1 - 1) as nat);
        }
    }
}

/// Whatever number of rows below the headroom the proving system keeps for
/// itself, every dataset row and one row of padding fit into the rest.
pub proof fn law_headroom_leaves_padding(num_rows: nat, k: nat, unusable_rows: nat)
    requires
        is_minimum_logrows(num_rows, k),
        unusable_rows < LOGROWS_HEADROOM,
    ensures
        num_rows < pow2(k) - unusable_rows,
{
}

/// The chosen size holds the rows and 32 more, and every other size from 4 on
/// that does is at least as large.
pub proof fn law_minimum_logrows_is_the_least(num_rows: nat, k: nat, other: nat)
    requires
        is_minimum_logrows(num_rows, k),
    ensures
        k >= 4,
        num_rows + 32 <= pow2(k),
        other >= 4 && num_rows + 32 <= pow2(other) ==> k <= other,
{
    if other < k - 1 {
        lemma_pow2_strictly_increases(other, (k - 1) as nat);
    }
}

} // verus!
