//! The zig-zag transform: a bijection between signed 64-bit integers and
//! unsigned magnitudes that sends 0, -1, 1, -2, 2, ... to 0, 1, 2, 3, 4, ...
use vstd::prelude::*;

verus! {

/// Non-negative `n` goes to the even `2n`, negative `n` to the odd `-2n - 1`.
pub open spec fn zigzag(n: int) -> nat {
    if n >= 0 {
        (2 * n) as nat
    } else {
        (-2 * n - 1) as nat
    }
}

/// The inverse of `zigzag`: halve an even magnitude, and turn an odd one
/// into a negative value.
pub open spec fn unzigzag(m: nat) -> int {
    if m % 2 == 0 {
        (m / 2) as int
    } else {
        -((m / 2) as int) - 1
    }
}

/// `unzigzag` undoes `zigzag`, and every `i64` lands in the `u64` range.
pub proof fn lemma_zigzag_inverse(n: int)
    ensures
        unzigzag(zigzag(n)) == n,
        i64::MIN <= n <= i64::MAX ==> zigzag(n) <= u64::MAX,
{
}

/// Folds the sign of `n` into the lowest bit: `(n << 1) ^ (n >> 63)`, the
/// right shift replicating the sign bit.
pub fn zigzag_encode(n: i64) -> (r: u64)
    ensures
        r as nat == zigzag(n as int),
{
    let doubled: u64 = (#[verifier::truncate] (n as u64)) << 1;
    let sign: u64 = #[verifier::truncate] ((n >> 63) as u64);
    let r: u64 = doubled ^ sign;
    assert(n >= 0 ==> r == 2 * n) by (bit_vector)
        requires
            r == ((n as u64) << 1) ^ ((n >> 63) as u64),
    ;
    assert(n < 0 ==> r == -2 * n - 1) by (bit_vector)
        requires
            r == ((n as u64) << 1) ^ ((n >> 63) as u64),
    ;
    r
}

/// Recovers the signed value from a zig-zag magnitude.
pub fn zigzag_decode(m: u64) -> (r: i64)
    ensures
        r as int == unzigzag(m as nat),
{
    let half: i64 = (m >> 1) as i64;
    assert(m >> 1 == m / 2) by (bit_vector);
    if m & 1 == 0 {
        assert(m & 1 == 0 ==> m % 2 == 0) by (bit_vector);
        half
    } else {
        assert(m & 1 != 0 ==> m % 2 == 1) by (bit_vector);
        -half - 1
    }
}

} // verus!
