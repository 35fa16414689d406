//! Facts about the two codecs, stated over the models that the codec
//! functions' contracts use.
use vstd::prelude::*;

use crate::codec::{decodes_signed, decodes_unsigned, encode_signed, encode_unsigned};
use crate::groups::{
    encode_magnitude, is_continued, lemma_encode_magnitude_shape, u64_modulus, unterminated,
    usize_modulus, value_ends_at,
};
use crate::zigzag::{lemma_zigzag_inverse, zigzag};

verus! {

/// Decoding the encoding of any `usize` gives it back and takes every octet
/// of the encoding.
pub proof fn lemma_unsigned_round_trip(n: usize)
    ensures
        decodes_unsigned(encode_unsigned(n as nat), n as nat, encode_unsigned(n as nat).len()),
{
    let e = encode_unsigned(n as nat);
    lemma_encode_magnitude_shape(n as nat);
    assert(e.take(e.len() as int) =~= e);
    vstd::arithmetic::div_mod::lemma_small_mod(n as nat, usize_modulus());
}

/// Decoding the encoding of any `i64` gives it back and takes every octet
/// of the encoding.
pub proof fn lemma_signed_round_trip(n: i64)
    ensures
        decodes_signed(encode_signed(n as int), n as int, encode_signed(n as int).len()),
{
    let m = zigzag(n as int);
    let e = encode_signed(n as int);
    lemma_zigzag_inverse(n as int);
    lemma_encode_magnitude_shape(m);
    assert(e.take(e.len() as int) =~= e);
    vstd::arithmetic::div_mod::lemma_small_mod(m, u64_modulus());
}

/// The number of binary digits of `n`, zero for zero.
pub open spec fn bit_length(n: nat) -> nat
    decreases n,
{
    if n == 0 {
        0
    } else {
        1 + bit_length(n / 2)
    }
}

/// Dropping the lowest group drops seven binary digits.
proof fn lemma_bit_length_drop_group(n: nat)
    requires
        n >= 128,
    ensures
        bit_length(n / 128) + 7 == bit_length(n),
{
    let n1 = n / 2;
    let n2 = n1 / 2;
    let n3 = n2 / 2;
    let n4 = n3 / 2;
    let n5 = n4 / 2;
    let n6 = n5 / 2;
    let n7 = n6 / 2;
    assert(n7 == n / 128);
    assert(bit_length(n) == 1 + bit_length(n1));
    assert(bit_length(n1) == 1 + bit_length(n2));
    assert(bit_length(n2) == 1 + bit_length(n3));
    assert(bit_length(n3) == 1 + bit_length(n4));
    assert(bit_length(n4) == 1 + bit_length(n5));
    assert(bit_length(n5) == 1 + bit_length(n6));
    assert(bit_length(n6) == 1 + bit_length(n7));
}

/// A magnitude under 128 has at most seven binary digits.
proof fn lemma_bit_length_one_group(n: nat)
    requires
        n < 128,
    ensures
        bit_length(n) <= 7,
        n > 0 ==> bit_length(n) >= 1,
{
    reveal_with_fuel(bit_length, 8);
}

/// Every encoding is as short as it can be: one octet per started group of
/// seven binary digits, and a single octet for zero. Only the encoding of
/// zero ends in a zero octet, so none carries a redundant all-zero group.
pub proof fn lemma_minimal_length(n: nat)
    ensures
        encode_unsigned(n).len() == if n == 0 {
            1
        } else {
            (bit_length(n) + 6) / 7
        },
        encode_unsigned(n).len() > 1 ==> encode_unsigned(n).last() != 0,
    decreases n,
{
    lemma_encode_magnitude_shape(n);
    if n < 128 {
        lemma_bit_length_one_group(n);
    } else {
        lemma_minimal_length(n / 128);
        lemma_bit_length_drop_group(n);
    }
}

/// Reading a value is unaffected by whatever follows it.
pub proof fn lemma_decode_ignores_trailing(s: Seq<u8>, rest: Seq<u8>, c: nat)
    requires
        value_ends_at(s, c as int),
    ensures
        value_ends_at(s + rest, c as int),
        (s + rest).take(c as int) == s.take(c as int),
        forall|v: nat| decodes_unsigned(s, v, c) ==> decodes_unsigned(s + rest, v, c),
        forall|v: int| decodes_signed(s, v, c) ==> decodes_signed(s + rest, v, c),
{
    assert((s + rest).take(c as int) =~= s.take(c as int));
    assert forall|j: int| 0 <= j < c implies (s + rest)[j] == s[j] by {}
}

/// Any bytes after an unsigned encoding are left for the caller: the value
/// and the octet count come out as without them.
pub proof fn lemma_unsigned_trailing(n: usize, rest: Seq<u8>)
    ensures
        decodes_unsigned(
            encode_unsigned(n as nat) + rest,
            n as nat,
            encode_unsigned(n as nat).len(),
        ),
{
    lemma_unsigned_round_trip(n);
    lemma_decode_ignores_trailing(
        encode_unsigned(n as nat),
        rest,
        encode_unsigned(n as nat).len(),
    );
}

/// Any bytes after a signed encoding are left for the caller: the value and
/// the octet count come out as without them.
pub proof fn lemma_signed_trailing(n: i64, rest: Seq<u8>)
    ensures
        decodes_signed(encode_signed(n as int) + rest, n as int, encode_signed(n as int).len()),
{
    lemma_signed_round_trip(n);
    lemma_decode_ignores_trailing(encode_signed(n as int), rest, encode_signed(n as int).len());
}

/// Every proper prefix of an encoding, the empty one included, stops before
/// the value ends, so reading it fails.
pub proof fn lemma_magnitude_prefix_unterminated(m: nat, k: int)
    requires
        0 <= k < encode_magnitude(m).len(),
    ensures
        unterminated(encode_magnitude(m).take(k)),
        forall|c: int| !value_ends_at(#[trigger] encode_magnitude(m).take(k), c),
{
    lemma_encode_magnitude_shape(m);
    let p = encode_magnitude(m).take(k);
    assert forall|c: int| !value_ends_at(p, c) by {
        if 0 < c <= p.len() {
            assert(is_continued(p[c - 1]));
        }
    }
}

/// Every proper prefix of an unsigned encoding, the empty one included,
/// stops before the value ends, so reading it fails.
pub proof fn lemma_unsigned_prefix_truncated(n: usize, k: int)
    requires
        0 <= k < encode_unsigned(n as nat).len(),
    ensures
        unterminated(encode_unsigned(n as nat).take(k)),
        forall|c: int| !value_ends_at(#[trigger] encode_unsigned(n as nat).take(k), c),
{
    lemma_magnitude_prefix_unterminated(n as nat, k);
}

/// Every proper prefix of a signed encoding, the empty one included, stops
/// before the value ends, so reading it fails.
pub proof fn lemma_signed_prefix_truncated(n: i64, k: int)
    requires
        0 <= k < encode_signed(n as int).len(),
    ensures
        unterminated(encode_signed(n as int).take(k)),
        forall|c: int| !value_ends_at(#[trigger] encode_signed(n as int).take(k), c),
{
    lemma_magnitude_prefix_unterminated(zigzag(n as int), k);
}

} // verus!
