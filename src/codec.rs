//! The two codecs: unsigned machine words, and signed 64-bit integers
//! through the zig-zag transform. Decoding reads one value from the front
//! of a buffer and reports how many octets it took, so that a caller can go
//! on parsing right after it.
use vstd::prelude::*;

use crate::groups::{
    encode_magnitude, fold_groups_u64, fold_groups_usize, groups_value, magnitude_to_bits,
    u64_modulus, unterminated, usize_modulus, value_ends_at, value_length,
};
use crate::zigzag::{unzigzag, zigzag, zigzag_decode, zigzag_encode};

verus! {

/// Why a value could not be read.
#[derive(Debug, Clone, Copy, PartialEq, Eq)]
pub enum ParseError {
    /// The input ended before an octet with a clear flag bit: it is empty,
    /// or it stops in the middle of a value.
    Truncated,
}

/// The octets of unsigned `n`.
pub open spec fn encode_unsigned(n: nat) -> Seq<u8> {
    encode_magnitude(n)
}

/// The octets of signed `n`: those of its zig-zag magnitude.
pub open spec fn encode_signed(n: int) -> Seq<u8> {
    encode_magnitude(zigzag(n))
}

/// Reading an unsigned value from the front of `s` gives `v` and takes `c`
/// octets. Bits beyond the width of `usize` are dropped.
pub open spec fn decodes_unsigned(s: Seq<u8>, v: nat, c: nat) -> bool {
    &&& value_ends_at(s, c as int)
    &&& v == groups_value(s.take(c as int)) % usize_modulus()
}

/// Reading a signed value from the front of `s` gives `v` and takes `c`
/// octets. Bits of the magnitude beyond 64 are dropped.
pub open spec fn decodes_signed(s: Seq<u8>, v: int, c: nat) -> bool {
    &&& value_ends_at(s, c as int)
    &&& v == unzigzag(groups_value(s.take(c as int)) % u64_modulus())
}

/// Encodes an unsigned value.
pub fn usize_to_bits(n: usize) -> (r: Vec<u8>)
    ensures
        r@ == encode_unsigned(n as nat),
{
    magnitude_to_bits(n as u64)
}

/// Assembles an unsigned value from the groups of its flagged octets and
/// the group of its last octet.
pub fn bits_to_usize(bits: (Vec<u8>, u8)) -> (r: usize)
    ensures
        r as nat == groups_value(bits.0@.push(bits.1)) % usize_modulus(),
{
    let (groups, last) = bits;
    let mut all: Vec<u8> = groups;
    all.push(last);
    let n: usize = all.len();
    assert(all@.take(n as int) =~= all@);
    fold_groups_usize(all.as_slice(), n)
}

/// Reads an unsigned value from the front of `bytes`: the value and the
/// number of octets it took.
pub fn vlusize(bytes: &[u8]) -> (r: Result<(usize, usize), ParseError>)
    ensures
        match r {
            Ok((v, c)) => decodes_unsigned(bytes@, v as nat, c as nat),
            Err(_) => unterminated(bytes@),
        },
{
    match value_length(bytes) {
        Some(c) => Ok((fold_groups_usize(bytes, c), c)),
        None => Err(ParseError::Truncated),
    }
}

/// Encodes a signed value.
pub fn i64_to_bits(n: i64) -> (r: Vec<u8>)
    ensures
        r@ == encode_signed(n as int),
{
    magnitude_to_bits(zigzag_encode(n))
}

/// Assembles a signed value from the groups of its flagged octets and the
/// group of its last octet.
pub fn bits_to_i64(bits: (Vec<u8>, u8)) -> (r: i64)
    ensures
        r as int == unzigzag(groups_value(bits.0@.push(bits.1)) % u64_modulus()),
{
    let (groups, last) = bits;
    let mut all: Vec<u8> = groups;
    all.push(last);
    let n: usize = all.len();
    assert(all@.take(n as int) =~= all@);
    zigzag_decode(fold_groups_u64(all.as_slice(), n))
}

/// Reads a signed value from the front of `bytes`: the value and the number
/// of octets it took.
pub fn vli64(bytes: &[u8]) -> (r: Result<(i64, usize), ParseError>)
    ensures
        match r {
            Ok((v, c)) => decodes_signed(bytes@, v as int, c as nat),
            Err(_) => unterminated(bytes@),
        },
{
    match value_length(bytes) {
        Some(c) => Ok((zigzag_decode(fold_groups_u64(bytes, c)), c)),
        None => Err(ParseError::Truncated),
    }
}

} // verus!
