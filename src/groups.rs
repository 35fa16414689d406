//! The octet stream shared by both codecs: a magnitude cut into 7-bit
//! groups, least significant group first, each carried in the low bits of
//! one octet whose high bit says whether another octet follows.
use vstd::prelude::*;

verus! {

/// The flag bit of an octet: set when another octet of the same value follows.
pub open spec fn is_continued(b: u8) -> bool {
    b >= 128
}

/// The 7-bit group that an octet carries.
pub open spec fn group_of(b: u8) -> nat {
    (b % 128) as nat
}

/// The magnitude spelled by the groups of `s`, the first octet holding the
/// least significant group. Flag bits are ignored.
pub open spec fn groups_value(s: Seq<u8>) -> nat
    decreases s.len(),
{
    if s.len() == 0 {
        0
    } else {
        group_of(s[0]) + 128 * groups_value(s.drop_first())
    }
}

/// The octets that encode magnitude `m`: a flagged octet for each group
/// while more than seven bits remain, then one unflagged octet.
pub open spec fn encode_magnitude(m: nat) -> Seq<u8>
    decreases m,
{
    if m < 128 {
        seq![m as u8]
    } else {
        seq![(128 + m % 128) as u8] + encode_magnitude(m / 128)
    }
}

/// The first value in `s` takes exactly its first `c` octets: they are all
/// flagged but the last.
pub open spec fn value_ends_at(s: Seq<u8>, c: int) -> bool {
    &&& 0 < c <= s.len()
    &&& !is_continued(s[c - 1])
    &&& forall|j: int| 0 <= j < c - 1 ==> is_continued(#[trigger] s[j])
}

/// Every octet of `s` is flagged: the input stops before any value ends.
pub open spec fn unterminated(s: Seq<u8>) -> bool {
    forall|j: int| 0 <= j < s.len() ==> is_continued(#[trigger] s[j])
}

/// The number of distinct `u64` values.
pub open spec fn u64_modulus() -> nat {
    0x1_0000_0000_0000_0000
}

/// The number of distinct `usize` values.
pub open spec fn usize_modulus() -> nat {
    usize::MAX as nat + 1
}

/// One more group in front multiplies what follows by 128.
proof fn lemma_groups_value_step(s: Seq<u8>, i: int, count: int)
    requires
        0 <= i < count <= s.len(),
    ensures
        groups_value(s.subrange(i, count)) == group_of(s[i]) + 128 * groups_value(
            s.subrange(i + 1, count),
        ),
{
    assert(s.subrange(i, count).drop_first() =~= s.subrange(i + 1, count));
}

/// Reducing the partial result modulo `m` before the next Horner step does
/// not change the final remainder.
proof fn lemma_wrapped_step(v: int, g: int, m: int)
    requires
        m > 0,
    ensures
        ((v % m) * 128 + g) % m == (v * 128 + g) % m,
{
    vstd::arithmetic::div_mod::lemma_mul_mod_noop_left(v, 128, m);
    vstd::arithmetic::div_mod::lemma_add_mod_noop((v % m) * 128, g, m);
    vstd::arithmetic::div_mod::lemma_add_mod_noop(v * 128, g, m);
}

/// A sum of two remainders wraps at most once.
proof fn lemma_wrap_once(x: int, y: int, m: int)
    requires
        0 <= x < m,
        0 <= y < m,
    ensures
        (x + y) % m == if x + y >= m {
            x + y - m
        } else {
            x + y
        },
{
    if x + y >= m {
        vstd::arithmetic::div_mod::lemma_mod_add_multiples_vanish(x + y - m, m);
        vstd::arithmetic::div_mod::lemma_small_mod((x + y - m) as nat, m as nat);
    } else {
        vstd::arithmetic::div_mod::lemma_small_mod((x + y) as nat, m as nat);
    }
}

/// The octets of a magnitude are flagged but the last, which is zero only
/// for magnitude zero, and their groups spell the magnitude back.
pub proof fn lemma_encode_magnitude_shape(m: nat)
    ensures
        encode_magnitude(m).len() >= 1,
        value_ends_at(encode_magnitude(m), encode_magnitude(m).len() as int),
        groups_value(encode_magnitude(m)) == m,
        encode_magnitude(m).last() == 0 ==> m == 0,
    decreases m,
{
    let e = encode_magnitude(m);
    if m < 128 {
        assert(e.drop_first() =~= Seq::<u8>::empty());
        assert(groups_value(Seq::<u8>::empty()) == 0);
        assert(group_of(e[0]) == m);
    } else {
        let rest = encode_magnitude(m / 128);
        lemma_encode_magnitude_shape(m / 128);
        assert(e.drop_first() =~= rest);
        assert forall|j: int| 0 <= j < e.len() - 1 implies is_continued(#[trigger] e[j]) by {
            if j > 0 {
                assert(e[j] == rest[j - 1]);
            }
        }
        assert(e.last() == rest.last());
        assert(group_of(e[0]) == m % 128);
        assert(m == m % 128 + 128 * (m / 128));
    }
}

/// Reads the group of an octet.
fn low_group(b: u8) -> (r: u8)
    ensures
        r as nat == group_of(b),
{
    let r: u8 = b & 127;
    assert(b & 127 == b % 128) by (bit_vector);
    r
}

/// Cuts `m` into groups and tags them.
pub fn magnitude_to_bits(m: u64) -> (r: Vec<u8>)
    ensures
        r@ == encode_magnitude(m as nat),
{
    let mut n: u64 = m;
    let mut res: Vec<u8> = Vec::new();
    while n > 127
        invariant
            res@ + encode_magnitude(n as nat) == encode_magnitude(m as nat),
        decreases n,
    {
        let b: u8 = 128u8 | (n & 127) as u8;
        assert(b == (128 + n % 128) as u8) by (bit_vector)
            requires
                b == 128u8 | (n & 127) as u8,
        ;
        assert(n >> 7 == n / 128) by (bit_vector);
        let ghost before = res@;
        let ghost prev = n as nat;
        res.push(b);
        n = n >> 7;
        assert(encode_magnitude(prev) == seq![b] + encode_magnitude(n as nat));
        assert(res@ + encode_magnitude(n as nat) =~= before + encode_magnitude(prev));
    }
    res.push(n as u8);
    assert(res@ =~= encode_magnitude(m as nat));
    res
}

/// Finds how many octets the first value in `bytes` takes, if one ends there.
pub fn value_length(bytes: &[u8]) -> (r: Option<usize>)
    ensures
        match r {
            Some(c) => value_ends_at(bytes@, c as int),
            None => unterminated(bytes@),
        },
{
    let mut i: usize = 0;
    while i < bytes.len()
        invariant
            i <= bytes@.len(),
            forall|j: int| 0 <= j < i ==> is_continued(#[trigger] bytes@[j]),
        decreases bytes@.len() - i,
    {
        if bytes[i] < 128 {
            return Some(i + 1);
        }
        i = i + 1;
    }
    None
}

/// Assembles the groups of the first `count` octets of `bytes` into a
/// `u64`, keeping the low 64 bits of the magnitude.
pub fn fold_groups_u64(bytes: &[u8], count: usize) -> (r: u64)
    requires
        count <= bytes@.len(),
    ensures
        r as nat == groups_value(bytes@.take(count as int)) % u64_modulus(),
{
    let mut res: u64 = 0;
    let mut i: usize = count;
    assert(bytes@.subrange(count as int, count as int) =~= Seq::<u8>::empty());
    while i > 0
        invariant
            i <= count <= bytes@.len(),
            res as nat == groups_value(bytes@.subrange(i as int, count as int)) % u64_modulus(),
        decreases i,
    {
        i = i - 1;
        let g: u8 = low_group(bytes[i]);
        proof {
            lemma_groups_value_step(bytes@, i as int, count as int);
            lemma_wrapped_step(
                groups_value(bytes@.subrange(i + 1, count as int)) as int,
                g as int,
                u64_modulus() as int,
            );
        }
        res = res.wrapping_mul(128).wrapping_add(g as u64);
    }
    assert(bytes@.subrange(0, count as int) =~= bytes@.take(count as int));
    res
}

/// Assembles the groups of the first `count` octets of `bytes` into a
/// `usize`, keeping the low bits of the magnitude that fit.
pub fn fold_groups_usize(bytes: &[u8], count: usize) -> (r: usize)
    requires
        count <= bytes@.len(),
    ensures
        r as nat == groups_value(bytes@.take(count as int)) % usize_modulus(),
{
    let mut res: usize = 0;
    let mut i: usize = count;
    assert(bytes@.subrange(count as int, count as int) =~= Seq::<u8>::empty());
    proof {
        vstd::arithmetic::div_mod::lemma_small_mod(0, usize_modulus());
    }
    while i > 0
        invariant
            i <= count <= bytes@.len(),
            res as nat == groups_value(bytes@.subrange(i as int, count as int)) % usize_modulus(),
        decreases i,
    {
        i = i - 1;
        let g: u8 = low_group(bytes[i]);
        proof {
            lemma_groups_value_step(bytes@, i as int, count as int);
            lemma_wrapped_step(
                groups_value(bytes@.subrange(i + 1, count as int)) as int,
                g as int,
                usize_modulus() as int,
            );
        }
        let ghost prev = res;
        let shifted: usize = res.wrapping_mul(128);
        res = shifted.wrapping_add(g as usize);
        proof {
            lemma_wrap_once(shifted as int, g as int, usize_modulus() as int);
            let m = usize_modulus() as int;
            assert(shifted as int == (prev as int * 128) % m);
            assert(res as int == (shifted + g) % m);
            vstd::arithmetic::div_mod::lemma_small_mod(g as nat, m as nat);
            vstd::arithmetic::div_mod::lemma_add_mod_noop(prev as int * 128, g as int, m);
            vstd::arithmetic::div_mod::lemma_mod_twice(prev as int * 128, m);
        }
    }
    assert(bytes@.subrange(0, count as int) =~= bytes@.take(count as int));
    res
}

} // verus!
