//! Arithmetic on the binary representation of natural numbers, and the facts
//! that connect machine shifts and masks to it.
use vstd::prelude::*;

verus! {

use vstd::arithmetic::power2::{pow2, lemma_pow2_pos, lemma_pow2_unfold, lemma_pow2_adds, lemma2_to64};
use vstd::arithmetic::div_mod::{
    lemma_div_denominator,
    lemma_mod_breakdown,
    lemma_mul_mod_noop_right,
    lemma_small_mod,
    lemma_fundamental_div_mod,
};
use vstd::arithmetic::mul::lemma_mul_is_associative;
use vstd::bits::lemma_usize_shr_is_div;
use vstd::std_specs::bits::u64_leading_zeros;

/// The number of binary digits of `n`: zero for zero, else the position of
/// its highest set bit plus one.
pub open spec fn bit_len(n: nat) -> nat
    decreases n,
{
    if n == 0 {
        0
    } else {
        1 + bit_len(n / 2)
    }
}

/// The number of set bits of `n`.
pub open spec fn ones(n: nat) -> nat
    decreases n,
{
    if n == 0 {
        0
    } else {
        n % 2 + ones(n / 2)
    }
}

/// The number of consecutive set bits of `n`, counted from the least
/// significant bit upwards.
pub open spec fn trailing_ones(n: nat) -> nat
    decreases n,
{
    if n % 2 == 1 {
        1 + trailing_ones(n / 2)
    } else {
        0
    }
}

/// Whether the `k` least significant bits of `n` are all set.
pub open spec fn low_bits_set(n: nat, k: nat) -> bool {
    n % pow2(k) == pow2(k) - 1
}

/// The number of distinct values of `usize`.
pub open spec fn usize_modulus() -> nat {
    usize::MAX as nat + 1
}

/// `x` shifted left by `s` bits in a `usize`: the bits shifted past the top
/// are lost.
pub open spec fn shl_usize(x: nat, s: nat) -> nat {
    (x * pow2(s)) % usize_modulus()
}

/// `x` shifted right by `s` bits.
pub open spec fn shr(x: nat, s: nat) -> nat {
    x / pow2(s)
}

pub proof fn lemma_usize_modulus()
    ensures
        usize_modulus() == pow2(usize::BITS as nat),
        usize::BITS == 32 || usize::BITS == 64,
{
    lemma2_to64();
    vstd::arithmetic::power2::lemma2_to64_rest();
}

/// `n` fits in `bit_len(n)` bits, and no fewer.
pub proof fn lemma_bit_len_bounds(n: nat)
    ensures
        n < pow2(bit_len(n)),
        n > 0 ==> pow2((bit_len(n) - 1) as nat) <= n,
        n / pow2(bit_len(n)) == 0,
    decreases n,
{
    lemma_pow2_pos(bit_len(n));
    if n > 0 {
        lemma_bit_len_bounds(n / 2);
        lemma_pow2_unfold(bit_len(n));
        if n / 2 > 0 {
            lemma_pow2_unfold((bit_len(n) - 1) as nat);
        } else {
            lemma2_to64();
        }
    }
    let p = pow2(bit_len(n));
    assert(n / p == 0) by (nonlinear_arith)
        requires
            n < p,
            p > 0,
    ;
}

/// A number below `2^k` has at most `k` binary digits.
pub proof fn lemma_bit_len_le(n: nat, k: nat)
    requires
        n < pow2(k),
    ensures
        bit_len(n) <= k,
    decreases n,
{
    if n > 0 {
        if k == 0 {
            lemma2_to64();
        } else {
            lemma_pow2_unfold(k);
            lemma_bit_len_le(n / 2, (k - 1) as nat);
        }
    }
}

/// `leading_zeros` of a 64-bit word is 64 minus the number of its digits.
pub proof fn lemma_leading_zeros(x: u64)
    ensures
        u64_leading_zeros(x) == 64 - bit_len(x as nat),
    decreases x,
{
    reveal(u64_leading_zeros);
    if x != 0 {
        lemma_leading_zeros(x / 2);
    }
}

/// Dropping the lowest bit: the count of set bits of `n` is that of `n / 2`
/// plus the lowest bit.
pub proof fn lemma_ones_step(n: nat)
    ensures
        ones(n) == n % 2 + ones(n / 2),
{
}

/// Shifting right by one more bit halves.
pub proof fn lemma_shr_step(x: nat, i: nat)
    ensures
        shr(x, i + 1) == shr(x, i) / 2,
{
    lemma_pow2_pos(i);
    lemma_pow2_adds(i, 1);
    lemma2_to64();
    lemma_div_denominator(x as int, pow2(i) as int, 2);
}

/// A machine right shift is division by a power of two.
pub proof fn lemma_usize_shr(x: usize, s: usize)
    requires
        s < usize::BITS,
    ensures
        (x >> s) as nat == shr(x as nat, s as nat),
{
    lemma_usize_shr_is_div(x, s);
}

/// The `i`-th bit of `x`, read through a mask, is the parity of `x >> i`.
pub proof fn lemma_usize_bit(x: usize, i: usize)
    requires
        i < usize::BITS,
    ensures
        (x & (1usize << i) == 0) <==> shr(x as nat, i as nat) % 2 == 0,
        ((x >> i) & 1 == 1) <==> shr(x as nat, i as nat) % 2 == 1,
{
    assert((x & (1usize << i) == 0) <==> ((x >> i) & 1usize == 0)) by (bit_vector)
        requires
            i < usize::BITS,
    ;
    let y = x >> i;
    assert((y & 1usize == 0) <==> (y % 2 == 0)) by (bit_vector);
    assert((y & 1usize == 1) <==> (y % 2 == 1)) by (bit_vector);
    lemma_usize_shr(x, i);
}

/// A machine left shift by one bit doubles, modulo the word size.
proof fn lemma_usize_shl_one(y: usize)
    ensures
        (y << 1usize) as int == (2 * y) % (usize_modulus() as int),
{
    lemma_usize_modulus();
    if usize::BITS == 64 {
        assert((y << 1usize) as int == (2 * y) % 0x1_0000_0000_0000_0000) by (bit_vector)
            requires
                usize::BITS == 64,
        ;
    } else {
        assert((y << 1usize) as int == (2 * y) % 0x1_0000_0000) by (bit_vector)
            requires
                usize::BITS == 32,
        ;
    }
}

/// A machine left shift multiplies by a power of two, modulo the word size.
pub proof fn lemma_usize_shl(x: usize, s: usize)
    requires
        s < usize::BITS,
    ensures
        (x << s) as nat == shl_usize(x as nat, s as nat),
    decreases s,
{
    lemma_usize_modulus();
    let m = usize_modulus() as int;
    if s == 0 {
        assert(x << 0usize == x) by (bit_vector);
        lemma2_to64();
        lemma_small_mod(x as nat, m as nat);
    } else {
        let t = (s - 1) as usize;
        assert(x << s == (x << t) << 1usize) by (bit_vector)
            requires
                0 < s < usize::BITS,
                t == s - 1,
        ;
        lemma_usize_shl(x, t);
        lemma_usize_shl_one(x << t);
        let a = x * pow2(t as nat);
        // (x << s) == (2 * (a % m)) % m == (2 * a) % m
        lemma_mul_mod_noop_right(2, a as int, m);
        lemma_pow2_unfold(s as nat);
        lemma_mul_is_associative(x as int, 2, pow2(t as nat) as int);
        assert(2 * a == x * pow2(s as nat)) by (nonlinear_arith)
            requires
                a == x * pow2(t as nat),
                pow2(s as nat) == 2 * pow2(t as nat),
        ;
    }
}

/// Without overflow, a machine left shift is an exact multiplication.
pub proof fn lemma_shl_no_wrap(x: nat, s: nat)
    requires
        x * pow2(s) <= usize::MAX,
    ensures
        shl_usize(x, s) == x * pow2(s),
{
    lemma_pow2_pos(s);
    assert(x * pow2(s) >= 0) by (nonlinear_arith);
    lemma_small_mod(x * pow2(s), usize_modulus());
}

/// The low `i + 1` bits are all set exactly when the low `i` bits are and
/// bit `i` is too.
pub proof fn lemma_low_bits_set_step(n: nat, i: nat)
    ensures
        low_bits_set(n, i + 1) <==> (low_bits_set(n, i) && shr(n, i) % 2 == 1),
{
    lemma_pow2_pos(i);
    lemma_pow2_unfold(i + 1);
    lemma_mod_breakdown(n as int, pow2(i) as int, 2);
    let p = pow2(i);
    let r = n % p;
    let b = shr(n, i) % 2;
    assert(n % pow2(i + 1) == p * b + r);
    assert(r < p);
    assert(b < 2);
    assert((p * b + r == 2 * p - 1) <==> (r == p - 1 && b == 1)) by (nonlinear_arith)
        requires
            r < p,
            b < 2,
            p > 0,
    ;
}

/// Having all of its low `k` bits set, a number also has all of its low `j`
/// bits set, for any `j <= k`.
pub proof fn lemma_low_bits_set_mono(n: nat, j: nat, k: nat)
    requires
        j <= k,
        low_bits_set(n, k),
    ensures
        low_bits_set(n, j),
    decreases k - j,
{
    if j < k {
        lemma_low_bits_set_step(n, (k - 1) as nat);
        lemma_low_bits_set_mono(n, j, (k - 1) as nat);
    }
}

/// The trailing ones of a number are a run of set low bits, ended by a zero.
pub proof fn lemma_trailing_ones(n: nat)
    ensures
        low_bits_set(n, trailing_ones(n)),
        shr(n, trailing_ones(n)) % 2 == 0,
        trailing_ones(n) <= bit_len(n),
    decreases n,
{
    if n % 2 == 1 {
        lemma_trailing_ones(n / 2);
        let t = trailing_ones(n / 2);
        // shift and mask facts about n from those about n / 2
        lemma_pow2_pos(t);
        lemma_pow2_unfold(t + 1);
        lemma_mod_breakdown(n as int, 2, pow2(t) as int);
        assert(pow2(t + 1) == 2 * pow2(t));
        assert(n % pow2(t + 1) == 2 * ((n / 2) % pow2(t)) + n % 2);
        lemma_pow2_adds(1, t);
        lemma2_to64();
        lemma_div_denominator(n as int, 2, pow2(t) as int);
        assert(shr(n, t + 1) == shr(n / 2, t));
    } else {
        lemma2_to64();
    }
}

/// Shifting right twice is shifting right by the sum.
pub proof fn lemma_shr_shr(x: nat, i: nat, j: nat)
    ensures
        shr(shr(x, i), j) == shr(x, i + j),
{
    lemma_pow2_pos(i);
    lemma_pow2_pos(j);
    lemma_div_denominator(x as int, pow2(i) as int, pow2(j) as int);
    lemma_pow2_adds(i, j);
}

/// Shifting right by nothing changes nothing.
pub proof fn lemma_shr_zero(x: nat)
    ensures
        shr(x, 0) == x,
{
    lemma2_to64();
}

/// The low `k` bits of `n` are all set exactly when `n + 1` is a multiple of `2^k`.
pub proof fn lemma_low_bits_set_multiple(n: nat, k: nat)
    ensures
        low_bits_set(n, k) <==> (n + 1) % pow2(k) == 0,
{
    let p = pow2(k);
    lemma_pow2_pos(k);
    let q = n / p;
    let r = n % p;
    lemma_fundamental_div_mod(n as int, p as int);
    assert(0 <= r < p);
    assert(n + 1 == p * q + (r + 1));
    vstd::arithmetic::div_mod::lemma_mod_multiples_vanish(q as int, (r + 1) as int, p as int);
    if r + 1 < p {
        lemma_small_mod((r + 1) as nat, p);
    } else {
        vstd::arithmetic::div_mod::lemma_mod_self_0(p as int);
    }
}

/// A leaf lies in the block of `2^k` leaves with index `i` exactly when
/// shifting it right by `k` gives `i`.
pub proof fn lemma_shr_block(p: nat, i: nat, k: nat)
    ensures
        (i * pow2(k) <= p && p < (i + 1) * pow2(k)) <==> shr(p, k) == i,
{
    let m = pow2(k);
    lemma_pow2_pos(k);
    lemma_fundamental_div_mod(p as int, m as int);
    let q = p / m;
    let r = p % m;
    assert(0 <= r < m);
    assert((i * m <= p && p < (i + 1) * m) <==> q == i) by (nonlinear_arith)
        requires
            p == m * q + r,
            0 <= r < m,
            m > 0,
            q >= 0,
            i >= 0,
    ;
}

/// Shifting right by one more bit is shifting the half.
pub proof fn lemma_shr_succ(x: nat, j: nat)
    ensures
        shr(x, j + 1) == shr(x / 2, j),
{
    lemma_shr_step(x, 0);
    lemma_shr_zero(x);
    lemma_shr_shr(x, 1, j);
}

/// Below the trailing ones, every bit of `n` is set: `shr(n, j)` is odd for
/// each `j` under `trailing_ones(n)`.
pub proof fn lemma_trailing_ones_below(n: nat, j: nat)
    requires
        j < trailing_ones(n),
    ensures
        shr(n, j) % 2 == 1,
{
    lemma_trailing_ones(n);
    lemma_low_bits_set_mono(n, j + 1, trailing_ones(n));
    lemma_low_bits_set_step(n, j);
}

} // verus!
