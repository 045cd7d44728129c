//! Power-of-two arithmetic used by the buddy heap.
use vstd::prelude::*;
use vstd::arithmetic::power2::{pow2, lemma_pow2_pos, lemma_pow2_unfold, lemma_pow2_strictly_increases};

verus! {

/// `n` is a power of two.
pub open spec fn is_power_of_two(n: int) -> bool {
    exists|k: nat| pow2(k) == n
}

/// The exponent of a power of two.
pub open spec fn log2_of(n: int) -> nat
    recommends
        is_power_of_two(n),
{
    choose|k: nat| pow2(k) == n
}

/// The machine word of the target, in bytes: every heap block is at least
/// this large and aligned to it.
pub open spec fn word_size() -> nat {
    (usize::BITS / 8) as nat
}

/// `2^k` fits in a `usize` exactly when `k < usize::BITS`.
pub proof fn lemma_pow2_fits(k: nat)
    ensures
        pow2(k) <= usize::MAX <==> k < usize::BITS,
        k < usize::BITS ==> pow2(k) < usize::MAX,
{
    broadcast use vstd::layout::layout_of_primitives;
    vstd::arithmetic::power2::lemma2_to64();
    vstd::arithmetic::power2::lemma2_to64_rest();
    if k < usize::BITS {
        if k < usize::BITS as nat {
            lemma_pow2_strictly_increases(k, usize::BITS as nat);
        }
    } else {
        if k > usize::BITS as nat {
            lemma_pow2_strictly_increases(usize::BITS as nat, k);
        }
    }
}

/// Shifting one left by `k` gives `2^k`.
pub proof fn lemma_shl_one(k: usize)
    requires
        k < usize::BITS,
    ensures
        (1usize << k) == pow2(k as nat),
        pow2(k as nat) <= usize::MAX,
{
    lemma_pow2_fits(k as nat);
    vstd::bits::lemma_usize_shl_is_mul(1, k);
}

/// `2^j` divides `2^k` for `j <= k`.
pub proof fn lemma_pow2_divides(j: nat, k: nat)
    requires
        j <= k,
    ensures
        pow2(k) % pow2(j) == 0,
        pow2(k) == pow2(j) * pow2((k - j) as nat),
{
    vstd::arithmetic::power2::lemma_pow2_adds(j, (k - j) as nat);
    lemma_pow2_pos(j);
    vstd::arithmetic::div_mod::lemma_mod_multiples_basic(pow2((k - j) as nat) as int, pow2(j) as int);
    assert(pow2(j) * pow2((k - j) as nat) == pow2((k - j) as nat) * pow2(j)) by (nonlinear_arith);
}

/// A multiple of `2^k` is a multiple of `2^j` for `j <= k`.
pub proof fn lemma_aligned_weaken(x: int, j: nat, k: nat)
    requires
        j <= k,
        x % pow2(k) as int == 0,
    ensures
        x % pow2(j) as int == 0,
{
    lemma_pow2_divides(j, k);
    lemma_pow2_pos(j);
    lemma_pow2_pos(k);
    let q = x / pow2(k) as int;
    vstd::arithmetic::div_mod::lemma_fundamental_div_mod(x, pow2(k) as int);
    assert(x == pow2(k) * q);
    assert(x == pow2(j) * (pow2((k - j) as nat) * q)) by (nonlinear_arith)
        requires
            x == pow2(k) * q,
            pow2(k) == pow2(j) * pow2((k - j) as nat),
    ;
    vstd::arithmetic::div_mod::lemma_mod_multiples_basic(pow2((k - j) as nat) * q, pow2(j) as int);
    assert(pow2(j) * (pow2((k - j) as nat) * q) == (pow2((k - j) as nat) * q) * pow2(j)) by (nonlinear_arith);
}

/// Computes the largest power of two not above `num`, with its exponent.
pub fn prev_power_of_two_with_order(num: usize) -> (r: (usize, usize))
    requires
        num > 0,
    ensures
        r.0 == pow2(r.1 as nat),
        r.0 <= num < 2 * r.0,
        r.1 < usize::BITS,
{
    let mut p: usize = 1;
    let mut k: usize = 0;
    proof {
        vstd::arithmetic::power2::lemma2_to64();
    }
    while p <= num / 2
        invariant
            p == pow2(k as nat),
            1 <= p <= num,
            k < usize::BITS,
        decreases num - p,
    {
        proof {
            lemma_pow2_unfold((k + 1) as nat);
            lemma_pow2_fits((k + 1) as nat);
        }
        p = p * 2;
        k = k + 1;
    }
    (p, k)
}

/// The largest power of two not above `num`.
pub fn prev_power_of_two(num: usize) -> (r: usize)
    requires
        num > 0,
    ensures
        is_power_of_two(r as int),
        r <= num < 2 * r,
{
    let (p, k) = prev_power_of_two_with_order(num);
    p
}

/// The largest power of two that divides `x`, with its exponent.
pub fn lowest_set_bit(x: usize) -> (r: (usize, usize))
    requires
        x > 0,
    ensures
        r.0 == pow2(r.1 as nat),
        x % r.0 == 0,
        (x / r.0) % 2 == 1,
        r.1 < usize::BITS,
{
    let mut p: usize = 1;
    let mut k: usize = 0;
    proof {
        vstd::arithmetic::power2::lemma2_to64();
    }
    while (x / p) % 2 == 0
        invariant
            p == pow2(k as nat),
            1 <= p <= x,
            x % p == 0,
            k < usize::BITS,
        decreases x - p,
    {
        proof {
            lemma_pow2_unfold((k + 1) as nat);
            vstd::arithmetic::div_mod::lemma_fundamental_div_mod(x as int, p as int);
            let q = x / p;
            assert(q >= 1) by (nonlinear_arith)
                requires
                    x >= p,
                    p >= 1,
                    q == x / p,
            ;
            assert(q >= 2);
            assert(x == p * q);
            assert(2 * p <= x) by (nonlinear_arith)
                requires
                    x == p * q,
                    q >= 2,
                    p >= 1,
            ;
            assert((x as int) % (2 * p as int) == 0) by (nonlinear_arith)
                requires
                    x == p * q,
                    q % 2 == 0,
                    p >= 1,
            {
                assert(x == (2 * p) * (q / 2));
            }
            lemma_pow2_fits((k + 1) as nat);
        }
        p = p * 2;
        k = k + 1;
    }
    (p, k)
}

/// Clearing the low `k` bits rounds down to a multiple of `2^k`.
proof fn lemma_mask_rounds_down(x: usize, k: usize)
    requires
        k < usize::BITS,
    ensures
        x & !(((1usize << k) - 1usize) as usize) == (x / pow2(k as nat) as usize) * pow2(k as nat) as usize,
        (1usize << k) == pow2(k as nat),
{
    lemma_shl_one(k);
    assert(x & !(((1usize << k) - 1usize) as usize) == (x >> k) << k) by (bit_vector)
        requires
            k < usize::BITS,
    ;
    vstd::bits::lemma_usize_shr_is_div(x, k);
    lemma_pow2_pos(k as nat);
    let q = x / pow2(k as nat) as usize;
    assert(q * pow2(k as nat) <= x) by (nonlinear_arith)
        requires
            q as int == x as int / pow2(k as nat) as int,
            pow2(k as nat) > 0,
    ;
    vstd::bits::lemma_usize_shl_is_mul(q, k);
}

/// Clearing the low `k` bits rounds down to a multiple of `2^k`.
pub proof fn lemma_mask_rounds_down_pub(x: usize, k: usize)
    requires
        k < usize::BITS,
    ensures
        x & !(((1usize << k) - 1usize) as usize) == (x / pow2(k as nat) as usize) * pow2(k as nat) as usize,
        (1usize << k) == pow2(k as nat),
{
    lemma_mask_rounds_down(x, k);
}

/// Rounds `addr` up to a multiple of the power of two `align`.
pub fn align_up(addr: usize, align: usize) -> (r: usize)
    requires
        is_power_of_two(align as int),
        addr + align - 1 <= usize::MAX,
    ensures
        r == ((addr + align - 1) / align as int) * align as int,
{
    let ghost k = log2_of(align as int);
    proof {
        lemma_pow2_pos(k);
        lemma_pow2_fits(k);
        lemma_mask_rounds_down((addr + align - 1) as usize, k as usize);
    }
    let mask = !(align - 1);
    (addr + (align - 1)) & mask
}

/// Rounds `addr` down to a multiple of the power of two `align`.
pub fn align_down(addr: usize, align: usize) -> (r: usize)
    requires
        is_power_of_two(align as int),
    ensures
        r == (addr as int / align as int) * align,
{
    let ghost k = log2_of(align as int);
    proof {
        lemma_pow2_pos(k);
        lemma_pow2_fits(k);
        lemma_mask_rounds_down(addr, k as usize);
    }
    addr & (!(align - 1))
}

/// The size of a block of the given order: `2^order_idx`.
pub fn block_size(order_idx: usize) -> (r: usize)
    requires
        order_idx < usize::BITS,
    ensures
        r == pow2(order_idx as nat),
{
    proof {
        lemma_shl_one(order_idx);
    }
    1 << order_idx
}

/// Half the size of a block of the given order: `2^(order_idx - 1)`.
pub fn half_block_size(order_idx: usize) -> (r: usize)
    requires
        1 <= order_idx <= usize::BITS,
    ensures
        r == pow2((order_idx - 1) as nat),
        2 * r == pow2(order_idx as nat),
{
    proof {
        lemma_shl_one((order_idx - 1) as usize);
        lemma_pow2_unfold(order_idx as nat);
    }
    1 << (order_idx - 1)
}

} // verus!
