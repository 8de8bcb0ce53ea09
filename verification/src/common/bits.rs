//! Base-two logarithms and powers of two on machine words.
use vstd::prelude::*;
use vstd::arithmetic::power2::{lemma_pow2_unfold, pow2, lemma_pow2_pos};

verus! {

/// `floor(log2(n))`, with `log2(0) = log2(1) = 0`.
pub open spec fn log2(n: nat) -> nat
    decreases n,
{
    if n <= 1 {
        0
    } else {
        1 + log2(n / 2)
    }
}

/// `n` is a power of two.
pub open spec fn is_pow2(n: nat) -> bool
    decreases n,
{
    if n == 1 {
        true
    } else if n < 2 || n % 2 != 0 {
        false
    } else {
        is_pow2(n / 2)
    }
}

/// A power of two is `2^log2(n)`, and `2^k` is a power of two of logarithm `k`.
pub proof fn lemma_pow2_log2(n: nat)
    requires
        is_pow2(n),
    ensures
        n == pow2(log2(n)),
        n >= 1,
    decreases n,
{
    if n == 1 {
        assert(pow2(0) == 1) by {
            vstd::arithmetic::power2::lemma2_to64();
        }
    } else {
        lemma_pow2_log2(n / 2);
        lemma_pow2_unfold(log2(n));
    }
}

/// `2^k` is a power of two whose logarithm is `k`.
pub proof fn lemma_log2_pow2(k: nat)
    ensures
        is_pow2(pow2(k)),
        log2(pow2(k)) == k,
        pow2(k) >= 1,
    decreases k,
{
    lemma_pow2_pos(k);
    if k == 0 {
        vstd::arithmetic::power2::lemma2_to64();
    } else {
        lemma_log2_pow2((k - 1) as nat);
        lemma_pow2_unfold(k);
        assert(pow2(k) / 2 == pow2((k - 1) as nat));
    }
}

/// `floor(log2(n))` for `n > 0` (the panic of `usize::ilog2` on zero is
/// excluded by the precondition).
pub fn ilog2(n: usize) -> (r: usize)
    requires
        n > 0,
    ensures
        r == log2(n as nat),
        r < 64,
{
    let mut m = n;
    let mut r: usize = 0;
    while m > 1
        invariant
            m >= 1,
            r + log2(m as nat) == log2(n as nat),
            r + m <= n,
            n <= usize::MAX,
        decreases m,
    {
        m = m / 2;
        r = r + 1;
    }
    proof {
        lemma_log2_bound(n as nat);
    }
    r
}

/// `log2(n) < 64` for a word.
pub proof fn lemma_log2_bound(n: nat)
    requires
        n <= usize::MAX,
    ensures
        log2(n) < 64,
{
    vstd::arithmetic::power2::lemma2_to64_rest();
    lemma_log2_lt(n, 64);
}

/// `n < 2^k` (with `k >= 1`) bounds the logarithm by `k - 1`.
pub proof fn lemma_log2_lt(n: nat, k: nat)
    requires
        k >= 1,
        n < pow2(k),
    ensures
        log2(n) < k,
    decreases k,
{
    if n > 1 {
        lemma_pow2_unfold(k);
        if k == 1 {
            vstd::arithmetic::power2::lemma2_to64();
        } else {
            lemma_log2_lt(n / 2, (k - 1) as nat);
        }
    }
}

/// The logarithm is monotone.
pub proof fn lemma_log2_mono(a: nat, b: nat)
    requires
        a <= b,
    ensures
        log2(a) <= log2(b),
    decreases b,
{
    if a > 1 {
        lemma_log2_mono(a / 2, b / 2);
    }
}

/// Whether `n` is a power of two.
pub fn is_power_of_two(n: usize) -> (r: bool)
    ensures
        r == is_pow2(n as nat),
{
    if n == 0 {
        return false;
    }
    let mut m = n;
    while m > 1 && m % 2 == 0
        invariant
            m >= 1,
            is_pow2(m as nat) == is_pow2(n as nat),
        decreases m,
    {
        m = m / 2;
    }
    m == 1
}


/// `2^k` as a machine word.
pub fn pow2_usize(k: usize) -> (r: usize)
    requires
        pow2(k as nat) <= usize::MAX,
    ensures
        r == pow2(k as nat),
{
    let mut r: usize = 1;
    let mut i: usize = 0;
    proof {
        vstd::arithmetic::power2::lemma2_to64();
    }
    while i < k
        invariant
            i <= k,
            r == pow2(i as nat),
            pow2(k as nat) <= usize::MAX,
        decreases k - i,
    {
        proof {
            lemma_pow2_unfold((i + 1) as nat);
            if i + 1 < k {
                vstd::arithmetic::power2::lemma_pow2_strictly_increases((i + 1) as nat, k as nat);
            }
        }
        r = r * 2;
        i = i + 1;
    }
    r
}

} // verus!
