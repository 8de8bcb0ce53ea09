//! Arithmetic in the prime field `Z_q`.
use vstd::prelude::*;
use vstd::arithmetic::div_mod::*;
use crate::common::config::MOD_Q;

verus! {

/// `q` as a mathematical integer.
pub open spec fn q() -> int {
    MOD_Q as int
}

/// Reduction of an integer into `[0, q)`.
pub open spec fn fmod(x: int) -> int {
    x % q()
}

/// A value that is a canonical representative of `Z_q`.
pub open spec fn reduced(x: int) -> bool {
    0 <= x < q()
}

/// Sum in `Z_q`.
pub fn add_mod(a: u64, b: u64) -> (r: u64)
    requires
        a < MOD_Q,
        b < MOD_Q,
    ensures
        r as int == fmod(a + b),
{
    let s = a + b;
    if s >= MOD_Q {
        proof {
            lemma_fundamental_div_mod(s as int, q());
            assert(fmod(s as int) == s - q()) by {
                lemma_mod_multiples_vanish(-1, s as int, q());
                lemma_small_mod((s - q()) as nat, q() as nat);
            }
        }
        s - MOD_Q
    } else {
        proof {
            lemma_small_mod(s as nat, q() as nat);
        }
        s
    }
}

/// Difference in `Z_q`.
pub fn sub_mod(a: u64, b: u64) -> (r: u64)
    requires
        a < MOD_Q,
        b < MOD_Q,
    ensures
        r as int == fmod(a - b),
{
    if a >= b {
        proof {
            lemma_small_mod((a - b) as nat, q() as nat);
        }
        a - b
    } else {
        proof {
            lemma_mod_multiples_vanish(1, a - b, q());
            lemma_small_mod((a - b + q()) as nat, q() as nat);
        }
        a + (MOD_Q - b)
    }
}

/// Product in `Z_q`.
pub fn mul_mod(a: u64, b: u64) -> (r: u64)
    requires
        a < MOD_Q,
        b < MOD_Q,
    ensures
        r as int == fmod(a * b),
{
    let x = a as u128;
    let y = b as u128;
    assert(x * y < 0x1_0000_0000_0000_0000_0000_0000_0000_0000) by (nonlinear_arith)
        requires
            x < 0x2000_0000_0000_0000,
            y < 0x2000_0000_0000_0000,
    ;
    let p = x * y;
    let r = p % (MOD_Q as u128);
    r as u64
}

} // verus!
