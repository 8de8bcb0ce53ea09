//! Powers and inverses in `Z_q`.
use vstd::prelude::*;
use vstd::arithmetic::div_mod::*;
use vstd::arithmetic::mul::*;
use vstd::arithmetic::power::*;
use crate::common::config::MOD_Q;
use crate::common::field::{fmod, mul_mod, q, reduced, sub_mod};

verus! {

/// `b^e mod q`.
pub open spec fn pow_q(b: int, e: nat) -> int {
    fmod(pow(b, e))
}

/// `d` is a positive divisor of `x`.
pub open spec fn divides(d: int, x: int) -> bool {
    d > 0 && x % d == 0
}

/// `x` has a multiplicative inverse modulo `q`.
pub open spec fn has_inverse(x: int) -> bool {
    exists|y: int| #[trigger] fmod(x * y) == 1
}

proof fn lemma_pow_step_even(base: int, e: nat)
    requires
        e % 2 == 0,
    ensures
        pow(base, e) == pow(base * base, e / 2),
{
    lemma_pow_multiplies(base, 2, e / 2);
    lemma_square_is_pow2(base);
    assert(2 * (e / 2) == e);
}

proof fn lemma_pow_step_odd(base: int, e: nat)
    requires
        e % 2 == 1,
    ensures
        pow(base, e) == base * pow(base * base, e / 2),
{
    lemma_pow_adds(base, 1, (e - 1) as nat);
    lemma_pow1(base);
    lemma_pow_step_even(base, (e - 1) as nat);
    assert((e - 1) as nat / 2 == e / 2);
}

/// One square-and-multiply step keeps `result * base^e` fixed modulo `q`.
proof fn lemma_square_multiply(result: int, base: int, e: nat, b2: int)
    requires
        b2 == fmod(base * base),
        e > 0,
    ensures
        e % 2 == 0 ==> fmod(result * pow(b2, e / 2)) == fmod(result * pow(base, e)),
        e % 2 == 1 ==> fmod(fmod(result * base) * pow(b2, e / 2)) == fmod(
            result * pow(base, e),
        ),
{
    lemma_pow_mod_noop(base * base, e / 2, q());
    let p = pow(base * base, e / 2);
    let pm = pow(b2, e / 2);
    assert(fmod(pm) == fmod(p));
    lemma_mul_mod_noop_right(result, pm, q());
    lemma_mul_mod_noop_right(result, p, q());
    if e % 2 == 0 {
        lemma_pow_step_even(base, e);
    } else {
        lemma_pow_step_odd(base, e);
        lemma_mul_mod_noop_left(result * base, pm, q());
        lemma_mul_mod_noop_right(result * base, pm, q());
        lemma_mul_mod_noop_right(result * base, p, q());
        lemma_mul_is_associative(result, base, p);
    }
}

/// `base^exponent mod q` by square and multiply.
pub fn pow_mod(base: u64, exponent: u64) -> (r: u64)
    ensures
        r as int == pow_q(base as int, exponent as nat),
        reduced(r as int),
{
    let mut result: u64 = 1;
    let mut b: u64 = base % MOD_Q;
    let mut e: u64 = exponent;
    proof {
        lemma_pow_mod_noop(base as int, exponent as nat, q());
        lemma_mul_basics(pow(b as int, e as nat));
        lemma_small_mod(1, q() as nat);
    }
    while e > 0
        invariant
            result < MOD_Q,
            b < MOD_Q,
            fmod(result * pow(b as int, e as nat)) == pow_q(base as int, exponent as nat),
        decreases e,
    {
        let b2 = mul_mod(b, b);
        proof {
            lemma_square_multiply(result as int, b as int, e as nat, b2 as int);
        }
        if e % 2 == 1 {
            result = mul_mod(result, b);
        }
        b = b2;
        e = e / 2;
    }
    proof {
        lemma_pow0(b as int);
        lemma_small_mod(result as nat, q() as nat);
    }
    result
}

/// A common divisor of `x` and `y` divides `x - k * y`, and conversely.
proof fn lemma_divides_combination(x: int, y: int, k: int, d: int)
    requires
        d > 0,
        y % d == 0,
    ensures
        (x - k * y) % d == 0 <==> x % d == 0,
{
    lemma_fundamental_div_mod(y, d);
    let m = y / d;
    assert(y == d * m);
    assert(k * y == (k * m) * d) by (nonlinear_arith)
        requires
            y == d * m,
    ;
    lemma_mod_multiples_vanish(-(k * m), x, d);
    assert(x + (-(k * m)) * d == x - k * y) by {
        lemma_mul_unary_negation(k * m, d);
    }
}

/// A divisor of both `a` and `q` that also divides a combination equal to one is one.
proof fn lemma_unit_divisor(a: int, x: int, g: int)
    requires
        g > 0,
        a % g == 0,
        q() % g == 0,
        fmod(a * x) == 1,
    ensures
        g == 1,
{
    lemma_fundamental_div_mod(a * x, q());
    let k = (a * x) / q();
    assert(a * x - k * q() == 1);
    lemma_fundamental_div_mod(a, g);
    let ag = a / g;
    assert(a == g * ag);
    assert(a * x == (ag * x) * g) by (nonlinear_arith)
        requires
            a == g * ag,
    ;
    lemma_mod_multiples_basic(ag * x, g);
    lemma_divides_combination(a * x, q(), k, g);
    assert(1int % g == 0);
    if g > 1 {
        lemma_small_mod(1, g as nat);
    }
}

/// The extended Euclidean algorithm on `a` and `q`: a positive common
/// divisor `g` of both and a Bezout coefficient `s` with `a * s = g (mod q)`.
fn euclid(a: u64) -> (r: (u64, u64))
    ensures
        r.0 > 0,
        r.1 < MOD_Q,
        fmod(a * r.1) == fmod(r.0 as int),
        divides(r.0 as int, a as int),
        divides(r.0 as int, q()),
{
    let mut old_r: u64 = a;
    let mut rr: u64 = MOD_Q;
    let mut old_s: u64 = 1;
    let mut s: u64 = 0;
    proof {
        lemma_small_mod(1, q() as nat);
        lemma_mul_basics(a as int);
        lemma_mod_self_0(q());
        assert(fmod(a * 1) == fmod(a as int));
        assert(fmod(a * 0) == fmod(MOD_Q as int)) by {
            lemma_small_mod(0, q() as nat);
        }
    }
    while rr > 0
        invariant
            old_s < MOD_Q,
            s < MOD_Q,
            rr <= MOD_Q,
            old_r <= u64::MAX,
            rr == 0 ==> old_r > 0,
            old_r == 0 ==> rr > 0,
            fmod(a * old_s) == fmod(old_r as int),
            fmod(a * s) == fmod(rr as int),
            forall|d: int|
                #[trigger] divides(d, old_r as int) && #[trigger] divides(d, rr as int) ==> divides(
                    d,
                    a as int,
                ) && divides(d, q()),
        decreases rr,
    {
        let quot = old_r / rr;
        let rem = old_r % rr;
        let qm = quot % MOD_Q;
        let t = mul_mod(qm, s);
        let new_s = sub_mod(old_s, t);
        proof {
            lemma_fundamental_div_mod(old_r as int, rr as int);
            assert(rem == old_r - quot * rr);
            // the Bezout relation is kept modulo q
            lemma_mul_mod_noop_left(quot as int, s as int, q());
            lemma_sub_mod_noop_right(old_s as int, qm * s, q());
            lemma_sub_mod_noop_right(old_s as int, quot * s, q());
            lemma_mul_is_distributive_sub(a as int, old_s as int, quot * s);
            lemma_mul_is_associative(a as int, quot as int, s as int);
            lemma_mul_is_commutative(a as int, quot as int);
            lemma_mul_is_associative(quot as int, a as int, s as int);
            lemma_sub_mod_noop(a * old_s, quot * (a * s), q());
            lemma_mul_mod_noop_right(quot as int, a * s, q());
            lemma_mul_mod_noop_right(quot as int, rr as int, q());
            lemma_sub_mod_noop(old_r as int, quot * rr, q());
            lemma_sub_mod_noop(a * old_s, quot * (a * s), q());
            assert(fmod(a * new_s) == fmod(a * (old_s - quot * s))) by {
                lemma_mul_mod_noop_right(a as int, old_s - quot * s, q());
                lemma_mul_mod_noop_right(a as int, new_s as int, q());
            }
            assert(fmod(a * (old_s - quot * s)) == fmod(a * old_s - quot * (a * s)));
            assert(fmod(quot * (a * s)) == fmod(quot * rr));
            assert(fmod(a * old_s - quot * (a * s)) == fmod(old_r - quot * rr));
            // common divisors of the new pair divide the old pair
            assert forall|d: int|
                #[trigger] divides(d, rr as int) && #[trigger] divides(d, rem as int) implies divides(
                    d,
                    a as int,
                ) && divides(d, q()) by {
                lemma_divides_combination(old_r as int, rr as int, quot as int, d);
                assert(divides(d, old_r as int));
            }
        }
        old_r = rr;
        rr = rem;
        old_s = s;
        s = new_s;
    }
    proof {
        let g = old_r as int;
        assert((old_r as int) % g == 0) by {
            lemma_mod_self_0(g);
        }
        assert(0int % g == 0) by {
            lemma_small_mod(0, g as nat);
        }
        assert(divides(g, old_r as int) && divides(g, rr as int));
    }
    (old_r, old_s)
}

/// The inverse of `a` modulo `q`, by the extended Euclidean algorithm.
pub fn inv_mod(a: u64) -> (r: u64)
    requires
        has_inverse(a as int),
    ensures
        reduced(r as int),
        fmod(a * r) == 1,
{
    let (g, s) = euclid(a);
    proof {
        let x = choose|y: int| #[trigger] fmod(a * y) == 1;
        lemma_unit_divisor(a as int, x, g as int);
        lemma_small_mod(1, q() as nat);
    }
    s
}

/// The inverse of `a` modulo `q` where there is one, `None` where there is
/// none (for the prime `q`, exactly where `a = 0 mod q`).
pub fn checked_inv_mod(a: u64) -> (r: Option<u64>)
    ensures
        r is Some <==> has_inverse(a as int),
        r matches Some(x) ==> reduced(x as int) && fmod(a * x) == 1,
{
    let (g, s) = euclid(a);
    if g == 1 {
        proof {
            lemma_small_mod(1, q() as nat);
            assert(fmod(a * s) == 1);
        }
        Some(s)
    } else {
        proof {
            if has_inverse(a as int) {
                let x = choose|y: int| #[trigger] fmod(a * y) == 1;
                lemma_unit_divisor(a as int, x, g as int);
            }
        }
        None
    }
}

} // verus!
