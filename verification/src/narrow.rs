//! From double-precision numbers to single-precision ones, by their bit
//! patterns.
//!
//! A double-precision number has a sign, eleven bits of exponent and 52 bits
//! of fraction. Its smallest positive number is the smallest positive
//! single-precision one divided by the 925th power of two.

use vstd::arithmetic::div_mod::{lemma_fundamental_div_mod, lemma_fundamental_div_mod_converse};
use vstd::arithmetic::power2::{
    lemma2_to64, lemma2_to64_rest, lemma_pow2_adds, lemma_pow2_pos, lemma_pow2_strictly_increases,
    lemma_pow2_unfold, pow2,
};
use vstd::prelude::*;

use crate::score::{
    distance, excess, exponent, lemma_excess, lemma_units_increase, lemma_units_step,
    round_half_even, significand, units, FRACTIONS, INFINITY, SIGN,
};

verus! {

/// The first pattern with a sign, and the number of magnitudes.
pub const DOUBLE_SIGN: u64 = 0x8000_0000_0000_0000;

/// The magnitude of infinity; what lies above it is not a number.
pub const DOUBLE_INFINITY: u64 = 0x7ff0_0000_0000_0000;

/// One more than the largest fraction.
pub const DOUBLE_FRACTIONS: u64 = 0x10_0000_0000_0000;

/// A single-precision pattern that encodes no number.
pub const NOT_A_NUMBER: u32 = 0x7fc0_0000;

/// The pattern without its sign.
pub open spec fn double_magnitude(bits: u64) -> nat {
    (if bits < DOUBLE_SIGN {
        bits as int
    } else {
        bits - DOUBLE_SIGN
    }) as nat
}

/// The significand that a magnitude encodes.
pub open spec fn double_significand(m: nat) -> nat {
    if m < DOUBLE_FRACTIONS {
        m
    } else {
        DOUBLE_FRACTIONS as nat + m % DOUBLE_FRACTIONS as nat
    }
}

/// The exponent that a magnitude encodes, counted from the smallest one.
pub open spec fn double_exponent(m: nat) -> nat {
    if m < DOUBLE_FRACTIONS {
        0
    } else {
        (m / DOUBLE_FRACTIONS as nat - 1) as nat
    }
}

/// The number that a magnitude encodes, in units of the smallest positive
/// double-precision number.
pub open spec fn double_units(m: nat) -> nat {
    double_significand(m) * pow2(double_exponent(m))
}

/// The smallest positive single-precision number, in the same units.
pub open spec fn single_unit() -> nat {
    pow2(925)
}

/// The single-precision magnitude for `p / d` of its units: rounded to the
/// nearest, with no bound on the exponent.
pub open spec fn nearest_single(p: nat, d: nat) -> nat {
    let k = excess(p / d);
    k * FRACTIONS as nat + round_half_even(p, d * pow2(k))
}

/// Whether `m` is the single-precision magnitude that `p / d` of its units
/// round to: no other is as near, or another is just as near and `m` is the
/// even one.
pub open spec fn scaled_rounds_to(p: nat, d: nat, m: nat) -> bool {
    forall|o: nat|
        o != m ==> {
            ||| distance(p, #[trigger] units(o) * d) > distance(p, units(m) * d)
            ||| distance(p, units(o) * d) == distance(p, units(m) * d) && m % 2 == 0
        }
}

/// The pattern of the single-precision number nearest to a double-precision
/// one, with infinity where it is out of bounds.
pub open spec fn narrow(bits: u64) -> u32 {
    let m = double_magnitude(bits);
    let n = nearest_single(double_units(m), single_unit());
    let top = if m > DOUBLE_INFINITY {
        NOT_A_NUMBER as nat
    } else if m < DOUBLE_INFINITY && n < INFINITY {
        n
    } else {
        INFINITY as nat
    };
    (if bits < DOUBLE_SIGN {
        top as int
    } else {
        top + SIGN
    }) as u32
}

// ---------------------------------------------------------------------------
// The nearest number
// ---------------------------------------------------------------------------

/// Of the numbers with a magnitude, only the two round `p / d` can be nearest
/// to it.
proof fn lemma_scaled_between(p: nat, d: nat, low: nat, m: nat)
    requires
        d > 0,
        units(low) * d <= p < units(low + 1) * d,
        m == low || m == low + 1,
        m == low ==> distance(p, units(low) * d) < distance(p, units(low + 1) * d) || (distance(
            p,
            units(low) * d,
        ) == distance(p, units(low + 1) * d) && low % 2 == 0),
        m == low + 1 ==> distance(p, units(low + 1) * d) < distance(p, units(low) * d) || (distance(
            p,
            units(low + 1) * d,
        ) == distance(p, units(low) * d) && (low + 1) % 2 == 0),
    ensures
        scaled_rounds_to(p, d, m),
{
    assert forall|o: nat| o != m implies {
        ||| distance(p, #[trigger] units(o) * d) > distance(p, units(m) * d)
        ||| distance(p, units(o) * d) == distance(p, units(m) * d) && m % 2 == 0
    } by {
        if o < low {
            lemma_units_increase(o, low);
            let a = units(o);
            let b = units(low);
            assert(a * d < b * d) by (nonlinear_arith)
                requires
                    a < b,
                    d > 0,
            ;
        } else if o > low + 1 {
            lemma_units_increase(low + 1, o);
            let a = units(low + 1);
            let b = units(o);
            assert(a * d < b * d) by (nonlinear_arith)
                requires
                    a < b,
                    d > 0,
            ;
        }
    }
}

/// `p / d` of the units lie between the two magnitudes that the quotient and
/// the next whole number encode.
proof fn lemma_nearest_bracket(p: nat, d: nat)
    requires
        d > 0,
    ensures
        ({
            let k = excess(p / d);
            let c = d * pow2(k);
            let low = k * FRACTIONS as nat + p / c;
            &&& c > 0
            &&& low % 2 == (p / c) % 2
            &&& 0 <= p % c < c
            &&& p == units(low) * d + p % c
            &&& units(low + 1) * d == p + (c - p % c)
        }),
{
    let f = FRACTIONS as nat;
    let w = p / d;
    let k = excess(w);
    let t = pow2(k);
    let c = d * t;
    lemma_pow2_pos(k);
    assert(c > 0) by (nonlinear_arith)
        requires
            d > 0,
            t > 0,
            c == d * t,
    ;
    let q = p / c;
    let r = p % c;
    lemma_fundamental_div_mod(p as int, c as int);
    lemma_fundamental_div_mod(p as int, d as int);
    lemma_excess(w);
    let v = p % d;
    assert(p == d * w + v && v < d);
    assert(p == c * q + r && r < c);
    assert(d * (w + 1) == d * w + d) by (nonlinear_arith);
    assert(d * (2 * f * t) == c * (2 * f)) by (nonlinear_arith)
        requires
            c == d * t,
    ;
    assert(d * (w + 1) <= d * (2 * f * t)) by (nonlinear_arith)
        requires
            w + 1 <= 2 * f * t,
            d > 0,
    ;
    assert(q < 2 * f) by (nonlinear_arith)
        requires
            c * q < c * (2 * f),
            c > 0,
    ;
    if k > 0 {
        assert(d * (f * t) == c * f) by (nonlinear_arith)
            requires
                c == d * t,
        ;
        assert(d * (f * t) <= d * w) by (nonlinear_arith)
            requires
                f * t <= w,
                d > 0,
        ;
        assert(c * (q + 1) == c * q + c) by (nonlinear_arith);
        assert(f < q + 1) by (nonlinear_arith)
            requires
                c * f < c * (q + 1),
                c > 0,
        ;
    }
    let low = k * f + q;
    assert(exponent(low) == k && significand(low) == q) by {
        if q < f {
            assert(k == 0);
        } else {
            assert(low / f == k + 1 && low % f == q - f);
        }
    }
    assert(units(low) == q * t);
    assert((q * t) * d == c * q) by (nonlinear_arith)
        requires
            c == d * t,
    ;
    lemma_units_step(low);
    assert((q * t + t) * d == c * q + c) by (nonlinear_arith)
        requires
            c == d * t,
    ;
}

/// `nearest_single` is correctly rounded: its magnitude is the nearest one,
/// and the even one of two that are as near.
pub proof fn lemma_nearest_single(p: nat, d: nat)
    requires
        d > 0,
    ensures
        scaled_rounds_to(p, d, nearest_single(p, d)),
{
    lemma_nearest_bracket(p, d);
    let k = excess(p / d);
    let c = d * pow2(k);
    let low = k * FRACTIONS as nat + p / c;
    let rounded = round_half_even(p, c);
    assert(rounded == p / c || rounded == p / c + 1);
    lemma_scaled_between(p, d, low, nearest_single(p, d));
}

/// A finite double-precision number becomes the nearest single-precision one.
pub proof fn lemma_narrow_nearest(bits: u64)
    requires
        double_magnitude(bits) < DOUBLE_INFINITY,
        nearest_single(double_units(double_magnitude(bits)), single_unit()) < INFINITY,
    ensures
        scaled_rounds_to(
            double_units(double_magnitude(bits)),
            single_unit(),
            crate::score::magnitude(narrow(bits)),
        ),
        bits < DOUBLE_SIGN <==> narrow(bits) < SIGN,
{
    lemma_pow2_pos(925);
    lemma_nearest_single(double_units(double_magnitude(bits)), single_unit());
}

// ---------------------------------------------------------------------------
// Computing it
// ---------------------------------------------------------------------------

/// A common factor makes no difference to rounding.
proof fn lemma_round_scaled(p: nat, d: nat, c: nat)
    requires
        d > 0,
        c > 0,
    ensures
        round_half_even(p * c, d * c) == round_half_even(p, d),
{
    let q = p / d;
    let r = p % d;
    lemma_fundamental_div_mod(p as int, d as int);
    assert(p * c == q * (d * c) + r * c) by (nonlinear_arith)
        requires
            p == d * q + r,
    ;
    assert(0 <= r * c < d * c) by (nonlinear_arith)
        requires
            0 <= r < d,
            c > 0,
    ;
    lemma_fundamental_div_mod_converse((p * c) as int, (d * c) as int, q as int, (r * c) as int);
    assert(2 * r > d ==> 2 * (r * c) > d * c) by (nonlinear_arith)
        requires
            c > 0,
    ;
    assert(2 * r < d ==> 2 * (r * c) < d * c) by (nonlinear_arith)
        requires
            c > 0,
    ;
    assert(2 * r == d ==> 2 * (r * c) == d * c) by (nonlinear_arith);
}

/// There is one number of bits that brings `p` to a significand's length.
proof fn lemma_excess_is(p: nat, k: nat)
    requires
        k > 0 ==> FRACTIONS * pow2(k) <= p,
        p < 2 * FRACTIONS * pow2(k),
    ensures
        excess(p) == k,
{
    let j = excess(p);
    lemma_excess(p);
    if j < k {
        lemma_pow2_unfold(k);
        if j + 1 < k {
            lemma_pow2_strictly_increases(j, (k - 1) as nat);
        }
        let a = pow2(j);
        let b = pow2((k - 1) as nat);
        assert(2 * FRACTIONS * a <= FRACTIONS * (2 * b)) by (nonlinear_arith)
            requires
                a <= b,
        ;
    } else if k < j {
        lemma_pow2_unfold(j);
        if k + 1 < j {
            lemma_pow2_strictly_increases(k, (j - 1) as nat);
        }
        let a = pow2(k);
        let b = pow2((j - 1) as nat);
        assert(2 * FRACTIONS * a <= FRACTIONS * (2 * b)) by (nonlinear_arith)
            requires
                a <= b,
        ;
    }
}

/// How many bits of the significand are cut off, and where the result's
/// exponent is.
proof fn lemma_cut(s: nat, e: nat)
    requires
        s < 2 * DOUBLE_FRACTIONS,
        e >= 896 ==> s >= DOUBLE_FRACTIONS,
    ensures
        e >= 896 ==> nearest_single(s * pow2(e), single_unit()) == (e - 896) * FRACTIONS
            + round_half_even(s, pow2(29)),
        e < 896 ==> nearest_single(s * pow2(e), single_unit()) == round_half_even(
            s,
            pow2((925 - e) as nat),
        ),
{
    let f = FRACTIONS as nat;
    let u = pow2(e);
    let d = single_unit();
    let p = s * u;
    let b = pow2(29);
    lemma2_to64();
    lemma2_to64_rest();
    lemma_pow2_pos(e);
    lemma_pow2_pos(925);
    assert(b == 0x2000_0000);
    assert(p < (2 * f * b) * u) by (nonlinear_arith)
        requires
            s < 2 * f * b,
            u > 0,
            p == s * u,
    ;
    if e >= 896 {
        let k = (e - 896) as nat;
        let t = pow2(k);
        lemma_pow2_adds(925, k);
        lemma_pow2_adds(29, e);
        assert(d * t == b * u);
        assert((f * b) * u <= p) by (nonlinear_arith)
            requires
                f * b <= s,
                u > 0,
                p == s * u,
        ;
        assert((f * t) * d <= p) by (nonlinear_arith)
            requires
                (f * b) * u <= p,
                d * t == b * u,
        ;
        assert(p < (2 * f * t) * d) by (nonlinear_arith)
            requires
                p < (2 * f * b) * u,
                d * t == b * u,
        ;
        let w = p / d;
        lemma_fundamental_div_mod(p as int, d as int);
        assert(w < 2 * f * t) by (nonlinear_arith)
            requires
                p < (2 * f * t) * d,
                d * w <= p,
                d > 0,
        ;
        assert(f * t <= w) by (nonlinear_arith)
            requires
                (f * t) * d <= p,
                p < d * w + d,
                d > 0,
        ;
        lemma_excess_is(w, k);
        lemma_round_scaled(s, b, u);
    } else {
        lemma_pow2_strictly_increases(29 + e, 925);
        lemma_pow2_adds(29, e);
        assert(p < (2 * f) * d) by (nonlinear_arith)
            requires
                p < (2 * f * b) * u,
                b * u <= d,
                f > 0,
        ;
        let w = p / d;
        lemma_fundamental_div_mod(p as int, d as int);
        assert(w < 2 * f) by (nonlinear_arith)
            requires
                p < (2 * f) * d,
                d * w <= p,
                d > 0,
        ;
        assert(excess(w) == 0);
        let c = pow2((925 - e) as nat);
        lemma_pow2_adds((925 - e) as nat, e);
        lemma_pow2_pos((925 - e) as nat);
        lemma_round_scaled(s, c, u);
        assert(d * pow2(0) == d);
    }
}

/// `s / d`, rounded to the nearest whole number, halves to the even one.
fn rounded(s: u64, d: u64) -> (r: u64)
    requires
        s < 2 * DOUBLE_FRACTIONS,
        d > 0,
    ensures
        r == round_half_even(s as nat, d as nat),
        r <= s + 1,
{
    let q: u64 = s / d;
    let rest: u64 = s % d;
    assert(q <= s) by (nonlinear_arith)
        requires
            q == s / d,
            d >= 1,
    ;
    assert(rest <= s) by (nonlinear_arith)
        requires
            rest == s % d,
            d >= 1,
    ;
    if 2 * rest > d || (2 * rest == d && q % 2 == 1) {
        q + 1
    } else {
        q
    }
}

/// The power of two, below the 64th.
fn power_of_two(n: u64) -> (r: u64)
    requires
        n < 64,
    ensures
        r == pow2(n as nat),
        r > 0,
{
    let mut r: u64 = 1;
    proof {
        lemma2_to64();
        lemma2_to64_rest();
    }
    for i in 0..n
        invariant
            n < 64,
            r == pow2(i as nat),
            r > 0,
    {
        proof {
            lemma_pow2_unfold((i + 1) as nat);
            lemma2_to64_rest();
            if i + 1 < 63 {
                lemma_pow2_strictly_increases((i + 1) as nat, 63);
            }
        }
        r = r * 2;
    }
    r
}

/// The magnitude of the single-precision number nearest to a finite
/// double-precision one, or of infinity.
fn narrow_magnitude(m: u64) -> (r: u32)
    requires
        m < DOUBLE_INFINITY,
    ensures
        ({
            let n = nearest_single(double_units(m as nat), single_unit());
            r == (if n < INFINITY {
                n
            } else {
                INFINITY as nat
            })
        }),
{
    let s: u64 = if m < DOUBLE_FRACTIONS {
        m
    } else {
        DOUBLE_FRACTIONS + m % DOUBLE_FRACTIONS
    };
    let e: u64 = if m < DOUBLE_FRACTIONS {
        0
    } else {
        m / DOUBLE_FRACTIONS - 1
    };
    proof {
        lemma_cut(s as nat, e as nat);
    }
    if e >= 896 {
        let d = power_of_two(29);
        let n: u64 = (e - 896) * FRACTIONS as u64 + rounded(s, d);
        if n < INFINITY as u64 {
            n as u32
        } else {
            INFINITY
        }
    } else if 925 - e >= 64 {
        proof {
            let c = pow2((925 - e) as nat);
            lemma2_to64_rest();
            if 925 - e > 64 {
                lemma_pow2_strictly_increases(64, (925 - e) as nat);
            }
            vstd::arithmetic::div_mod::lemma_basic_div(s as int, c as int);
            vstd::arithmetic::div_mod::lemma_small_mod(s as nat, c);
            assert(round_half_even(s as nat, c) == 0);
        }
        0
    } else {
        let d = power_of_two(925 - e);
        let n: u64 = rounded(s, d);
        proof {
            let c = pow2((925 - e) as nat);
            lemma2_to64();
            lemma2_to64_rest();
            lemma_pow2_strictly_increases(29, (925 - e) as nat);
            let q = s / d;
            assert(q <= 0x100_0000) by (nonlinear_arith)
                requires
                    q == s / d,
                    s < 0x20_0000_0000_0000,
                    d > 0x2000_0000,
            ;
        }
        n as u32
    }
}

/// The pattern of the single-precision number nearest to a double-precision
/// one.
pub fn narrowed(bits: u64) -> (r: u32)
    ensures
        r == narrow(bits),
{
    let m: u64 = if bits < DOUBLE_SIGN {
        bits
    } else {
        bits - DOUBLE_SIGN
    };
    let top: u32 = if m > DOUBLE_INFINITY {
        NOT_A_NUMBER
    } else if m == DOUBLE_INFINITY {
        INFINITY
    } else {
        narrow_magnitude(m)
    };
    if bits < DOUBLE_SIGN {
        top
    } else {
        top + SIGN
    }
}

/// What is no number becomes none, infinity becomes infinity, and so does a
/// number whose nearest would be out of bounds. The sign stays in any case.
pub proof fn lemma_narrow_bounds(bits: u64)
    ensures
        ({
            let m = double_magnitude(bits);
            let n = crate::score::magnitude(narrow(bits));
            &&& m > DOUBLE_INFINITY <==> n > INFINITY
            &&& m == DOUBLE_INFINITY ==> n == INFINITY
            &&& m < DOUBLE_INFINITY && nearest_single(double_units(m), single_unit()) >= INFINITY
                ==> n == INFINITY
            &&& bits < DOUBLE_SIGN <==> narrow(bits) < SIGN
        }),
{
}

} // verus!
