//! Single-precision numbers by their bit patterns, and the score by which
//! workers are ranked.
//!
//! A worker's VRAM is a single-precision number, kept here as the 32 bits that
//! encode it: a sign, eight bits of exponent, 23 bits of fraction. Without its
//! sign such a pattern is a magnitude, and magnitudes are ordered as the
//! numbers they encode.

use vstd::arithmetic::power2::{lemma2_to64, lemma_pow2_adds, lemma_pow2_pos, lemma_pow2_unfold, pow2};
use vstd::prelude::*;

verus! {

/// The first pattern with a sign, and the number of magnitudes.
pub const SIGN: u32 = 0x8000_0000;

/// The magnitude of infinity; what lies above it is not a number.
pub const INFINITY: u32 = 0x7f80_0000;

/// The pattern of one.
pub const ONE: u32 = 0x3f80_0000;

/// One more than the largest fraction.
pub const FRACTIONS: u32 = 0x80_0000;

/// The pattern without its sign.
pub open spec fn magnitude(bits: u32) -> nat {
    (if bits < SIGN {
        bits as int
    } else {
        bits - SIGN
    }) as nat
}

/// Whether the pattern encodes no number.
pub open spec fn is_nan(bits: u32) -> bool {
    magnitude(bits) > INFINITY
}

/// Where the encoded number stands among all others: the order of ranks is
/// the order of the numbers, and the two zeros have one rank.
pub open spec fn rank(bits: u32) -> int {
    if bits < SIGN {
        magnitude(bits) as int
    } else {
        -(magnitude(bits) as int)
    }
}

/// The significand that a magnitude encodes.
pub open spec fn significand(m: nat) -> nat {
    if m < FRACTIONS {
        m
    } else {
        FRACTIONS as nat + m % FRACTIONS as nat
    }
}

/// The exponent that a magnitude encodes, counted from the smallest one.
pub open spec fn exponent(m: nat) -> nat {
    if m < FRACTIONS {
        0
    } else {
        (m / FRACTIONS as nat - 1) as nat
    }
}

/// The number that a magnitude encodes, in units of the smallest positive
/// one. Magnitudes from infinity on are read as if the exponent had no bound.
pub open spec fn units(m: nat) -> nat {
    significand(m) * pow2(exponent(m))
}

/// `p / d`, rounded to the nearest whole number, halves to the even one.
pub open spec fn round_half_even(p: nat, d: nat) -> nat {
    let q = p / d;
    let r = p % d;
    if 2 * r > d || (2 * r == d && q % 2 == 1) {
        q + 1
    } else {
        q
    }
}

/// By how many bits `p` is too long for a significand.
pub open spec fn excess(p: nat) -> nat
    decreases p,
{
    if p < 2 * FRACTIONS {
        0
    } else {
        1 + excess(p / 2)
    }
}

/// The magnitude of a hundred times a number, with no bound on the exponent.
pub open spec fn hundredfold(m: nat) -> nat {
    let p = 100 * significand(m);
    let k = excess(p);
    (exponent(m) + k) * FRACTIONS as nat + round_half_even(p, pow2(k))
}

/// The pattern of a hundred times a number: rounded to the nearest, with
/// infinity where the exponent is out of bounds. What is not a number stays
/// as it is.
pub open spec fn times_hundred(bits: u32) -> u32 {
    let m = magnitude(bits);
    let h = hundredfold(m);
    let top = if m >= INFINITY {
        m
    } else if h < INFINITY {
        h
    } else {
        INFINITY as nat
    };
    (if bits < SIGN {
        top as int
    } else {
        top + SIGN
    }) as u32
}

/// How far apart two whole numbers are.
pub open spec fn distance(a: nat, b: nat) -> nat {
    (if a < b {
        b - a
    } else {
        a - b
    }) as nat
}

/// Whether `m` is the magnitude that `x` units round to: no other is as near,
/// or another is just as near and `m` is the even one.
pub open spec fn rounds_to(x: nat, m: nat) -> bool {
    forall|o: nat|
        o != m ==> {
            ||| distance(x, #[trigger] units(o)) > distance(x, units(m))
            ||| distance(x, units(o)) == distance(x, units(m)) && m % 2 == 0
        }
}

proof fn lemma_pow2_zero()
    ensures
        pow2(0) == 1,
{
    lemma2_to64();
}

/// Neighbouring magnitudes are one unit of the lower one's exponent apart.
pub proof fn lemma_units_step(m: nat)
    ensures
        units(m + 1) == units(m) + pow2(exponent(m)),
{
    let f = FRACTIONS as nat;
    lemma_pow2_pos(exponent(m));
    if m + 1 < f {
        lemma_pow2_zero();
        assert(units(m + 1) == (m + 1) * pow2(0));
        assert((m + 1) * pow2(0) == m * pow2(0) + pow2(0)) by (nonlinear_arith);
    } else if m + 1 == f {
        assert((f + 0) * pow2(0) == m * pow2(0) + pow2(0)) by (nonlinear_arith)
            requires
                m + 1 == f,
        ;
        assert(significand(m + 1) == f);
        assert(exponent(m + 1) == 0);
    } else {
        let e = exponent(m);
        if (m + 1) % f == 0 {
            assert(m % f == f - 1);
            assert((m + 1) / f == m / f + 1);
            assert(exponent(m + 1) == e + 1);
            lemma_pow2_unfold(e + 1);
            assert(f * (2 * pow2(e)) == (f + (f - 1)) * pow2(e) + pow2(e)) by (nonlinear_arith);
        } else {
            assert((m + 1) % f == m % f + 1);
            assert((m + 1) / f == m / f);
            let g = f + m % f;
            assert((g + 1) * pow2(e) == g * pow2(e) + pow2(e)) by (nonlinear_arith);
        }
    }
}

/// A larger magnitude encodes a larger number.
pub proof fn lemma_units_increase(a: nat, b: nat)
    requires
        a < b,
    ensures
        units(a) < units(b),
    decreases b - a,
{
    lemma_units_step((b - 1) as nat);
    lemma_pow2_pos(exponent((b - 1) as nat));
    if a < b - 1 {
        lemma_units_increase(a, (b - 1) as nat);
    }
}

/// A number too long for a significand by `k` bits has a significand's length
/// once these are cut off.
pub proof fn lemma_excess(p: nat)
    ensures
        excess(p) > 0 ==> FRACTIONS * pow2(excess(p)) <= p,
        p < 2 * FRACTIONS * pow2(excess(p)),
    decreases p,
{
    lemma_pow2_zero();
    if p >= 2 * FRACTIONS {
        let k = excess(p / 2);
        lemma_excess(p / 2);
        lemma_pow2_unfold(k + 1);
        if k > 0 {
            assert(FRACTIONS * (2 * pow2(k)) == 2 * (FRACTIONS * pow2(k))) by (nonlinear_arith);
        }
        assert(2 * FRACTIONS * (2 * pow2(k)) == 2 * (2 * FRACTIONS * pow2(k))) by (nonlinear_arith);
    }
}

/// Of the numbers with a magnitude, only the two round `x` can be nearest to it.
proof fn lemma_between(x: nat, low: nat, m: nat)
    requires
        units(low) <= x < units(low + 1),
        m == low || m == low + 1,
        m == low ==> distance(x, units(low)) < distance(x, units(low + 1)) || (distance(
            x,
            units(low),
        ) == distance(x, units(low + 1)) && low % 2 == 0),
        m == low + 1 ==> distance(x, units(low + 1)) < distance(x, units(low)) || (distance(
            x,
            units(low + 1),
        ) == distance(x, units(low)) && (low + 1) % 2 == 0),
    ensures
        rounds_to(x, m),
{
    assert forall|o: nat| o != m implies {
        ||| distance(x, #[trigger] units(o)) > distance(x, units(m))
        ||| distance(x, units(o)) == distance(x, units(m)) && m % 2 == 0
    } by {
        if o < low {
            lemma_units_increase(o, low);
        } else if o > low + 1 {
            lemma_units_increase(low + 1, o);
        }
    }
}

/// Where nothing has to be cut off, a hundredfold is exact.
proof fn lemma_hundredfold_exact(m: nat)
    requires
        excess(100 * significand(m)) == 0,
    ensures
        units(hundredfold(m)) == 100 * units(m),
{
    let f = FRACTIONS as nat;
    let p = 100 * significand(m);
    lemma_pow2_zero();
    assert(p < 2 * f);
    assert(m < f);
    assert(exponent(m) == 0);
    assert(p / 1 == p && p % 1 == 0);
    assert(hundredfold(m) == p);
    assert(units(m) == m);
    assert(exponent(p) == 0 && significand(p) == p) by {
        if p >= f {
            assert(p / f == 1 && p % f == p - f);
        }
    }
    assert(p * pow2(0) == p);
}

/// Where bits have to be cut off, a hundredfold lies between the two
/// magnitudes that the quotient and the next whole number encode.
proof fn lemma_hundredfold_bracket(m: nat)
    requires
        excess(100 * significand(m)) > 0,
    ensures
        ({
            let p = 100 * significand(m);
            let k = excess(p);
            let d = pow2(k);
            let u = pow2(exponent(m));
            let low = (exponent(m) + k) * FRACTIONS as nat + p / d;
            &&& u > 0
            &&& low % 2 == (p / d) % 2
            &&& 0 <= p % d < d
            &&& 100 * units(m) == units(low) + (p % d) * u
            &&& units(low + 1) == 100 * units(m) + (d - p % d) * u
        }),
{
    let f = FRACTIONS as nat;
    let s = significand(m);
    let e = exponent(m);
    let p = 100 * s;
    let k = excess(p);
    let x = 100 * units(m);
    let d = pow2(k);
    let u = pow2(e);
    let q = p / d;
    let r = p % d;
    lemma_pow2_pos(e);
    lemma_pow2_pos(k);
    lemma_excess(p);
    assert(x == p * u) by (nonlinear_arith)
        requires
            x == 100 * (s * u),
            p == 100 * s,
    ;
    assert(p == q * d + r && r < d) by {
        vstd::arithmetic::div_mod::lemma_fundamental_div_mod(p as int, d as int);
        assert(d * q == q * d) by (nonlinear_arith);
    }
    assert(f <= q) by (nonlinear_arith)
        requires
            f * d <= p,
            p == q * d + r,
            r < d,
            d > 0,
    ;
    assert(q < 2 * f) by (nonlinear_arith)
        requires
            p < 2 * f * d,
            p == q * d + r,
            d > 0,
    ;
    let low = (e + k) * f + q;
    assert(low / f == e + k + 1 && low % f == q - f);
    lemma_pow2_adds(e, k);
    lemma_units_step(low);
    let step = pow2(e + k);
    assert(units(low) == q * step);
    assert(x == q * step + r * u) by (nonlinear_arith)
        requires
            x == p * u,
            p == q * d + r,
            step == u * d,
    ;
    assert((d - r) * u == step - r * u) by (nonlinear_arith)
        requires
            step == u * d,
    ;
}

/// `hundredfold` is correctly rounded: its magnitude is the one nearest to a
/// hundred times the number, and the even one of two that are as near.
pub proof fn lemma_hundredfold_nearest(m: nat)
    ensures
        rounds_to(100 * units(m), hundredfold(m)),
{
    let p = 100 * significand(m);
    let k = excess(p);
    let x = 100 * units(m);
    let h = hundredfold(m);
    if k == 0 {
        lemma_hundredfold_exact(m);
        lemma_units_step(h);
        lemma_pow2_pos(exponent(h));
        lemma_between(x, h, h);
    } else {
        lemma_hundredfold_bracket(m);
        let d = pow2(k);
        let u = pow2(exponent(m));
        let r = p % d;
        let low = (exponent(m) + k) * FRACTIONS as nat + p / d;
        assert(r * u >= 0 && (d - r) * u > 0) by (nonlinear_arith)
            requires
                0 <= r < d,
                u > 0,
        ;
        assert(2 * r > d ==> (d - r) * u < r * u) by (nonlinear_arith)
            requires
                u > 0,
        ;
        assert(2 * r < d ==> (d - r) * u > r * u) by (nonlinear_arith)
            requires
                u > 0,
        ;
        assert(2 * r == d ==> (d - r) * u == r * u) by (nonlinear_arith);
        let rounded = round_half_even(p, d);
        assert(rounded == p / d || rounded == p / d + 1);
        assert(h == (exponent(m) + k) * FRACTIONS as nat + rounded);
        lemma_between(x, low, h);
    }
}

/// Rounding keeps the order.
proof fn lemma_rounding_monotone(x: nat, y: nat, m: nat, n: nat)
    requires
        x <= y,
        rounds_to(x, m),
        rounds_to(y, n),
    ensures
        m <= n,
{
    if m > n {
        lemma_units_increase(n, m);
        if m > n + 1 {
            lemma_units_increase(n, n + 1);
            lemma_units_increase(n + 1, m);
            assert(distance(x, units(n + 1)) >= distance(x, units(m)));
        }
        assert(distance(x, units(n)) >= distance(x, units(m)));
        assert(distance(y, units(m)) >= distance(y, units(n)));
    }
}

/// More of a thing is never scored below less of it.
pub proof fn lemma_hundredfold_monotone(a: nat, b: nat)
    requires
        a <= b,
    ensures
        hundredfold(a) <= hundredfold(b),
{
    if a < b {
        lemma_units_increase(a, b);
    }
    lemma_hundredfold_nearest(a);
    lemma_hundredfold_nearest(b);
    lemma_rounding_monotone(100 * units(a), 100 * units(b), hundredfold(a), hundredfold(b));
}

/// The magnitude of a hundred times a finite number, or of infinity.
fn hundredfold_of(m: u32) -> (r: u32)
    requires
        m < INFINITY,
    ensures
        r == (if hundredfold(m as nat) < INFINITY {
            hundredfold(m as nat)
        } else {
            INFINITY as nat
        }),
{
    let s: u64 = if m < FRACTIONS {
        m as u64
    } else {
        (FRACTIONS + m % FRACTIONS) as u64
    };
    let e: u64 = if m < FRACTIONS {
        0
    } else {
        (m / FRACTIONS - 1) as u64
    };
    let p: u64 = 100 * s;
    let mut q: u64 = p;
    let mut k: u64 = 0;
    let mut d: u64 = 1;
    proof {
        lemma_pow2_zero();
    }
    while q >= 2 * FRACTIONS as u64
        invariant
            k + excess(q as nat) == excess(p as nat),
            d == pow2(k as nat),
            q <= p,
            q * d <= p,
            p < 0x1_0000_0000,
        decreases q,
    {
        proof {
            lemma_pow2_unfold((k + 1) as nat);
        }
        assert((q / 2) * (2 * d) <= q * d) by (nonlinear_arith);
        assert(d <= 0x100) by (nonlinear_arith)
            requires
                q >= 0x100_0000,
                q * d < 0x1_0000_0000,
        ;
        assert(k < d) by {
            lemma_pow2_exceeds(k as nat);
        }
        q = q / 2;
        k = k + 1;
        d = d * 2;
    }
    proof {
        lemma_pow2_pos(k as nat);
        lemma_pow2_exceeds(k as nat);
        lemma_excess(p as nat);
        if k > 0 {
            assert(d < 0x1000) by (nonlinear_arith)
                requires
                    FRACTIONS * d <= p,
                    p < 0x1_0000_0000,
            ;
        }
    }
    let half: u64 = p / d;
    let rest: u64 = p % d;
    assert(half <= p) by (nonlinear_arith)
        requires
            half == p / d,
            d >= 1,
    ;
    let rounded: u64 = if 2 * rest > d || (2 * rest == d && half % 2 == 1) {
        half + 1
    } else {
        half
    };
    let h: u64 = (e + k) * FRACTIONS as u64 + rounded;
    if h < INFINITY as u64 {
        h as u32
    } else {
        INFINITY
    }
}

proof fn lemma_pow2_exceeds(k: nat)
    ensures
        k < pow2(k),
    decreases k,
{
    if k == 0 {
        lemma_pow2_zero();
    } else {
        lemma_pow2_exceeds((k - 1) as nat);
        lemma_pow2_unfold(k);
    }
}

/// The pattern of a hundred times a number.
pub fn times_hundred_of(bits: u32) -> (r: u32)
    ensures
        r == times_hundred(bits),
{
    let m: u32 = if bits < SIGN {
        bits
    } else {
        bits - SIGN
    };
    let top: u32 = if m >= INFINITY {
        m
    } else {
        hundredfold_of(m)
    };
    if bits < SIGN {
        top
    } else {
        top + SIGN
    }
}

/// Whether the pattern encodes no number.
pub fn nan(bits: u32) -> (r: bool)
    ensures
        r == is_nan(bits),
{
    (bits < SIGN && bits > INFINITY) || (bits >= SIGN && bits - SIGN > INFINITY)
}

/// The score of a worker: a hundred times its VRAM with a GPU, else one.
pub open spec fn score(has_gpu: bool, vram_gb: u32) -> int {
    if has_gpu {
        rank(times_hundred(vram_gb))
    } else {
        rank(ONE)
    }
}

/// Whether the score is a number, so that it can be compared with others.
pub open spec fn has_score(has_gpu: bool, vram_gb: u32) -> bool {
    !has_gpu || !is_nan(vram_gb)
}

/// The score of a worker.
pub fn score_of(has_gpu: bool, vram_gb: u32) -> (r: i64)
    ensures
        r == score(has_gpu, vram_gb),
{
    let bits: u32 = if has_gpu {
        times_hundred_of(vram_gb)
    } else {
        ONE
    };
    if bits < SIGN {
        bits as i64
    } else {
        -((bits - SIGN) as i64)
    }
}

/// Of two workers with a GPU, the one with more VRAM never has the lower
/// score.
pub proof fn lemma_score_monotone(a: u32, b: u32)
    requires
        !is_nan(a),
        !is_nan(b),
        rank(a) <= rank(b),
    ensures
        score(true, a) <= score(true, b),
{
    let m = magnitude(a);
    let n = magnitude(b);
    assert(hundredfold(0) == 0) by {
        lemma_pow2_zero();
    }
    if m <= n {
        lemma_hundredfold_monotone(m, n);
    } else {
        lemma_hundredfold_monotone(n, m);
    }
}

/// A hundred times a finite number keeps its sign and is the nearest number
/// there is, or infinity where that is out of bounds; infinity stays what it
/// is.
pub proof fn lemma_times_hundred(bits: u32)
    requires
        !is_nan(bits),
    ensures
        bits < SIGN <==> times_hundred(bits) < SIGN,
        magnitude(bits) == INFINITY ==> times_hundred(bits) == bits,
        magnitude(bits) < INFINITY ==> exists|m: nat|
            #[trigger] rounds_to(100 * units(magnitude(bits)), m) && magnitude(times_hundred(bits))
                == (if m < INFINITY {
                m
            } else {
                INFINITY as nat
            }),
{
    lemma_hundredfold_nearest(magnitude(bits));
}

/// Without a GPU the VRAM does not count: the score is that of a hundredth of
/// a gigabyte with one, which is one.
pub proof fn lemma_score_without_gpu(a: u32, b: u32)
    ensures
        score(false, a) == score(false, b),
        score(false, a) == 0x3f80_0000,
{
}

} // verus!
