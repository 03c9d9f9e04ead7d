//! Arithmetic as binary64 does it: each result is rounded to 53 significant
//! bits. Values are integers, in units small enough for every result.

use crate::number::{is_not_negative, lemma_log2, log2, power_of_two, round_even};
use vstd::arithmetic::div_mod::{lemma_div_denominator, lemma_fundamental_div_mod, lemma_fundamental_div_mod_converse};
use vstd::arithmetic::power2::*;
use vstd::prelude::*;

verus! {

pub open spec fn absolute(x: int) -> int {
    if x < 0 {
        -x
    } else {
        x
    }
}

/// Two to the power of 52, the least significand of full length.
pub const FULL: u64 = 0x10_0000_0000_0000;

/// How far values of `m`'s size are apart.
pub open spec fn step(m: int) -> int {
    if m < 2 * FULL {
        1
    } else {
        pow2((log2(m as nat) - 52) as nat) as int
    }
}

/// The value nearest to `n / d`, ties to the even significand.
pub open spec fn nearest(n: int, d: int) -> int {
    let u = step(n / d);
    round_even(n, d * u) * u
}

/// A significand and the power of two that scales it.
#[derive(Debug, Clone, Copy, PartialEq, Eq, Structural)]
pub struct Scaled {
    pub significand: u64,
    pub exponent: u32,
}

impl Scaled {
    pub open spec fn value(self) -> int {
        self.significand * pow2(self.exponent as nat)
    }

    /// No longer than 53 bits, and full where it is scaled.
    pub open spec fn normal(self) -> bool {
        &&& self.significand <= 2 * FULL
        &&& self.exponent > 0 ==> self.significand >= FULL
        &&& self.exponent <= 4000
    }
}

/// What lies between two powers of two has the lower one's logarithm.
proof fn lemma_log2_is(m: nat, k: nat)
    requires
        pow2(k) <= m < 2 * pow2(k),
    ensures
        log2(m) == k,
{
    lemma_pow2_pos(k);
    lemma_log2(m);
    if log2(m) < k {
        lemma_pow2_unfold(log2(m) + 1);
        if log2(m) + 1 < k {
            lemma_pow2_strictly_increases(log2(m) + 1, k);
        }
    } else if k < log2(m) {
        lemma_pow2_unfold(k + 1);
        if k + 1 < log2(m) {
            lemma_pow2_strictly_increases(k + 1, log2(m));
        }
    }
}

/// The step of a full significand is what scales it.
proof fn lemma_step(m: int, k: nat)
    requires
        FULL * pow2(k) <= m < 2 * FULL * pow2(k),
    ensures
        step(m) == pow2(k),
{
    lemma2_to64();
    lemma2_to64_rest();
    lemma_pow2_pos(k);
    assert(FULL * pow2(k) == 0x10_0000_0000_0000 * pow2(k) && 2 * FULL * pow2(k) == 0x20_0000_0000_0000 * pow2(k)) by (nonlinear_arith);
    if k > 0 {
        lemma_pow2_adds(52, k);
        lemma_log2_is(m as nat, 52 + k);
        lemma_pow2_unfold(k);
        lemma_pow2_pos((k - 1) as nat);
    }
}

/// Scaling both sides of a fraction does not change how it is rounded.
proof fn lemma_round_scaled(n: int, d: int, k: int)
    requires
        d > 0,
        k > 0,
    ensures
        round_even(n * k, d * k) == round_even(n, d),
        (n * k) / (d * k) == n / d,
{
    let (q, r) = (n / d, n % d);
    lemma_fundamental_div_mod(n, d);
    assert(n * k == q * (d * k) + r * k) by (nonlinear_arith)
        requires
            n == d * q + r,
    ;
    assert(0 <= r * k < d * k) by (nonlinear_arith)
        requires
            0 <= r < d,
            k > 0,
    ;
    lemma_fundamental_div_mod_converse(n * k, d * k, q, r * k);
    assert((2 * (r * k) > d * k <==> 2 * r > d) && (2 * (r * k) == d * k <==> 2 * r == d)) by (nonlinear_arith)
        requires
            k > 0,
    ;
}

/// A fraction is rounded the same in any terms.
pub proof fn lemma_nearest_reduced(n: int, d: int, k: int)
    requires
        n >= 0,
        d > 0,
        k > 0,
    ensures
        nearest(n * k, d * k) == nearest(n, d),
{
    lemma_round_scaled(n, d, k);
    let u = step(n / d);
    lemma_step_positive(n / d);
    assert(d * k * u == d * u * k) by (nonlinear_arith);
    assert(d * u > 0) by (nonlinear_arith)
        requires
            d > 0,
            u > 0,
    ;
    lemma_round_scaled(n, d * u, k);
}

proof fn lemma_step_positive(m: int)
    ensures
        step(m) > 0,
{
    if m >= 2 * FULL {
        lemma_pow2_pos((log2(m as nat) - 52) as nat);
    }
}

/// Rounding keeps what is a multiple of its step.
proof fn lemma_nearest_exact(m: int, q: int)
    requires
        m == q * step(m),
    ensures
        nearest(m, 1) == m,
{
    let u = step(m);
    lemma_step_positive(m);
    assert(m == q * u + 0);
    lemma_fundamental_div_mod_converse(m, u, q, 0);
}

/// Rounding commutes with scaling by a power of two.
pub proof fn lemma_nearest_scaled(c: int, y: nat)
    requires
        c >= 0,
    ensures
        nearest(c * pow2(y), 1) == nearest(c, 1) * pow2(y),
{
    let p = pow2(y) as int;
    let m = c * p;
    lemma_pow2_pos(y);
    assert(m >= c) by (nonlinear_arith)
        requires
            m == c * p,
            p >= 1,
            c >= 0,
    ;
    if c == 0 {
        lemma_nearest_exact(0, 0);
        assert(m == 0);
    } else {
        lemma2_to64();
        lemma2_to64_rest();
        let e = log2(c as nat);
        lemma_log2(c as nat);
        lemma_pow2_adds(e, y);
        assert(pow2(e) * p <= m && m < 2 * (pow2(e) * p)) by (nonlinear_arith)
            requires
                m == c * p,
                pow2(e) <= c < 2 * pow2(e),
                p >= 1,
        ;
        lemma_log2_is(m as nat, e + y);
        if c < 2 * FULL {
            lemma_nearest_exact(c, c);
            if e > 52 {
                if e > 53 {
                    lemma_pow2_strictly_increases(53, e);
                }
            }
            if m < 2 * FULL {
                lemma_nearest_exact(m, m);
            } else {
                if e + y < 53 {
                    lemma_pow2_unfold(e + y + 1);
                    if e + y + 1 < 53 {
                        lemma_pow2_strictly_increases(e + y + 1, 53);
                    }
                }
                let z = (e + y - 52) as nat;
                let w = (52 - e) as nat;
                lemma_pow2_adds(w, z);
                assert(m == (c * pow2(w)) * pow2(z)) by (nonlinear_arith)
                    requires
                        m == c * p,
                        p == pow2(w) * pow2(z),
                ;
                lemma_nearest_exact(m, c * pow2(w));
            }
        } else {
            let u = step(c);
            lemma_step_positive(c);
            if e < 53 {
                lemma_pow2_unfold(e + 1);
                if e + 1 < 53 {
                    lemma_pow2_strictly_increases(e + 1, 53);
                }
            }
            lemma_pow2_adds((e - 52) as nat, y);
            assert(step(m) == u * p);
            lemma_round_scaled(c, u, p);
            let q = round_even(c, u);
            assert(q * (u * p) == q * u * p) by (nonlinear_arith);
        }
    }
}

/// A value closer than half a step to a multiple of it is rounded to that.
proof fn lemma_nearest_close(m: int, k: nat, q: int)
    requires
        FULL * pow2(k) <= m < 2 * FULL * pow2(k),
        2 * (m - q * pow2(k)) < pow2(k),
        2 * (q * pow2(k) - m) < pow2(k),
    ensures
        nearest(m, 1) == q * pow2(k),
{
    let u = pow2(k) as int;
    lemma_step(m, k);
    if m >= q * u {
        lemma_fundamental_div_mod_converse(m, u, q, m - q * u);
    } else {
        assert((q - 1) * u == q * u - u) by (nonlinear_arith);
        lemma_fundamental_div_mod_converse(m, u, q - 1, m - (q - 1) * u);
    }
}

/// A full significand is not moved by what is far below it.
proof fn lemma_absorbed(a: Scaled, b: int)
    requires
        a.normal(),
        a.exponent >= 2,
        0 <= b,
        4 * b < pow2(a.exponent as nat),
    ensures
        nearest(a.value() + b, 1) == a.value(),
        nearest(a.value() - b, 1) == a.value(),
        a.value() >= b,
{
    let (s, x) = (a.significand as int, a.exponent as nat);
    let p = pow2(x) as int;
    lemma_pow2_unfold(x);
    lemma_pow2_unfold(x + 1);
    let h = pow2((x - 1) as nat) as int;
    assert(p == 2 * h && pow2(x + 1) == 2 * p);
    lemma_pow2_pos((x - 1) as nat);
    assert(FULL * p <= s * p <= 2 * FULL * p) by (nonlinear_arith)
        requires
            FULL <= s <= 2 * FULL,
            p > 0,
    ;
    assert(FULL * (2 * p) == 2 * FULL * p && 2 * FULL * h == FULL * p && FULL * h * 2 == FULL * p) by (nonlinear_arith)
        requires
            p == 2 * h,
    ;
    if s == 2 * FULL {
        assert(s * p == FULL * (2 * p)) by (nonlinear_arith)
            requires
                s == 2 * FULL,
        ;
        lemma_nearest_close(s * p + b, x + 1, FULL as int);
    } else {
        assert(s * p + p <= 2 * FULL * p) by (nonlinear_arith)
            requires
                s + 1 <= 2 * FULL,
                p > 0,
        ;
        lemma_nearest_close(s * p + b, x, s);
    }
    if b == 0 {
    } else if s == FULL {
        lemma_nearest_close(s * p - b, (x - 1) as nat, 2 * FULL as int);
    } else {
        assert(FULL * p + p <= s * p) by (nonlinear_arith)
            requires
                FULL + 1 <= s,
                p > 0,
        ;
        lemma_nearest_close(s * p - b, x, s);
    }
}

/// Round a fraction.
pub fn round_fraction(n: u128, d: u128) -> (r: Scaled)
    requires
        1 <= d <= 0x1_0000_0000_0000_0000,
        n < 0x100_0000_0000_0000_0000_0000_0000_0000,
    ensures
        r.value() == nearest(n as int, d as int),
        r.normal(),
        r.exponent <= 68,
        n >= 2 * FULL * d ==> r.exponent > 0,
{
    let m: u128 = n / d;
    let mut u: u128 = 1;
    let mut k: u32 = 0;
    proof {
        lemma2_to64();
        lemma2_to64_rest();
        assert(m <= n) by (nonlinear_arith)
            requires
                m == n as int / d as int,
                d >= 1,
                n >= 0,
        ;
    }
    while m >= 0x20_0000_0000_0000 * u
        invariant
            u == pow2(k as nat),
            1 <= u,
            m < 0x100_0000_0000_0000_0000_0000_0000_0000,
            k > 0 ==> 0x10_0000_0000_0000 * u <= m,
            u <= 0x10_0000_0000_0000_0000,
            k <= 68,
        decreases m - u,
    {
        proof {
            lemma_pow2_unfold((k + 1) as nat);
            if k == 68 {
                lemma2_to64();
                lemma_pow2_adds(64, 4);
            }
        }
        u = 2 * u;
        k = k + 1;
    }
    let ghost (n0, d0, m0, u0) = (n as int, d as int, m as int, u as int);
    proof {
        assert(FULL * u0 == 0x10_0000_0000_0000 * u0 && 2 * FULL * u0 == 0x20_0000_0000_0000 * u0) by (nonlinear_arith);
        if k == 0 {
            assert(n0 < 2 * FULL * d0) by (nonlinear_arith)
                requires
                    n0 / d0 < 2 * FULL,
                    d0 >= 1,
            ;
        }
        if k > 0 {
            lemma_step(m0, k as nat);
            lemma_fundamental_div_mod(n0, d0);
            assert(0 < d0 * u0 <= n0) by (nonlinear_arith)
                requires
                    FULL * u0 <= m0,
                    d0 * m0 <= n0,
                    d0 >= 1,
                    u0 >= 1,
            ;
        } else {
            assert(step(m0) == 1);
            assert(d0 * u0 == d0);
        }
        lemma_div_denominator(n0, d0, u0);
    }
    let w: u128 = d * u;
    let q: u128 = n / w;
    let r: u128 = n % w;
    proof {
        assert(q == m0 / u0);
        assert(q < 2 * FULL && (k > 0 ==> q >= FULL)) by (nonlinear_arith)
            requires
                q == m0 / u0,
                m0 < 2 * FULL * u0,
                k > 0 ==> FULL * u0 <= m0,
                0 <= m0,
                u0 >= 1,
        ;
    }
    let s: u128 = if r > w - r || (r == w - r && q % 2 == 1) { q + 1 } else { q };
    Scaled { significand: s as u64, exponent: k }
}

/// Add, or subtract the lesser from the greater, and round.
pub fn combine(a: Scaled, b: Scaled, subtract: bool) -> (r: Scaled)
    requires
        a.normal(),
        b.normal(),
    ensures
        r.value() == nearest(
            if subtract {
                absolute(a.value() - b.value())
            } else {
                a.value() + b.value()
            },
            1,
        ),
        r.significand <= 2 * FULL,
        r.exponent <= 4068,
{
    let (h, l): (Scaled, Scaled) = if a.exponent >= b.exponent { (a, b) } else { (b, a) };
    let apart: u32 = h.exponent - l.exponent;
    let ghost (y, z) = (l.exponent as nat, apart as nat);
    let ghost p = pow2(y) as int;
    proof {
        lemma_pow2_pos(y);
        lemma_pow2_pos(z);
        lemma_pow2_adds(y, z);
    }
    if apart > 62 {
        proof {
            lemma2_to64();
            lemma2_to64_rest();
            if apart > 63 {
                lemma_pow2_strictly_increases(63, z);
            }
            assert(4 * (l.significand * p) < p * pow2(z)) by (nonlinear_arith)
                requires
                    4 * l.significand < pow2(z),
                    p > 0,
            ;
            assert(l.value() >= 0) by (nonlinear_arith)
                requires
                    l.value() == l.significand * p,
                    p > 0,
            ;
            lemma_absorbed(h, l.value());
        }
        return h;
    }
    let e: u128 = power_of_two(apart);
    proof {
        lemma2_to64();
        lemma2_to64_rest();
        if apart < 62 {
            lemma_pow2_strictly_increases(z, 62);
        }
        assert(0 <= h.significand * e <= 0x20_0000_0000_0000 * 0x4000_0000_0000_0000) by (nonlinear_arith)
            requires
                0 <= h.significand <= 0x20_0000_0000_0000,
                0 <= e <= 0x4000_0000_0000_0000,
        ;
    }
    let high: u128 = h.significand as u128 * e;
    let low: u128 = l.significand as u128;
    let c: u128 = if !subtract {
        high + low
    } else if high < low {
        low - high
    } else {
        high - low
    };
    let r: Scaled = round_fraction(c, 1);
    proof {
        assert(h.value() == high * p) by (nonlinear_arith)
            requires
                h.value() == h.significand * (p * e),
                high == h.significand * e,
        ;
        assert((high + low) * p == high * p + low * p && (low - high) * p == low * p - high * p && (high - low) * p == high * p
            - low * p) by (nonlinear_arith);
        assert(high < low <==> high * p < low * p) by (nonlinear_arith)
            requires
                p > 0,
        ;
        lemma_nearest_scaled(c as int, y);
        lemma_pow2_adds(r.exponent as nat, y);
        assert(r.significand * pow2(r.exponent as nat) * p == r.significand * (pow2(r.exponent as nat) * p)) by (nonlinear_arith);
    }
    Scaled { significand: r.significand, exponent: r.exponent + l.exponent }
}

/// Whether a value is at most another.
pub fn is_at_most(a: Scaled, b: Scaled) -> (r: bool)
    ensures
        r == (a.value() <= b.value()),
{
    let low: i128 = a.significand as i128;
    proof {
        assert((-low) * pow2(a.exponent as nat) == -(low * pow2(a.exponent as nat))) by (nonlinear_arith);
    }
    is_not_negative((b.significand as i128, b.exponent), (-low, a.exponent))
}

/// The bits after the point of a [`quotient`].
pub const POINT: u32 = 84;

/// `a / b`, rounded, in units of two to the power of -84.
pub open spec fn quotient(a: int, b: int) -> int {
    nearest(a * pow2(POINT as nat), b)
}

pub fn divide(a: u32, b: u32) -> (r: Scaled)
    requires
        b >= 1,
    ensures
        r.value() == quotient(a as int, b as int),
        r.normal(),
{
    let one: u128 = power_of_two(POINT);
    proof {
        lemma2_to64();
        lemma_pow2_adds(64, 20);
        assert(0 <= a * one < 0x100_0000_0000_0000_0000_0000_0000_0000) by (nonlinear_arith)
            requires
                0 <= a <= 0xffff_ffff,
                one == 0x10_0000_0000_0000_0000_0000,
        ;
    }
    round_fraction(a as u128 * one, b as u128)
}

/// What is rounded is not negative where the fraction is not, and 0 where it
/// is.
pub proof fn lemma_nearest_positive(n: int, d: int)
    requires
        n >= 0,
        d > 0,
    ensures
        nearest(n, d) >= 0,
        nearest(0, d) == 0,
        n >= d ==> nearest(n, d) > 0,
{
    let u = step(n / d);
    lemma_step_positive(n / d);
    assert(d * u > 0) by (nonlinear_arith)
        requires
            d > 0,
            u > 0,
    ;
    lemma_fundamental_div_mod(n, d * u);
    assert(n / (d * u) >= 0) by (nonlinear_arith)
        requires
            n >= 0,
            d * u > 0,
    ;
    assert(round_even(n, d * u) * u >= 0) by (nonlinear_arith)
        requires
            round_even(n, d * u) >= 0,
            u > 0,
    ;
    lemma_fundamental_div_mod_converse(0, d * 1, 0, 0);
    lemma_fundamental_div_mod_converse(0, d, 0, 0);
    if n >= d {
        let m = n / d;
        assert(m >= 1) by (nonlinear_arith)
            requires
                m == n / d,
                n >= d,
                d > 0,
        ;
        if m >= 2 * FULL {
            let e = log2(m as nat);
            lemma2_to64();
            lemma2_to64_rest();
            lemma_log2(m as nat);
            if e < 52 {
                lemma_pow2_strictly_increases(e, 52);
            }
            lemma_pow2_adds(52, (e - 52) as nat);
        }
        lemma_div_denominator(n, d, u);
        assert(m / u >= 1) by (nonlinear_arith)
            requires
                m >= u,
                u > 0,
        ;
        assert(round_even(n, d * u) * u > 0) by (nonlinear_arith)
            requires
                round_even(n, d * u) >= 1,
                u > 0,
        ;
    }
}

/// What is rounded moves by at most one part in two to the power of 53, or by
/// half a unit, and an integer by no such half.
pub proof fn law_rounding_is_close(n: int, d: int)
    requires
        n >= 0,
        d > 0,
    ensures
        0x20_0000_0000_0000 * absolute(nearest(n, d) * d - n) <= n + 0x10_0000_0000_0000 * d,
        d == 1 ==> 0x20_0000_0000_0000 * absolute(nearest(n, d) - n) <= n,
{
    let m = n / d;
    let u = step(m);
    lemma_step_positive(m);
    let w = d * u;
    assert(w > 0) by (nonlinear_arith)
        requires
            d > 0,
            u > 0,
            w == d * u,
    ;
    lemma_fundamental_div_mod(n, w);
    let (q, r) = (n / w, n % w);
    let k = round_even(n, w);
    assert(k * u * d == w * k) by (nonlinear_arith)
        requires
            w == d * u,
    ;
    assert(w * (q + 1) == w * q + w) by (nonlinear_arith);
    assert(2 * absolute(w * k - n) <= w);
    assert(m >= 0) by (nonlinear_arith)
        requires
            m == n / d,
            n >= 0,
            d > 0,
    ;
    if m < 2 * FULL {
        assert(w == d);
        if d == 1 {
            assert(r == 0);
        }
    } else {
        let e = log2(m as nat);
        lemma2_to64();
        lemma2_to64_rest();
        lemma_log2(m as nat);
        if e < 52 {
            lemma_pow2_strictly_increases(e, 52);
        }
        lemma_pow2_adds(52, (e - 52) as nat);
        assert(0x10_0000_0000_0000 * u <= m);
        lemma_fundamental_div_mod(n, d);
        assert(0x10_0000_0000_0000 * w <= n) by (nonlinear_arith)
            requires
                0x10_0000_0000_0000 * u <= m,
                d * m <= n,
                w == d * u,
                d > 0,
        ;
    }
}

} // verus!
