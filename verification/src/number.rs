//! Camera values: binary64 numbers carried by their bit patterns.
//!
//! Control values and frame metadata are fractional. The library never
//! computes with them in floating point: it stores them, compares them with
//! zero or with each other, makes them from integers and rounds them to
//! integers, all of which are exact functions of the bits.

use vstd::arithmetic::power2::*;
use vstd::prelude::*;

verus! {

/// One bit past the magnitude bits: the weight of the sign bit.
pub const SIGN: u64 = 0x8000_0000_0000_0000;

/// The weight of the lowest exponent bit, and of the implicit leading
/// significand bit: two to the power of 52.
pub const UNIT: u64 = 0x10_0000_0000_0000;

/// The magnitude bits of infinity; anything above them is not a number.
pub const INFINITE: u64 = 0x7ff0_0000_0000_0000;

/// A binary64 value, as its bit pattern.
#[derive(Debug, Clone, Copy, PartialEq, Eq, Structural)]
pub struct Number {
    pub bits: u64,
}

/// `n / d` to the nearest integer, ties to the even one.
pub open spec fn round_even(n: int, d: int) -> int {
    let q = n / d;
    let r = n % d;
    if 2 * r > d || (2 * r == d && q % 2 == 1) {
        q + 1
    } else {
        q
    }
}

/// The largest `k` with two to the power of `k` at most `m`; 0 for 0.
pub open spec fn log2(m: nat) -> nat
    decreases m,
{
    if m < 2 {
        0
    } else {
        1 + log2(m / 2)
    }
}

/// The bits of the binary64 value nearest to `m`, ties to the even
/// significand. The exponent field is counted one low, and the rounded
/// significand's leading bit (which can carry into it) makes up for that.
pub open spec fn nearest_bits(m: nat) -> int {
    if m == 0 {
        0
    } else {
        (1022 + log2(m)) * UNIT + round_even(m * UNIT, pow2(log2(m)) as int)
    }
}

/// `lo` or `hi` where `x` lies outside them.
pub open spec fn clamped(x: int, lo: int, hi: int) -> int {
    if x < lo {
        lo
    } else if x > hi {
        hi
    } else {
        x
    }
}

impl Number {
    pub open spec fn negative(self) -> bool {
        self.bits >= SIGN
    }

    /// The bits below the sign.
    pub open spec fn magnitude(self) -> int {
        self.bits as int % SIGN as int
    }

    pub open spec fn not_a_number(self) -> bool {
        self.magnitude() > INFINITE
    }

    pub open spec fn exponent(self) -> int {
        self.magnitude() / UNIT as int
    }

    /// The value is `significand * 2^scale`, with the sign, unless infinite
    /// or not a number.
    pub open spec fn significand(self) -> int {
        if self.exponent() == 0 {
            self.magnitude() % UNIT as int
        } else {
            self.magnitude() % UNIT as int + UNIT
        }
    }

    pub open spec fn scale(self) -> int {
        if self.exponent() == 0 {
            -1074
        } else {
            self.exponent() - 1075
        }
    }

    /// The absolute value to the nearest integer, ties away from zero.
    pub open spec fn rounded_magnitude(self) -> int {
        if self.scale() >= 0 {
            self.significand() * pow2(self.scale() as nat)
        } else {
            (2 * self.significand() + pow2((-self.scale()) as nat)) / (2 * pow2((-self.scale()) as nat) as int)
        }
    }

    /// The value to the nearest integer, ties away from zero, kept within 64
    /// bits; 0 when it is not a number.
    pub open spec fn rounded(self) -> int {
        if self.not_a_number() {
            0
        } else if self.magnitude() == INFINITE {
            if self.negative() {
                i64::MIN as int
            } else {
                i64::MAX as int
            }
        } else if self.negative() {
            clamped(-self.rounded_magnitude(), i64::MIN as int, i64::MAX as int)
        } else {
            clamped(self.rounded_magnitude(), i64::MIN as int, i64::MAX as int)
        }
    }

    /// The absolute value without its fraction.
    pub open spec fn whole_magnitude(self) -> int {
        if self.scale() >= 0 {
            self.significand() * pow2(self.scale() as nat)
        } else {
            self.significand() / pow2((-self.scale()) as nat) as int
        }
    }

    /// The value without its fraction, kept within 32 bits; 0 where it is
    /// negative or not a number.
    pub open spec fn whole(self) -> int {
        if self.not_a_number() || self.negative() {
            0
        } else if self.magnitude() == INFINITE {
            u32::MAX as int
        } else {
            clamped(self.whole_magnitude(), 0, u32::MAX as int)
        }
    }

    /// The value without its fraction, kept within 32 bits and signed; 0
    /// where it is not a number.
    pub open spec fn integer(self) -> int {
        if self.not_a_number() {
            0
        } else if self.magnitude() == INFINITE {
            if self.negative() {
                i32::MIN as int
            } else {
                i32::MAX as int
            }
        } else if self.negative() {
            clamped(-self.whole_magnitude(), i32::MIN as int, i32::MAX as int)
        } else {
            clamped(self.whole_magnitude(), i32::MIN as int, i32::MAX as int)
        }
    }

    /// Where the value stands among all values, as an integer that grows with
    /// it. Both zeros stand at 0.
    pub open spec fn rank(self) -> int {
        if self.negative() {
            -self.magnitude()
        } else {
            self.magnitude()
        }
    }

    /// `a < b`: never with something that is not a number.
    pub open spec fn below(self, other: Number) -> bool {
        !self.not_a_number() && !other.not_a_number() && self.rank() < other.rank()
    }

    /// `a == b`: zeros are alike, and nothing equals what is not a number.
    pub open spec fn alike(self, other: Number) -> bool {
        !self.not_a_number() && !other.not_a_number() && self.rank() == other.rank()
    }

    /// The number nearest to an integer.
    pub open spec fn of(x: int) -> Number {
        if x < 0 {
            Number { bits: (SIGN + nearest_bits((-x) as nat)) as u64 }
        } else {
            Number { bits: nearest_bits(x as nat) as u64 }
        }
    }

    /// The same bits.
    pub fn from_bits(bits: u64) -> (n: Number)
        ensures
            n.bits == bits,
    {
        Number { bits }
    }

    /// The bits without the sign.
    fn unsigned_bits(self) -> (m: u64)
        ensures
            m == self.magnitude(),
    {
        if self.bits >= SIGN {
            self.bits - SIGN
        } else {
            self.bits
        }
    }

    /// The significand, and the power of two that scales it, counted from
    /// that of the smallest number.
    pub fn parts(self) -> (p: (u64, u32))
        ensures
            p.0 == self.significand(),
            p.0 <= 0x1f_ffff_ffff_ffff,
            p.1 == self.scale() + 1074,
            p.1 <= 2046,
    {
        let m: u64 = self.unsigned_bits();
        let e: u64 = m / UNIT;
        let f: u64 = m % UNIT;
        if e == 0 {
            (f, 0)
        } else {
            (f + UNIT, (e - 1) as u32)
        }
    }

    /// Whether this is zero, of either sign.
    pub fn is_zero(self) -> (zero: bool)
        ensures
            zero == self.alike(Number { bits: 0 }),
            zero == (self.magnitude() == 0),
    {
        self.unsigned_bits() == 0
    }

    fn order(self) -> (rank: i128)
        ensures
            rank == self.rank(),
    {
        let m: i128 = self.unsigned_bits() as i128;
        if self.bits >= SIGN {
            -m
        } else {
            m
        }
    }

    /// `self < other`.
    pub fn is_below(self, other: Number) -> (less: bool)
        ensures
            less == self.below(other),
    {
        self.unsigned_bits() <= INFINITE && other.unsigned_bits() <= INFINITE && self.order() < other.order()
    }

    /// `self == other`.
    pub fn is_same(self, other: Number) -> (same: bool)
        ensures
            same == self.alike(other),
    {
        self.unsigned_bits() <= INFINITE && other.unsigned_bits() <= INFINITE && self.order() == other.order()
    }

    /// The number nearest to `x`, exact up to 2^53 either way.
    pub fn from_i64(x: i64) -> (n: Number)
        ensures
            n == Number::of(x as int),
    {
        let m: u64 = if x < 0 { (-(x as i128)) as u64 } else { x as u64 };
        if m == 0 {
            return Number { bits: 0 };
        }
        let mut k: u32 = 0;
        let mut h: u64 = m;
        proof {
            lemma2_to64();
        }
        while h >= 2
            invariant
                1 <= h,
                h * pow2(k as nat) <= m <= 0x8000_0000_0000_0000,
                k < 64,
                log2(m as nat) == k + log2(h as nat),
            decreases h,
        {
            proof {
                lemma_halved(h as int, k as nat, m as int);
            }
            h = h / 2;
            k = k + 1;
        }
        proof {
            lemma_log2(m as nat);
        }
        let p: u128 = power_of_two(k);
        assert(0 <= m * UNIT <= 0x8000_0000_0000_0000 * 0x10_0000_0000_0000) by (nonlinear_arith)
            requires
                0 <= m <= 0x8000_0000_0000_0000,
        ;
        let wide: u128 = m as u128 * UNIT as u128;
        let q: u128 = wide / p;
        let r: u128 = wide % p;
        proof {
            lemma_significand(m as int, p as int);
        }
        let s: u64 = if 2 * r > p || (2 * r == p && q % 2 == 1) { (q + 1) as u64 } else { q as u64 };
        let bits: u64 = (1022 + k) as u64 * UNIT + s;
        if x < 0 {
            Number { bits: SIGN + bits }
        } else {
            Number { bits }
        }
    }

    /// The value without its fraction.
    pub fn truncate(self) -> (r: u32)
        ensures
            r == self.whole(),
    {
        let m: u64 = self.unsigned_bits();
        if m > INFINITE || self.bits >= SIGN {
            return 0;
        }
        let e: u64 = m / UNIT;
        let f: u64 = m % UNIT;
        let s: u64 = if e == 0 { f } else { f + UNIT };
        if e >= 1075 {
            proof {
                if m < INFINITE {
                    let p = pow2((e - 1075) as nat) as int;
                    lemma_pow2_pos((e - 1075) as nat);
                    assert(s * p >= s) by (nonlinear_arith)
                        requires
                            p >= 1,
                            s >= 0,
                    ;
                }
            }
            return u32::MAX;
        }
        let d: u32 = if e == 0 { 1074 } else { (1075 - e) as u32 };
        assert(d == -self.scale());
        if d >= 74 {
            proof {
                lemma2_to64();
                lemma_pow2_strictly_increases(64, d as nat);
                vstd::arithmetic::div_mod::lemma_basic_div(s as int, pow2(d as nat) as int);
            }
            return 0;
        }
        let p: u128 = power_of_two(d);
        proof {
            lemma_pow2_small(p, d as nat, 74);
        }
        let whole: u128 = s as u128 / p;
        if whole > 0xffff_ffff {
            u32::MAX
        } else {
            whole as u32
        }
    }

    /// The value without its fraction, signed.
    pub fn to_integer(self) -> (r: i32)
        ensures
            r == self.integer(),
    {
        let m: u64 = self.unsigned_bits();
        let size: Number = Number { bits: m };
        let whole: u32 = size.truncate();
        proof {
            assert(size.magnitude() == self.magnitude());
            assert(0 <= self.whole_magnitude()) by {
                if !self.not_a_number() {
                    lemma_whole_positive(self);
                }
            }
        }
        if m > INFINITE {
            0
        } else if self.bits >= SIGN {
            if whole >= 0x8000_0000 {
                i32::MIN
            } else {
                -(whole as i32)
            }
        } else if whole > 0x7fff_ffff {
            i32::MAX
        } else {
            whole as i32
        }
    }

    /// The value rounded to the nearest integer.
    pub fn round(self) -> (r: i64)
        ensures
            r == self.rounded(),
    {
        let m: u64 = self.unsigned_bits();
        if m > INFINITE {
            return 0;
        }
        let (s, x) = self.parts();
        let ghost exact = self.rounded_magnitude();
        let big: u128;
        if x >= 1085 {
            proof {
                if m < INFINITE {
                    lemma_large(self);
                }
            }
            big = 0x8000_0000_0000_0000;
        } else if x >= 1074 {
            let p: u128 = power_of_two(x - 1074);
            proof {
                lemma_pow2_small(p, (x - 1074) as nat, 10);
                assert(s * p <= 0x1f_ffff_ffff_ffff * 1024) by (nonlinear_arith)
                    requires
                        0 <= s <= 0x1f_ffff_ffff_ffff,
                        0 <= p <= 1024,
                ;
            }
            big = s as u128 * p;
            assert(big == exact);
        } else {
            let d: u32 = 1074 - x;
            if d >= 75 {
                proof {
                    lemma_tiny(s as int, d as nat);
                }
                big = 0;
            } else {
                let p: u128 = power_of_two(d);
                proof {
                    lemma_pow2_small(p, d as nat, 74);
                }
                big = (2 * s as u128 + p) / (2 * p);
            }
            assert(big == exact);
        }
        if self.bits >= SIGN {
            if big >= 0x8000_0000_0000_0000 {
                i64::MIN
            } else {
                -(big as i64)
            }
        } else if big > 0x7fff_ffff_ffff_ffff {
            i64::MAX
        } else {
            big as i64
        }
    }
}

proof fn lemma_whole_positive(x: Number)
    ensures
        0 <= x.whole_magnitude(),
{
    let s = x.significand();
    assert(s >= 0);
    if x.scale() >= 0 {
        let p = pow2(x.scale() as nat) as int;
        assert(0 <= s * p) by (nonlinear_arith)
            requires
                0 <= s,
                0 <= p,
        ;
    } else {
        let p = pow2((-x.scale()) as nat) as int;
        lemma_pow2_pos((-x.scale()) as nat);
        vstd::arithmetic::div_mod::lemma_div_pos_is_pos(s, p);
    }
}

/// Two to the power of `n`.
pub(crate) fn power_of_two(n: u32) -> (p: u128)
    requires
        n <= 120,
    ensures
        p == pow2(n as nat),
{
    let mut p: u128 = 1;
    let mut i: u32 = 0;
    proof {
        lemma2_to64();
    }
    while i < n
        invariant
            i <= n <= 120,
            p == pow2(i as nat),
        decreases n - i,
    {
        proof {
            lemma_pow2_unfold((i + 1) as nat);
            lemma_pow2_small(p, i as nat, 120);
        }
        p = 2 * p;
        i = i + 1;
    }
    p
}

proof fn lemma_pow2_small(p: u128, n: nat, top: nat)
    requires
        p == pow2(n),
        n <= top,
    ensures
        1 <= p <= pow2(top),
        pow2(10) == 1024,
        pow2(74) == 0x400_0000_0000_0000_0000,
        pow2(120) == 0x100_0000_0000_0000_0000_0000_0000_0000,
{
    lemma2_to64();
    lemma_pow2_pos(n);
    if n < top {
        lemma_pow2_strictly_increases(n, top);
    }
    lemma_pow2_adds(64, 10);
    lemma2_to64_rest();
    lemma_pow2_adds(64, 56);
}

/// Halving `h` once more keeps it, scaled by a power of two, at most `m`.
proof fn lemma_halved(h: int, k: nat, m: int)
    requires
        h >= 2,
        h * pow2(k) <= m <= 0x8000_0000_0000_0000,
        k < 64,
    ensures
        (h / 2) * pow2(k + 1) <= m,
        k + 1 < 64,
{
    lemma_pow2_unfold(k + 1);
    lemma2_to64();
    let p = pow2(k) as int;
    assert((h / 2) * (2 * p) <= h * p) by (nonlinear_arith)
        requires
            p >= 0,
            h >= 2,
    ;
    if k >= 63 {
        assert(h * p >= 2 * 0x8000_0000_0000_0000) by (nonlinear_arith)
            requires
                h >= 2,
                p >= 0x8000_0000_0000_0000,
        ;
    }
}

/// `log2` brackets its argument between two powers of two.
pub proof fn lemma_log2(m: nat)
    requires
        m >= 1,
    ensures
        pow2(log2(m)) <= m < 2 * pow2(log2(m)),
    decreases m,
{
    if m < 2 {
        lemma2_to64();
    } else {
        lemma_log2(m / 2);
        lemma_pow2_unfold(log2(m));
    }
}

/// A significand scaled to 53 bits.
proof fn lemma_significand(m: int, p: int)
    requires
        1 <= p <= m < 2 * p,
    ensures
        UNIT <= m * UNIT / p < 2 * UNIT,
{
    assert(UNIT <= m * UNIT / p < 2 * UNIT) by (nonlinear_arith)
        requires
            1 <= p <= m < 2 * p,
    ;
}

/// From an exponent field of 1086 up, a value reaches two to the power of 63.
proof fn lemma_large(x: Number)
    requires
        x.exponent() >= 1086,
    ensures
        x.rounded_magnitude() >= 0x8000_0000_0000_0000,
{
    let t = x.scale() as nat;
    lemma2_to64();
    if 11 < t {
        lemma_pow2_strictly_increases(11, t);
    }
    let s = x.significand();
    let p = pow2(t) as int;
    assert(s * p >= 0x10_0000_0000_0000 * 2048) by (nonlinear_arith)
        requires
            s >= 0x10_0000_0000_0000,
            p >= 2048,
    ;
}

/// A value below half of one in 2^d rounds to nothing.
proof fn lemma_tiny(n: int, d: nat)
    requires
        0 <= n <= 0x1f_ffff_ffff_ffff,
        d >= 75,
    ensures
        (2 * n + pow2(d)) / (2 * pow2(d) as int) == 0,
{
    lemma2_to64();
    lemma_pow2_adds(64, 10);
    lemma_pow2_strictly_increases(74, d);
    let p = pow2(d) as int;
    assert(2 * n < p);
    assert((2 * n + p) / (2 * p) == 0) by (nonlinear_arith)
        requires
            0 <= 2 * n < p,
    ;
}

impl Number {
    /// The absolute value of a finite number, in units of the smallest one
    /// there is.
    pub open spec fn units(self) -> int {
        self.significand() * pow2((self.scale() + 1074) as nat)
    }

    /// The value of a finite number, in the same units.
    pub open spec fn value(self) -> int {
        if self.negative() {
            -self.units()
        } else {
            self.units()
        }
    }
}

/// One, in units of the smallest number there is.
pub open spec fn unity() -> int {
    pow2(1074) as int
}

impl Number {
    /// How often the number goes into `n`, in whole times.
    pub open spec fn times_in(self, n: int) -> int {
        n * unity() / self.units()
    }

    /// A number above one goes into `n` at most `n` times.
    pub proof fn lemma_times_in(self, n: int)
        requires
            Number::of(1).below(self),
            0 <= n,
        ensures
            0 <= self.times_in(n) <= n,
    {
        lemma2_to64();
        lemma2_to64_rest();
        assert(Number::of(1).bits == 0x3ff0_0000_0000_0000);
        let (s, x, u) = (self.significand(), (self.scale() + 1074) as nat, unity());
        lemma_pow2_adds(52, 1022);
        lemma_pow2_pos(1074);
        if x > 1022 {
            lemma_pow2_strictly_increases(1022, x);
        }
        let p = pow2(x) as int;
        assert(u <= s * p) by (nonlinear_arith)
            requires
                u == UNIT * pow2(1022),
                s >= UNIT,
                p >= pow2(1022),
        ;
        assert(0 <= n * u / (s * p) <= n) by (nonlinear_arith)
            requires
                0 <= n,
                0 < u <= s * p,
        ;
    }

    /// How often a number above one goes into `n`.
    pub fn fits_into(self, n: u32) -> (k: u32)
        requires
            Number::of(1).below(self),
        ensures
            k == self.times_in(n as int),
            k <= n,
    {
        proof {
            lemma2_to64();
            assert(Number::of(1).bits == 0x3ff0_0000_0000_0000);
        }
        let (s, x) = self.parts();
        if x >= 1074 {
            proof {
                lemma_goes_in(n as int, s as int, 0, (x - 1074) as nat, 1074);
                lemma_pow2_pos((x - 1074) as nat);
                let p = pow2((x - 1074) as nat) as int;
                assert(n < s * p) by (nonlinear_arith)
                    requires
                        n < s,
                        p >= 1,
                        s >= 0,
                ;
                vstd::arithmetic::div_mod::lemma_basic_div(n as int, s * p);
            }
            return 0;
        }
        let p: u128 = power_of_two(1074 - x);
        proof {
            lemma_goes_in(n as int, s as int, (1074 - x) as nat, 0, x as nat);
            lemma2_to64_rest();
            if x > 1022 {
                lemma_pow2_strictly_increases((1074 - x) as nat, 52);
            }
            assert(0 <= n * p <= 0xffff_ffff * 0x10_0000_0000_0000) by (nonlinear_arith)
                requires
                    0 <= n <= 0xffff_ffff,
                    0 <= p <= 0x10_0000_0000_0000,
            ;
            assert(n * p <= n * s) by (nonlinear_arith)
                requires
                    p <= s,
                    n >= 0,
            ;
            assert(n * p / s as int <= n) by (nonlinear_arith)
                requires
                    0 <= n * p <= n * s,
                    s >= 1,
            ;
        }
        (n as u128 * p / s as u128) as u32
    }
}

/// Powers of two that both sides of a division share can be left out.
proof fn lemma_goes_in(n: int, s: int, a: nat, b: nat, shared: nat)
    requires
        n >= 0,
        s >= 1,
    ensures
        (n * pow2(a + shared)) / (s * pow2(b + shared)) == (n * pow2(a)) / (s * pow2(b)),
{
    let (p, q, c) = (pow2(a) as int, pow2(b) as int, pow2(shared) as int);
    lemma_pow2_adds(a, shared);
    lemma_pow2_adds(b, shared);
    lemma_pow2_pos(b);
    lemma_pow2_pos(shared);
    assert(n * (p * c) == c * (n * p) && s * (q * c) == c * (s * q)) by (nonlinear_arith);
    assert(s * q > 0) by (nonlinear_arith)
        requires
            s >= 1,
            q >= 1,
    ;
    vstd::arithmetic::div_mod::lemma_div_denominator(c * (n * p), c, s * q);
    vstd::arithmetic::div_mod::lemma_div_multiples_vanish(n * p, c);
}

/// A sum of what 2^e1 counts and of multiples of a higher power is negative
/// exactly where it is in whole multiples of that power.
proof fn lemma_carry(c: int, e1: nat, h: int, e2: nat)
    requires
        e1 <= e2,
    ensures
        c * pow2(e1) + h * pow2(e2) >= 0 <==> c / pow2((e2 - e1) as nat) as int + h >= 0,
{
    let (u, p) = (pow2(e1) as int, pow2((e2 - e1) as nat) as int);
    lemma_pow2_adds(e1, (e2 - e1) as nat);
    lemma_pow2_pos(e1);
    lemma_pow2_pos((e2 - e1) as nat);
    let (q, r) = (c / p, c % p);
    vstd::arithmetic::div_mod::lemma_fundamental_div_mod(c, p);
    assert(c * u + h * (u * p) == (q + h) * (p * u) + r * u) by (nonlinear_arith)
        requires
            c == p * q + r,
    ;
    assert(0 <= r * u < p * u) by (nonlinear_arith)
        requires
            0 <= r < p,
            u > 0,
    ;
    if q + h >= 0 {
        assert((q + h) * (p * u) >= 0) by (nonlinear_arith)
            requires
                q + h >= 0,
                p * u >= 0,
        ;
    } else {
        assert((q + h) * (p * u) <= -(p * u)) by (nonlinear_arith)
            requires
                q + h <= -1,
                p * u >= 0,
        ;
    }
}

/// `c` over two to the power of `k`, rounded down.
fn shifted(c: i128, k: u32) -> (q: i128)
    requires
        -0x80_0000_0000_0000_0000_0000_0000_0000 <= c <= 0x80_0000_0000_0000_0000_0000_0000_0000,
    ensures
        q == c as int / pow2(k as nat) as int,
        c >= 0 ==> 0 <= q <= c,
        c < 0 ==> c <= q < 0,
{
    proof {
        lemma_pow2_pos(k as nat);
        if k > 120 {
            lemma2_to64();
            lemma2_to64_rest();
            lemma_pow2_adds(64, 56);
            lemma_pow2_strictly_increases(120, k as nat);
        }
    }
    let ghost p = pow2(k as nat) as int;
    if k > 120 {
        let q: i128 = if c < 0 { -1 } else { 0 };
        assert(c as int / p == q) by (nonlinear_arith)
            requires
                c >= 0 ==> q == 0 && c < p,
                c < 0 ==> q == -1 && -c <= p,
        ;
        return q;
    }
    let d: u128 = power_of_two(k);
    proof {
        lemma_pow2_small(d, k as nat, 120);
    }
    if c >= 0 {
        let q: u128 = c as u128 / d;
        assert(q <= c) by (nonlinear_arith)
            requires
                q == c as int / d as int,
                d >= 1,
                c >= 0,
        ;
        q as i128
    } else {
        let n: u128 = (-c) as u128;
        let q: u128 = (n + (d - 1)) / d;
        assert(-q == c as int / d as int && 1 <= q <= n) by (nonlinear_arith)
            requires
                q == (n + d - 1) / d as int,
                n == -c,
                n >= 1,
                d >= 1,
        ;
        -(q as i128)
    }
}

/// Whether a sum of two integers, each times a power of two, is not negative.
/// Nothing is rounded: the lower term only carries into the higher.
pub fn is_not_negative(a: (i128, u32), b: (i128, u32)) -> (r: bool)
    requires
        -0x20_0000_0000_0000_0000_0000_0000_0000 <= a.0 <= 0x20_0000_0000_0000_0000_0000_0000_0000,
        -0x20_0000_0000_0000_0000_0000_0000_0000 <= b.0 <= 0x20_0000_0000_0000_0000_0000_0000_0000,
    ensures
        r == (a.0 * pow2(a.1 as nat) + b.0 * pow2(b.1 as nat) >= 0),
{
    let (x, y): ((i128, u32), (i128, u32)) = if a.1 <= b.1 { (a, b) } else { (b, a) };
    proof {
        lemma_carry(x.0 as int, x.1 as nat, y.0 as int, y.1 as nat);
    }
    y.0 + shifted(x.0, y.1 - x.1) >= 0
}

/// Ranks order the numbers as their values do: of two that are not negative,
/// the one with the higher rank is the larger.
pub proof fn law_rank_orders_values(a: Number, b: Number)
    requires
        !a.negative(),
        !b.negative(),
        a.magnitude() < INFINITE,
        b.magnitude() < INFINITE,
    ensures
        a.rank() < b.rank() <==> a.units() < b.units(),
{
    if a.rank() < b.rank() {
        lemma_rank(a, b);
    } else if b.rank() < a.rank() {
        lemma_rank(b, a);
    }
}

proof fn lemma_rank(a: Number, b: Number)
    requires
        !a.negative(),
        !b.negative(),
        a.magnitude() < b.magnitude() < INFINITE,
    ensures
        a.units() < b.units(),
{
    let x = (a.scale() + 1074) as nat;
    let y = (b.scale() + 1074) as nat;
    let (p, q) = (pow2(x) as int, pow2(y) as int);
    let (s, t) = (a.significand(), b.significand());
    lemma_pow2_pos(x);
    if x == y {
        assert(s * p < t * p) by (nonlinear_arith)
            requires
                s < t,
                p > 0,
        ;
    } else {
        if x + 1 < y {
            lemma_pow2_strictly_increases(x + 1, y);
        }
        lemma_pow2_unfold(x + 1);
        assert(s * p < t * q) by (nonlinear_arith)
            requires
                0 <= s < 2 * UNIT,
                UNIT <= t,
                0 < p,
                2 * p <= q,
        ;
    }
}

/// Integers of up to 53 bits are carried exactly: rounding gives them back.
pub proof fn law_integers_survive(x: int)
    requires
        -0x20_0000_0000_0000 <= x <= 0x20_0000_0000_0000,
    ensures
        Number::of(x).rounded() == x,
{
    let m = (if x < 0 { -x } else { x }) as nat;
    if m == 0 {
        lemma2_to64();
        assert(Number::of(0).bits == 0);
        lemma_tiny(0, 1074);
    } else {
        let k = log2(m);
        let p = pow2(k) as int;
        lemma_log2(m);
        lemma2_to64();
        lemma2_to64_rest();
        if k > 53 {
            lemma_pow2_strictly_increases(53, k);
        }
        lemma_significand(m as int, p);
        let n = Number::of(x);
        if k == 53 {
            assert(m == 0x20_0000_0000_0000);
            assert(m * UNIT / p == UNIT && m * UNIT % p == 0) by (nonlinear_arith)
                requires
                    m == 0x20_0000_0000_0000,
                    p == 0x20_0000_0000_0000,
            ;
            assert(n.significand() == UNIT);
            assert(n.scale() == 1);
            assert(pow2(n.scale() as nat) == 2);
            assert(n.rounded_magnitude() == UNIT * 2);
        } else {
            let t = (52 - k) as nat;
            let r = pow2(t) as int;
            lemma_pow2_adds(k, t);
            lemma_pow2_pos(t);
            assert(m * UNIT == (m * r) * p) by (nonlinear_arith)
                requires
                    p * r == UNIT,
            ;
            assert((m * r) * p / p == m * r && (m * r) * p % p == 0) by (nonlinear_arith)
                requires
                    p > 0,
            ;
            assert(n.significand() == m * r);
            assert(n.scale() == k - 52);
            if k < 52 {
                assert((2 * (m * r) + r) / (2 * r) == m) by (nonlinear_arith)
                    requires
                        r >= 1,
                        m >= 0,
                ;
                assert((-n.scale()) as nat == t);
            } else {
                assert(m * r == m) by (nonlinear_arith)
                    requires
                        r == 1,
                ;
            }
            assert(n.rounded_magnitude() == m);
        }
    }
}

/// Without its fraction a number is less than one below what it was, and to
/// the nearest integer it is at most a half away.
pub proof fn law_integers_are_near(n: Number)
    requires
        n.magnitude() < INFINITE,
    ensures
        n.whole_magnitude() * unity() <= n.units() < (n.whole_magnitude() + 1) * unity(),
        2 * n.rounded_magnitude() * unity() - unity() <= 2 * n.units() <= 2 * n.rounded_magnitude() * unity() + unity(),
{
    let s = n.significand();
    lemma_pow2_pos(1074);
    let u = unity();
    assert(s >= 0);
    if n.scale() >= 0 {
        let k = n.scale() as nat;
        lemma_pow2_adds(k, 1074);
        assert(s * pow2(k + 1074) == s * pow2(k) * u) by (nonlinear_arith)
            requires
                pow2(k + 1074) == pow2(k) * u,
        ;
        let w = n.whole_magnitude();
        assert((w + 1) * u == w * u + u && 2 * w * u == 2 * (w * u)) by (nonlinear_arith);
    } else {
        let d = (-n.scale()) as nat;
        let e = (1074 - d) as nat;
        lemma_pow2_adds(d, e);
        lemma_pow2_pos(d);
        lemma_pow2_pos(e);
        let (p, q) = (pow2(d) as int, pow2(e) as int);
        let w = s / p;
        let r = (2 * s + p) / (2 * p);
        vstd::arithmetic::div_mod::lemma_fundamental_div_mod(s, p);
        vstd::arithmetic::div_mod::lemma_fundamental_div_mod(2 * s + p, 2 * p);
        assert(w * u <= s * q < (w + 1) * u) by (nonlinear_arith)
            requires
                u == p * q,
                p * w <= s < p * w + p,
                q >= 1,
        ;
        assert(2 * r * u - u <= 2 * (s * q) <= 2 * r * u + u) by (nonlinear_arith)
            requires
                u == p * q,
                (2 * p) * r <= 2 * s + p < (2 * p) * r + 2 * p,
                q >= 1,
        ;
    }
}

} // verus!
