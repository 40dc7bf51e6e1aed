//! Single-precision numbers by their bits.
//!
//! A rig reports its RF power as an IEEE 754 single-precision number. Such a
//! number is held here as its 32 bits, and the arithmetic on it is integer
//! arithmetic: a finite number is a sign and a magnitude, and a magnitude is a
//! natural number of units of 2^-149, the smallest positive number of the
//! format.
use vstd::arithmetic::power2::{
    lemma2_to64, lemma_pow2_adds, lemma_pow2_pos, lemma_pow2_strictly_increases, lemma_pow2_unfold,
    pow2,
};
use vstd::prelude::*;

verus! {

/// Bits of 2^23: one unit of the exponent field.
pub const EXPONENT_UNIT: u32 = 0x0080_0000;

/// Bits of the sign.
pub const SIGN_BIT: u32 = 0x8000_0000;

/// Bits of positive infinity.
pub const INFINITY_BITS: u32 = 0x7f80_0000;

/// Bits of the quiet not-a-number.
pub const QUIET_NAN_BITS: u32 = 0x7fc0_0000;

/// Bits of 1.0.
pub const ONE_BITS: u32 = 0x3f80_0000;

/// Bits of 200.0.
pub const TWO_HUNDRED_BITS: u32 = 0x4348_0000;

/// An IEEE 754 single-precision number. Equality is equality of the bits.
#[derive(Debug, Clone, Copy, PartialEq, Eq, Structural)]
pub struct Binary32 {
    pub bits: u32,
}

/// The magnitude, in units of 2^-149, of the finite number with these bits
/// (without the sign).
pub open spec fn magnitude(bits: int) -> nat
    recommends
        0 <= bits < INFINITY_BITS,
{
    let exponent = bits / 0x80_0000;
    let fraction = bits % 0x80_0000;
    if exponent <= 0 {
        fraction as nat
    } else {
        ((0x80_0000 + fraction) * pow2((exponent - 1) as nat)) as nat
    }
}

/// 1.0 in units of 2^-149.
pub open spec fn one() -> nat {
    pow2(149)
}

impl Binary32 {
    pub open spec fn is_negative(&self) -> bool {
        self.bits >= SIGN_BIT
    }

    /// The bits without the sign.
    pub open spec fn abs_bits(&self) -> u32 {
        if self.is_negative() {
            (self.bits - SIGN_BIT) as u32
        } else {
            self.bits
        }
    }

    pub open spec fn spec_is_finite(&self) -> bool {
        self.abs_bits() < INFINITY_BITS
    }

    pub open spec fn spec_is_nan(&self) -> bool {
        self.abs_bits() > INFINITY_BITS
    }

    /// The value of a finite number, in units of 2^-149.
    pub open spec fn value(&self) -> int {
        if self.is_negative() {
            -(magnitude(self.abs_bits() as int) as int)
        } else {
            magnitude(self.abs_bits() as int) as int
        }
    }

    pub fn from_bits(bits: u32) -> (x: Self)
        ensures
            x.bits == bits,
    {
        Binary32 { bits }
    }

    pub fn to_bits(self) -> (bits: u32)
        ensures
            bits == self.bits,
    {
        self.bits
    }

    fn magnitude_bits(self) -> (bits: u32)
        ensures
            bits == self.abs_bits(),
            bits < SIGN_BIT,
    {
        if self.bits >= SIGN_BIT {
            self.bits - SIGN_BIT
        } else {
            self.bits
        }
    }

    /// Neither infinite nor not-a-number.
    pub fn is_finite(self) -> (yes: bool)
        ensures
            yes == self.spec_is_finite(),
    {
        self.magnitude_bits() < INFINITY_BITS
    }

    /// Finite and larger than zero.
    pub fn is_positive_finite(self) -> (yes: bool)
        ensures
            yes == (self.spec_is_finite() && self.value() > 0),
    {
        proof {
            lemma_magnitude_zero(self.abs_bits() as int);
        }
        self.bits < INFINITY_BITS && self.bits > 0
    }

    /// The nearest number in the range from 0.0 to 1.0.
    pub fn clamp_unit(self) -> (c: Self)
        requires
            self.spec_is_finite(),
        ensures
            c.spec_is_finite(),
            self.value() < 0 ==> c.bits == 0,
            self.value() > one() ==> c.bits == ONE_BITS,
            0 <= self.value() <= one() ==> c == self,
    {
        proof {
            lemma_magnitude_zero(self.abs_bits() as int);
            lemma_magnitude_one(self.abs_bits() as int);
        }
        if self.bits > SIGN_BIT {
            Binary32 { bits: 0 }
        } else if self.bits < SIGN_BIT && self.bits > ONE_BITS {
            Binary32 { bits: ONE_BITS }
        } else {
            proof {
                lemma_pow2_pos(149);
            }
            self
        }
    }
}

/// Only the zero bits denote zero.
proof fn lemma_magnitude_zero(bits: int)
    requires
        0 <= bits < SIGN_BIT,
    ensures
        magnitude(bits) == 0 <==> bits == 0,
{
    let exponent = bits / 0x80_0000;
    let fraction = bits % 0x80_0000;
    if exponent > 0 {
        let p = pow2((exponent - 1) as nat);
        lemma_pow2_pos((exponent - 1) as nat);
        assert((0x80_0000 + fraction) * p > 0) by (nonlinear_arith)
            requires
                fraction >= 0,
                p > 0,
        ;
    }
}

/// Larger bits denote a larger magnitude.
pub proof fn magnitude_is_increasing(a: int, b: int)
    requires
        0 <= a < b < SIGN_BIT,
    ensures
        magnitude(a) < magnitude(b),
{
    let (ea, fa) = (a / 0x80_0000, a % 0x80_0000);
    let (eb, fb) = (b / 0x80_0000, b % 0x80_0000);
    assert(ea <= eb);
    lemma2_to64();
    if eb > 0 {
        let q = pow2((eb - 1) as nat);
        lemma_pow2_pos((eb - 1) as nat);
        if ea == eb {
            assert((0x80_0000 + fa) * q < (0x80_0000 + fb) * q) by (nonlinear_arith)
                requires
                    fa < fb,
                    q > 0,
            ;
        } else if ea <= 0 {
            assert((0x80_0000 + fb) * q >= 0x80_0000) by (nonlinear_arith)
                requires
                    fb >= 0,
                    q >= 1,
            ;
        } else {
            let p = pow2((ea - 1) as nat);
            lemma_pow2_pos((ea - 1) as nat);
            lemma_pow2_unfold(ea as nat);
            if ea < eb - 1 {
                lemma_pow2_strictly_increases(ea as nat, (eb - 1) as nat);
            }
            assert((0x80_0000 + fa) * p < (0x80_0000 + fb) * q) by (nonlinear_arith)
                requires
                    0 <= fa < 0x80_0000,
                    0 <= fb,
                    p > 0,
                    q >= 2 * p,
            ;
        }
    }
}

/// The bits of 1.0 denote one.
proof fn lemma_magnitude_one(bits: int)
    requires
        0 <= bits < SIGN_BIT,
    ensures
        magnitude(ONE_BITS as int) == one(),
        magnitude(bits) > one() <==> bits > ONE_BITS,
{
    lemma2_to64();
    lemma_pow2_adds(23, 126);
    assert(magnitude(ONE_BITS as int) == 0x80_0000 * pow2(126));
    if bits > ONE_BITS {
        magnitude_is_increasing(ONE_BITS as int, bits);
    } else if bits < ONE_BITS {
        magnitude_is_increasing(bits, ONE_BITS as int);
    }
}

/// The number of binary digits of a number; 0 for 0.
pub open spec fn bit_len(n: nat) -> nat
    decreases n,
{
    if n == 0 {
        0
    } else {
        1 + bit_len(n / 2)
    }
}

/// `n / 2^d`, rounded to the nearest whole number, ties to the even one.
pub open spec fn half_even(n: nat, d: nat) -> nat {
    let q = n / pow2(d);
    let r = n % pow2(d);
    if 2 * r > pow2(d) || (2 * r == pow2(d) && q % 2 == 1) {
        q + 1
    } else {
        q
    }
}

/// How many binary digits the number nearest to `x * 2^-298` is short of units
/// of 2^-149: 24 digits are kept.
pub open spec fn dropped_digits(x: nat) -> nat {
    if bit_len(x) > 173 {
        (bit_len(x) - 173) as nat
    } else {
        0
    }
}

/// The bits of the number nearest to `x * 2^-298`: the exact value cut to 24
/// binary digits or to whole units of 2^-149, rounded to nearest, ties to even;
/// infinity where that is too large for the format.
pub open spec fn nearest_bits(x: nat) -> nat {
    let k = dropped_digits(x);
    let bits = k * 0x80_0000 + half_even(x, k + 149);
    if bits >= INFINITY_BITS {
        INFINITY_BITS as nat
    } else {
        bits
    }
}

/// The bits of the product of two finite numbers, without the sign.
pub open spec fn product_bits(a: Binary32, b: Binary32) -> nat {
    nearest_bits(magnitude(a.abs_bits() as int) * magnitude(b.abs_bits() as int))
}

/// The number of binary digits locates a number between powers of two.
proof fn lemma_bit_len_bounds(n: nat)
    requires
        n > 0,
    ensures
        bit_len(n) > 0,
        pow2((bit_len(n) - 1) as nat) <= n < pow2(bit_len(n)),
    decreases n,
{
    lemma2_to64();
    if n == 1 {
        reveal_with_fuel(bit_len, 2);
    } else {
        lemma_bit_len_bounds(n / 2);
        lemma_pow2_unfold(bit_len(n));
        lemma_pow2_unfold((bit_len(n) - 1) as nat);
    }
}

/// A number between two neighbouring powers of two has that many digits.
proof fn lemma_bit_len_unique(n: nat, len: nat)
    requires
        len > 0,
        pow2((len - 1) as nat) <= n < pow2(len),
    ensures
        bit_len(n) == len,
{
    lemma_pow2_pos((len - 1) as nat);
    lemma_bit_len_bounds(n);
    let b = bit_len(n);
    if b < len {
        if b < len - 1 {
            lemma_pow2_strictly_increases(b, (len - 1) as nat);
        }
    } else if len < b {
        if len < b - 1 {
            lemma_pow2_strictly_increases(len, (b - 1) as nat);
        }
    }
}

/// Multiplying by a power of two adds digits.
proof fn lemma_bit_len_shift(n: nat, t: nat)
    requires
        n > 0,
    ensures
        bit_len(n * pow2(t)) == bit_len(n) + t,
{
    let b = bit_len(n);
    let p = pow2(t);
    lemma_bit_len_bounds(n);
    lemma_pow2_pos(t);
    lemma_pow2_adds((b - 1) as nat, t);
    lemma_pow2_adds(b, t);
    let lo = pow2((b - 1) as nat);
    let hi = pow2(b);
    assert(lo * p <= n * p < hi * p) by (nonlinear_arith)
        requires
            lo <= n < hi,
            p > 0,
    ;
    assert((b - 1) as nat + t == (b + t - 1) as nat);
    lemma_bit_len_unique(n * p, b + t);
}

/// Rounding at least as many digits as were added rounds the rest.
proof fn lemma_half_even_shift(n: nat, t: nat, d: nat)
    requires
        t <= d,
    ensures
        half_even(n * pow2(t), d) == half_even(n, (d - t) as nat),
{
    let p = pow2(t);
    let g = pow2((d - t) as nat);
    lemma_pow2_adds(t, (d - t) as nat);
    lemma_pow2_pos(t);
    lemma_pow2_pos((d - t) as nat);
    let q = n / g;
    let r = n % g;
    assert(pow2(d) == p * g);
    assert(n == g * q + r) by {
        vstd::arithmetic::div_mod::lemma_fundamental_div_mod(n as int, g as int);
    }
    assert(n * p == q * (p * g) + r * p) by (nonlinear_arith)
        requires
            n == g * q + r,
    ;
    assert(0 <= r * p < p * g) by (nonlinear_arith)
        requires
            0 <= r < g,
            p > 0,
    ;
    vstd::arithmetic::div_mod::lemma_fundamental_div_mod_converse(
        (n * p) as int,
        (p * g) as int,
        q as int,
        (r * p) as int,
    );
    assert(2 * (r * p) > p * g <==> 2 * r > g) by (nonlinear_arith)
        requires
            p > 0,
    ;
    assert(2 * (r * p) == p * g <==> 2 * r == g) by (nonlinear_arith)
        requires
            p > 0,
    ;
}

/// Rounding fewer digits than were added rounds nothing.
proof fn lemma_half_even_exact(n: nat, t: nat, d: nat)
    requires
        d <= t,
    ensures
        half_even(n * pow2(t), d) == n * pow2((t - d) as nat),
{
    let p = pow2(d);
    let g = pow2((t - d) as nat);
    lemma_pow2_adds(d, (t - d) as nat);
    lemma_pow2_pos(d);
    assert(n * (p * g) == (n * g) * p + 0) by (nonlinear_arith);
    vstd::arithmetic::div_mod::lemma_fundamental_div_mod_converse(
        (n * pow2(t)) as int,
        p as int,
        (n * g) as int,
        0,
    );
}

/// `2^d`.
fn power_of_two(d: u32) -> (p: u64)
    requires
        d < 64,
    ensures
        p == pow2(d as nat),
{
    let mut p: u64 = 1;
    let mut i: u32 = 0;
    proof {
        lemma2_to64();
    }
    while i < d
        invariant
            i <= d < 64,
            p == pow2(i as nat),
        decreases d - i,
    {
        proof {
            lemma_pow2_unfold((i + 1) as nat);
            if i + 1 < 64 {
                lemma_pow2_strictly_increases((i + 1) as nat, 64);
            }
            lemma2_to64();
        }
        p = p * 2;
        i += 1;
    }
    p
}

/// Counts the binary digits of `n`.
fn count_digits(n: u64) -> (len: u32)
    ensures
        len == bit_len(n as nat),
        len <= 64,
{
    let mut rest: u64 = n;
    let mut len: u32 = 0;
    proof {
        if n > 0 {
            lemma_bit_len_bounds(n as nat);
            lemma2_to64();
            if bit_len(n as nat) > 65 {
                lemma_pow2_strictly_increases(64, (bit_len(n as nat) - 1) as nat);
            }
        }
    }
    while rest > 0
        invariant
            len + bit_len(rest as nat) == bit_len(n as nat),
            bit_len(n as nat) <= 64,
        decreases rest,
    {
        rest = rest / 2;
        len += 1;
    }
    len
}

/// Rounds `n / 2^d` to the nearest whole number, ties to even.
fn round_half_even(n: u64, d: u32) -> (m: u64)
    requires
        d < 64,
    ensures
        m == half_even(n as nat, d as nat),
{
    let p: u64 = power_of_two(d);
    proof {
        lemma_pow2_pos(d as nat);
    }
    let q: u64 = n / p;
    let r: u64 = n % p;
    if r > p - r || (r == p - r && q % 2 == 1) {
        proof {
            assert(q <= n) by (nonlinear_arith)
                requires
                    q == n / p,
                    p > 0,
            ;
            assert(p == 1 ==> r == 0);
            assert(p >= 2 ==> q <= n / 2) by (nonlinear_arith)
                requires
                    q == n / p,
                    p > 0,
            ;
        }
        q + 1
    } else {
        q
    }
}

/// The significand of a magnitude: the 24 digits that its power of two scales.
fn significand(bits: u32) -> (parts: (u64, u32))
    requires
        bits < INFINITY_BITS,
    ensures
        parts.0 < 0x100_0000,
        parts.1 <= 253,
        parts.1 > 0 ==> parts.0 >= 0x80_0000,
        magnitude(bits as int) == parts.0 * pow2(parts.1 as nat),
{
    let exponent: u32 = bits / EXPONENT_UNIT;
    let fraction: u32 = bits % EXPONENT_UNIT;
    proof {
        lemma2_to64();
    }
    if exponent == 0 {
        proof {
            let p = pow2(0);
            assert(fraction * p == fraction) by (nonlinear_arith)
                requires
                    p == 1,
            ;
        }
        (fraction as u64, 0)
    } else {
        proof {
            let p = pow2((exponent - 1) as nat);
            assert((0x80_0000 + fraction) * p >= 0) by (nonlinear_arith)
                requires
                    fraction >= 0,
                    p >= 0,
            ;
        }
        ((EXPONENT_UNIT + fraction) as u64, exponent - 1)
    }
}

/// The bits of the product of two magnitudes.
fn multiply_magnitudes(a: u32, b: u32) -> (bits: u32)
    requires
        a < INFINITY_BITS,
        b < INFINITY_BITS,
    ensures
        bits == nearest_bits(magnitude(a as int) * magnitude(b as int)),
{
    let (m1, k1) = significand(a);
    let (m2, k2) = significand(b);
    let ghost x = magnitude(a as int) * magnitude(b as int);
    assert(m1 * m2 < 0x1_0000_0000_0000) by (nonlinear_arith)
        requires
            0 <= m1 < 0x100_0000,
            0 <= m2 < 0x100_0000,
    ;
    let n: u64 = m1 * m2;
    let t: u32 = k1 + k2;
    proof {
        lemma_pow2_adds(k1 as nat, k2 as nat);
        let p1 = pow2(k1 as nat);
        let p2 = pow2(k2 as nat);
        assert((m1 * p1) * (m2 * p2) == (m1 * m2) * (p1 * p2)) by (nonlinear_arith);
        assert(x == n as nat * pow2(t as nat));
    }
    if n == 0 {
        proof {
            assert(x == 0) by (nonlinear_arith)
                requires
                    x == n as nat * pow2(t as nat),
                    n == 0,
            ;
            lemma_pow2_pos(149);
            assert(0nat / pow2(149) == 0 && 0nat % pow2(149) == 0) by (nonlinear_arith)
                requires
                    pow2(149) > 0,
            ;
        }
        return 0;
    }
    let len: u32 = count_digits(n);
    proof {
        lemma_bit_len_shift(n as nat, t as nat);
        lemma_bit_len_bounds(n as nat);
        lemma2_to64();
        vstd::arithmetic::power2::lemma2_to64_rest();
        if len > 49 {
            lemma_pow2_strictly_increases(48, (len - 1) as nat);
        }
    }
    let k: u32 = if len + t > 173 {
        len + t - 173
    } else {
        0
    };
    assert(k == dropped_digits(x));
    let drop: u32 = k + 149;
    let m: u64 = if drop >= t {
        proof {
            lemma_half_even_shift(n as nat, t as nat, drop as nat);
        }
        if drop - t >= 50 {
            proof {
                lemma_half_even_vanishes(n as nat, (drop - t) as nat);
            }
            0
        } else {
            round_half_even(n, drop - t)
        }
    } else {
        proof {
            lemma_half_even_exact(n as nat, t as nat, drop as nat);
            lemma_bit_len_shift(n as nat, (t - drop) as nat);
            lemma_bit_len_bounds(n as nat * pow2((t - drop) as nat));
            assert(len + t - drop <= 24);
            if len + t - drop < 24 {
                lemma_pow2_strictly_increases((len + t - drop) as nat, 24);
            }
            lemma_pow2_pos((t - drop) as nat);
        }
        let p: u64 = power_of_two(t - drop);
        n * p
    };
    proof {
        lemma_half_even_small(x);
    }
    if k >= 254 {
        INFINITY_BITS
    } else {
        let bits: u32 = k * EXPONENT_UNIT + m as u32;
        if bits >= INFINITY_BITS {
            INFINITY_BITS
        } else {
            bits
        }
    }
}

/// Dropping more digits than a number has leaves nothing.
proof fn lemma_half_even_vanishes(n: nat, d: nat)
    requires
        0 < n,
        bit_len(n) < d,
    ensures
        half_even(n, d) == 0,
{
    lemma_bit_len_bounds(n);
    lemma_pow2_unfold(d);
    if bit_len(n) < d - 1 {
        lemma_pow2_strictly_increases(bit_len(n), (d - 1) as nat);
    }
    vstd::arithmetic::div_mod::lemma_small_mod(n, pow2(d));
    vstd::arithmetic::div_mod::lemma_basic_div(n as int, pow2(d) as int);
}

/// What is kept of a product has at most 24 digits, or is 2^24 by rounding up;
/// where digits are dropped it has no fewer.
proof fn lemma_half_even_small(x: nat)
    requires
        x > 0,
    ensures
        ({
            let k = dropped_digits(x);
            let m = half_even(x, k + 149);
            &&& m <= 0x100_0000
            &&& k > 0 ==> m >= 0x80_0000
        }),
{
    let k = dropped_digits(x);
    let d = k + 149;
    let p = pow2(d);
    lemma_bit_len_bounds(x);
    lemma_pow2_pos(d);
    lemma_pow2_adds(24, d);
    lemma2_to64();
    if bit_len(x) < 24 + d {
        lemma_pow2_strictly_increases(bit_len(x), 24 + d);
    }
    let q = x / p;
    assert(q < 0x100_0000) by (nonlinear_arith)
        requires
            q == x / p,
            x < 0x100_0000 * p,
            p > 0,
    ;
    if k > 0 {
        lemma_pow2_adds(23, d);
        assert(q >= 0x80_0000) by (nonlinear_arith)
            requires
                q == x / p,
                x >= 0x80_0000 * p,
                p > 0,
        ;
    }
}

/// The number with this magnitude and this sign.
pub open spec fn signed(negative: bool, magnitude_bits: nat) -> Binary32 {
    if negative {
        Binary32 { bits: (SIGN_BIT + magnitude_bits) as u32 }
    } else {
        Binary32 { bits: magnitude_bits as u32 }
    }
}

/// The product of two numbers. Finite numbers are multiplied exactly and
/// rounded to nearest, ties to even. What has no product (an operand that is not
/// a number, infinity times zero) gives the quiet not-a-number.
pub open spec fn product(a: Binary32, b: Binary32) -> Binary32 {
    let negative = a.is_negative() != b.is_negative();
    if a.spec_is_finite() && b.spec_is_finite() {
        signed(negative, product_bits(a, b))
    } else if a.spec_is_nan() || b.spec_is_nan() || a.abs_bits() == 0 || b.abs_bits() == 0 {
        Binary32 { bits: QUIET_NAN_BITS }
    } else {
        signed(negative, INFINITY_BITS as nat)
    }
}

impl Binary32 {
    /// The product of two numbers.
    pub fn times(self, other: Self) -> (p: Self)
        ensures
            p == product(self, other),
    {
        let a: u32 = self.magnitude_bits();
        let b: u32 = other.magnitude_bits();
        let negative = (self.bits >= SIGN_BIT) != (other.bits >= SIGN_BIT);
        let bits: u32 = if a < INFINITY_BITS && b < INFINITY_BITS {
            multiply_magnitudes(a, b)
        } else if a > INFINITY_BITS || b > INFINITY_BITS || a == 0 || b == 0 {
            return Binary32 { bits: QUIET_NAN_BITS };
        } else {
            INFINITY_BITS
        };
        if negative {
            Binary32 { bits: SIGN_BIT + bits }
        } else {
            Binary32 { bits }
        }
    }
}

/// The distance between two numbers.
pub open spec fn distance(a: int, b: int) -> int {
    if a < b {
        b - a
    } else {
        a - b
    }
}

/// A kept significand of `m` and `k` dropped digits stand for `m * 2^k` units.
proof fn lemma_magnitude_of_parts(k: nat, m: nat)
    requires
        m <= 0x100_0000,
        k > 0 ==> m >= 0x80_0000,
    ensures
        magnitude((k * 0x80_0000 + m) as int) == m * pow2(k),
{
    let bits = (k * 0x80_0000 + m) as int;
    lemma2_to64();
    lemma_pow2_unfold(k + 1);
    if m == 0x100_0000 {
        assert(bits / 0x80_0000 == k + 2);
        assert(bits % 0x80_0000 == 0);
        assert(0x80_0000 * pow2(k + 1) == 0x100_0000 * pow2(k));
    } else if m >= 0x80_0000 {
        assert(bits / 0x80_0000 == k + 1);
        assert(bits % 0x80_0000 == m - 0x80_0000);
        assert(m * pow2(k) >= 0) by (nonlinear_arith);
    } else {
        assert(k == 0);
        assert(bits / 0x80_0000 == 0);
    }
}

/// No multiple of `2^d` is nearer to `x` than the rounded one.
proof fn lemma_half_even_nearest(x: nat, d: nat, c: int)
    ensures
        distance(x as int, half_even(x, d) as int * pow2(d)) <= distance(x as int, c * pow2(d)),
{
    let p = pow2(d) as int;
    let q = x as int / p;
    let r = x as int % p;
    lemma_pow2_pos(d);
    vstd::arithmetic::div_mod::lemma_fundamental_div_mod(x as int, p);
    assert(p * q == q * p) by (nonlinear_arith);
    assert((q + 1) * p == q * p + p) by (nonlinear_arith);
    if c <= q {
        assert(c * p <= q * p) by (nonlinear_arith)
            requires
                c <= q,
                p > 0,
        ;
    } else {
        assert(c * p >= (q + 1) * p) by (nonlinear_arith)
            requires
                c >= q + 1,
                p > 0,
        ;
    }
}

/// A finite magnitude is whole units of `2^k`, or less than `2^23` of them.
proof fn lemma_magnitude_grid(c: int, k: nat)
    requires
        0 <= c < SIGN_BIT,
    ensures
        (exists|i: int| magnitude(c) == #[trigger] (i * pow2(k))) || magnitude(c) < 0x80_0000
            * pow2(k),
{
    let exponent = c / 0x80_0000;
    let fraction = c % 0x80_0000;
    lemma2_to64();
    lemma_pow2_pos(k);
    if k == 0 {
        assert(magnitude(c) == magnitude(c) as int * pow2(k));
    } else if exponent > k {
        let e = (exponent - 1) as nat;
        lemma_pow2_adds((e - k) as nat, k);
        let s = 0x80_0000 + fraction;
        let g = pow2((e - k) as nat) as int;
        let p = pow2(k) as int;
        assert(s * (g * p) == (s * g) * p) by (nonlinear_arith);
        assert(s * (g * p) >= 0) by (nonlinear_arith)
            requires
                s >= 0,
                g >= 0,
                p >= 0,
        ;
        assert(magnitude(c) == (s * g) * pow2(k));
    } else {
        // The largest such magnitude is below 2^24 units of 2^(k-1).
        let q = pow2(k) as int;
        lemma_pow2_unfold(k);
        if exponent <= 0 {
            assert(0x80_0000 * q >= 0x80_0000) by (nonlinear_arith)
                requires
                    q >= 1,
            ;
        } else {
            let e = (exponent - 1) as nat;
            let s = 0x80_0000 + fraction;
            let p = pow2(e) as int;
            lemma_pow2_pos(e);
            lemma_pow2_unfold(exponent as nat);
            if exponent < k {
                lemma_pow2_strictly_increases(exponent as nat, k);
            }
            assert(s * p < 0x80_0000 * q) by (nonlinear_arith)
                requires
                    s < 0x100_0000,
                    p > 0,
                    q >= 2 * p,
            ;
            assert(s * p >= 0) by (nonlinear_arith)
                requires
                    s >= 0,
                    p >= 0,
            ;
        }
    }
}

/// A product that is not too large for the format is the number of the format
/// nearest to the exact product: none is nearer.
pub proof fn product_is_nearest(a: Binary32, b: Binary32, c: Binary32)
    requires
        a.spec_is_finite(),
        b.spec_is_finite(),
        c.spec_is_finite(),
        product_bits(a, b) < INFINITY_BITS,
    ensures
        ({
            let exact = magnitude(a.abs_bits() as int) * magnitude(b.abs_bits() as int);
            distance(exact as int, (magnitude(product_bits(a, b) as int) * pow2(149)) as int)
                <= distance(exact as int, (magnitude(c.abs_bits() as int) * pow2(149)) as int)
        }),
{
    let x = magnitude(a.abs_bits() as int) * magnitude(b.abs_bits() as int);
    let mc = magnitude(c.abs_bits() as int);
    let u = pow2(149) as int;
    if x == 0 {
        lemma_pow2_pos(149);
        assert(0nat / pow2(149) == 0 && 0nat % pow2(149) == 0) by (nonlinear_arith)
            requires
                pow2(149) > 0,
        ;
        lemma_magnitude_zero(0);
        assert(mc * u >= 0) by (nonlinear_arith)
            requires
                mc >= 0,
                u >= 0,
        ;
        assert(0 * u == 0);
    } else {
        let k = dropped_digits(x);
        let d = k + 149;
        let m = half_even(x, d);
        let p = pow2(k) as int;
        lemma_half_even_small(x);
        lemma_magnitude_of_parts(k, m);
        lemma_pow2_adds(k, 149);
        lemma_pow2_pos(k);
        lemma_pow2_pos(149);
        assert((m * p) * u == m * (p * u)) by (nonlinear_arith);
        lemma_magnitude_grid(c.abs_bits() as int, k);
        if exists|i: int| mc == #[trigger] (i * pow2(k)) {
            let i = choose|i: int| mc == #[trigger] (i * pow2(k));
            assert((i * p) * u == i * (p * u)) by (nonlinear_arith);
            lemma_half_even_nearest(x, d, i);
        } else {
            // `c` lies below 2^23 units of 2^k, and `x` does not.
            lemma_half_even_nearest(x, d, 0x80_0000);
            lemma_bit_len_bounds(x);
            lemma2_to64();
            lemma_pow2_adds(23, d);
            assert(mc * u <= 0x80_0000 * (p * u)) by (nonlinear_arith)
                requires
                    mc < 0x80_0000 * p,
                    u > 0,
            ;
            if k == 0 {
                assert(mc == mc as int * pow2(k));
                assert(false);
            }
            assert(pow2((bit_len(x) - 1) as nat) == pow2(23 + d));
        }
    }
}

/// The whole number nearest to a magnitude, halves upwards.
pub open spec fn nearest_whole(magnitude: nat) -> nat {
    (2 * magnitude + one()) / (2 * one())
}

/// The 32-bit integer nearest to a number: halves away from zero, what is out
/// of range to the nearer bound, not-a-number to 0.
pub open spec fn nearest_i32(x: Binary32) -> int {
    let whole = nearest_whole(magnitude(x.abs_bits() as int)) as int;
    if x.spec_is_nan() {
        0
    } else if x.is_negative() {
        if !x.spec_is_finite() || -whole < i32::MIN {
            i32::MIN as int
        } else {
            -whole
        }
    } else {
        if !x.spec_is_finite() || whole > i32::MAX {
            i32::MAX as int
        } else {
            whole
        }
    }
}

/// Rounding `m * 2^k` units to whole numbers, below one.
proof fn lemma_nearest_whole_small(m: nat, k: nat)
    requires
        k < 149,
    ensures
        nearest_whole(m * pow2(k)) == (m + pow2((148 - k) as nat)) / pow2((149 - k) as nat),
{
    let p = pow2(k) as int;
    let h = pow2((148 - k) as nat) as int;
    let g = pow2((149 - k) as nat) as int;
    lemma_pow2_pos(k);
    lemma_pow2_pos((149 - k) as nat);
    lemma_pow2_unfold((149 - k) as nat);
    lemma_pow2_adds(k, (149 - k) as nat);
    assert(one() == p * g);
    let y = m as int + h;
    let q = y / g;
    let r = y % g;
    vstd::arithmetic::div_mod::lemma_fundamental_div_mod(y, g);
    assert(2 * (m * p) + p * g == q * (2 * (p * g)) + 2 * p * r) by (nonlinear_arith)
        requires
            m + h == g * q + r,
            g == 2 * h,
    ;
    assert(0 <= 2 * p * r < 2 * (p * g)) by (nonlinear_arith)
        requires
            0 <= r < g,
            p > 0,
    ;
    vstd::arithmetic::div_mod::lemma_fundamental_div_mod_converse(
        2 * (m * p) + p * g,
        2 * (p * g),
        q,
        2 * p * r,
    );
}

/// Rounding `m * 2^k` units to whole numbers, from one on.
proof fn lemma_nearest_whole_large(m: nat, k: nat)
    requires
        k >= 149,
    ensures
        nearest_whole(m * pow2(k)) == m * pow2((k - 149) as nat),
{
    let u = pow2(149) as int;
    let g = pow2((k - 149) as nat) as int;
    lemma_pow2_pos(149);
    lemma_pow2_adds(149, (k - 149) as nat);
    assert(2 * (m * (u * g)) + u == (m * g) * (2 * u) + u) by (nonlinear_arith);
    vstd::arithmetic::div_mod::lemma_fundamental_div_mod_converse(
        2 * (m * (u * g)) + u,
        2 * u,
        m * g,
        u,
    );
}

/// Rounds a finite magnitude to a whole number, up to 2^31.
fn whole_magnitude(bits: u32) -> (whole: u64)
    requires
        bits < INFINITY_BITS,
    ensures
        whole <= 0x8000_0000,
        nearest_whole(magnitude(bits as int)) <= 0x8000_0000 ==> whole == nearest_whole(
            magnitude(bits as int),
        ),
        nearest_whole(magnitude(bits as int)) > 0x8000_0000 ==> whole == 0x8000_0000,
{
    let (m, k) = significand(bits);
    proof {
        lemma2_to64();
    }
    if k >= 149 {
        proof {
            lemma_nearest_whole_large(m as nat, k as nat);
        }
        if k >= 157 {
            proof {
                let g = pow2((k - 149) as nat);
                if k > 157 {
                    lemma_pow2_strictly_increases(8, (k - 149) as nat);
                }
                assert(m * g >= 0x8000_0000) by (nonlinear_arith)
                    requires
                        m >= 0x80_0000,
                        g >= 0x100,
                ;
            }
            0x8000_0000
        } else {
            let p: u64 = power_of_two(k - 149);
            proof {
                if k < 156 {
                    lemma_pow2_strictly_increases((k - 149) as nat, 7);
                }
                assert(m * p < 0x8000_0000) by (nonlinear_arith)
                    requires
                        m < 0x100_0000,
                        p <= 0x80,
                ;
            }
            m * p
        }
    } else {
        proof {
            lemma_nearest_whole_small(m as nat, k as nat);
        }
        let d: u32 = 149 - k;
        if d >= 26 {
            proof {
                let g = pow2(d as nat);
                let h = pow2((d - 1) as nat);
                lemma_pow2_unfold(d as nat);
                if d > 26 {
                    lemma_pow2_strictly_increases(25, (d - 1) as nat);
                }
                vstd::arithmetic::div_mod::lemma_basic_div((m + h) as int, g as int);
            }
            0
        } else {
            let h: u64 = power_of_two(d - 1);
            let g: u64 = power_of_two(d);
            proof {
                lemma_pow2_unfold(d as nat);
                lemma_pow2_pos((d - 1) as nat);
                if d < 25 {
                    lemma_pow2_strictly_increases(d as nat, 25);
                }
                assert((m + h) / (g as int) <= m + h) by (nonlinear_arith)
                    requires
                        m + h >= 0,
                        g >= 1,
                ;
            }
            (m + h) / g
        }
    }
}

impl Binary32 {
    /// The nearest 32-bit integer, halves away from zero.
    pub fn to_nearest_i32(self) -> (n: i32)
        ensures
            n == nearest_i32(self),
    {
        let bits: u32 = self.magnitude_bits();
        if bits > INFINITY_BITS {
            return 0;
        }
        let negative = self.bits >= SIGN_BIT;
        if bits == INFINITY_BITS {
            return if negative {
                i32::MIN
            } else {
                i32::MAX
            };
        }
        let whole: u64 = whole_magnitude(bits);
        if negative {
            (-(whole as i64)) as i32
        } else if whole > 0x7fff_ffff {
            i32::MAX
        } else {
            whole as i32
        }
    }
}

/// The bits of 0.0, 1.0 and 200.0 denote these numbers.
pub proof fn bits_of_zero_and_one()
    ensures
        (Binary32 { bits: 0 }).value() == 0,
        (Binary32 { bits: 0x3f80_0000 }).value() == one(),
        (Binary32 { bits: 0x4348_0000 }).value() == 200 * one(),
        (Binary32 { bits: 0x42c8_0000 }).value() == 100 * one(),
        one() > 0,
{
    lemma_magnitude_zero(0);
    lemma_magnitude_one(0);
    lemma_pow2_pos(149);
    lemma2_to64();
    lemma_pow2_adds(16, 133);
    lemma_pow2_adds(17, 132);
    let p = pow2(133) as int;
    let q = pow2(132) as int;
    assert(one() == 0x1_0000 * p);
    assert(one() == 0x2_0000 * q);
    assert(0x4348_0000int / 0x80_0000 == 134 && 0x4348_0000int % 0x80_0000 == 0x48_0000);
    assert(0x42c8_0000int / 0x80_0000 == 133 && 0x42c8_0000int % 0x80_0000 == 0x48_0000);
    assert(magnitude(0x4348_0000) == 0xc8_0000 * p);
    assert(magnitude(0x42c8_0000) == 0xc8_0000 * q);
}

/// A number below `2^n` has at most `n` digits.
proof fn lemma_bit_len_at_most(x: nat, n: nat)
    requires
        x < pow2(n),
    ensures
        bit_len(x) <= n,
{
    if x > 0 {
        lemma_bit_len_bounds(x);
        if bit_len(x) > n + 1 {
            lemma_pow2_strictly_increases(n, (bit_len(x) - 1) as nat);
        }
    }
}

/// Finite magnitudes lie below `2^277` units.
proof fn lemma_magnitude_bound(bits: int)
    requires
        0 <= bits < INFINITY_BITS,
    ensures
        magnitude(bits) < pow2(277),
{
    magnitude_is_increasing(bits, INFINITY_BITS as int);
    lemma2_to64();
    lemma_pow2_adds(23, 254);
    assert(INFINITY_BITS as int / 0x80_0000 == 255);
    assert(magnitude(INFINITY_BITS as int) == 0x80_0000 * pow2(254));
}

proof fn lemma_nothing_rounds_to_nothing()
    ensures
        nearest_bits(0) == 0,
{
    lemma_pow2_pos(149);
    assert(0nat / pow2(149) == 0 && 0nat % pow2(149) == 0) by (nonlinear_arith)
        requires
            pow2(149) > 0,
    ;
}

/// A product that some number of the format is not below is finite.
proof fn lemma_product_in_range(x: nat, c: int)
    requires
        0 <= c < INFINITY_BITS,
        x <= magnitude(c) * pow2(149),
    ensures
        nearest_bits(x) < INFINITY_BITS,
        dropped_digits(x) <= 253,
{
    let mc = magnitude(c);
    let u = pow2(149) as int;
    lemma_pow2_pos(149);
    lemma_magnitude_bound(c);
    lemma_pow2_adds(277, 149);
    let t = pow2(277) as int;
    assert(mc * u < t * u) by (nonlinear_arith)
        requires
            0 <= mc < t,
            u > 0,
    ;
    lemma_bit_len_at_most(x, 426);
    if x == 0 {
        lemma_nothing_rounds_to_nothing();
    } else {
        let k = dropped_digits(x);
        let d = k + 149;
        let m = half_even(x, d);
        let p = pow2(k) as int;
        lemma_half_even_small(x);
        if k * 0x80_0000 + m >= INFINITY_BITS {
            assert(k == 253 && m == 0x100_0000);
            lemma_pow2_adds(k, 149);
            lemma2_to64();
            lemma_pow2_adds(24, d);
            assert(mc * u < m * (p * u));
            lemma_magnitude_grid(c, k);
            if exists|i: int| mc == #[trigger] (i * pow2(k)) {
                let i = choose|i: int| mc == #[trigger] (i * pow2(k));
                assert((i * p) * u == i * (p * u)) by (nonlinear_arith);
                lemma_half_even_nearest(x, d, i);
            } else {
                lemma_bit_len_bounds(x);
                lemma_pow2_adds(23, d);
                assert(mc * u < 0x80_0000 * (p * u)) by (nonlinear_arith)
                    requires
                        mc < 0x80_0000 * p,
                        u > 0,
                ;
                assert(pow2((bit_len(x) - 1) as nat) == pow2(23 + d));
            }
            assert(false);
        }
    }
}

/// The magnitude of an exact product.
pub open spec fn magnitudes_multiplied(a: Binary32, b: Binary32) -> nat {
    magnitude(a.abs_bits() as int) * magnitude(b.abs_bits() as int)
}

proof fn lemma_exact_product(a: Binary32, b: Binary32)
    ensures
        a.value() * b.value() == (if a.is_negative() != b.is_negative() {
            -(magnitudes_multiplied(a, b) as int)
        } else {
            magnitudes_multiplied(a, b) as int
        }),
{
    let x = magnitude(a.abs_bits() as int) as int;
    let y = magnitude(b.abs_bits() as int) as int;
    assert((-x) * y == -(x * y)) by (nonlinear_arith);
    assert(x * (-y) == -(x * y)) by (nonlinear_arith);
    assert((-x) * (-y) == x * y) by (nonlinear_arith);
}

/// The product of two finite numbers is finite where the exact product is not
/// beyond all numbers of the format.
pub proof fn product_is_finite_in_range(a: Binary32, b: Binary32, c: Binary32)
    requires
        a.spec_is_finite(),
        b.spec_is_finite(),
        c.spec_is_finite(),
        -(c.value() * one()) <= a.value() * b.value() <= c.value() * one(),
    ensures
        product(a, b).spec_is_finite(),
        product(a, b).abs_bits() == product_bits(a, b),
        product_bits(a, b) < INFINITY_BITS,
{
    let x = magnitudes_multiplied(a, b);
    let mc = magnitude(c.abs_bits() as int) as int;
    let u = one() as int;
    lemma_exact_product(a, b);
    lemma_pow2_pos(149);
    assert((-mc) * u <= mc * u) by (nonlinear_arith)
        requires
            mc >= 0,
            u > 0,
    ;
    assert(x <= mc * u);
    lemma_product_in_range(x, c.abs_bits() as int);
}

/// The product of two finite numbers, where it is finite, is the number of the
/// format nearest to the exact product: none is nearer, and where another is as
/// near the product is the one whose last digit is even.
pub proof fn finite_product_is_nearest(a: Binary32, b: Binary32, c: Binary32)
    requires
        a.spec_is_finite(),
        b.spec_is_finite(),
        c.spec_is_finite(),
        product(a, b).spec_is_finite(),
    ensures
        distance(a.value() * b.value(), product(a, b).value() * one()) <= distance(
            a.value() * b.value(),
            c.value() * one(),
        ),
        distance(a.value() * b.value(), product(a, b).value() * one()) == distance(
            a.value() * b.value(),
            c.value() * one(),
        ) && c.value() != product(a, b).value() ==> product(a, b).bits % 2 == 0,
{
    let x = magnitudes_multiplied(a, b) as int;
    let w = product(a, b);
    let n = product_bits(a, b);
    let u = one() as int;
    let mw = magnitude(w.abs_bits() as int) as int;
    let mc = magnitude(c.abs_bits() as int) as int;
    lemma_pow2_pos(149);
    lemma_exact_product(a, b);
    assert(n <= INFINITY_BITS);
    assert(w.abs_bits() == n);
    product_is_nearest(a, b, c);
    assert((-mc) * u == -(mc * u)) by (nonlinear_arith);
    assert((-mw) * u == -(mw * u)) by (nonlinear_arith);
    assert(mc * u >= 0) by (nonlinear_arith)
        requires
            mc >= 0,
            u > 0,
    ;
    assert(mw * u >= 0) by (nonlinear_arith)
        requires
            mw >= 0,
            u > 0,
    ;
    assert(x >= 0);
    if distance(a.value() * b.value(), w.value() * u) == distance(
        a.value() * b.value(),
        c.value() * u,
    ) && c.value() != w.value() {
        assert(distance(x, mw * u) == distance(x, mc * u));
        if mc == mw {
            // The two differ in their sign alone, so the exact product is zero.
            assert(x == 0 || mc * u == 0);
            if mw != 0 {
                assert(mw * u > 0) by (nonlinear_arith)
                    requires
                        mw > 0,
                        u > 0,
                ;
                lemma_nothing_rounds_to_nothing();
                lemma_magnitude_zero(0);
            }
            assert(false);
        }
        lemma_tie_is_even(x as nat, c.abs_bits() as int);
    }
}

/// Of two numbers of the format that are as near to `x`, rounding takes the even
/// one.
proof fn lemma_tie_is_even(x: nat, c: int)
    requires
        0 <= c < INFINITY_BITS,
        nearest_bits(x) < INFINITY_BITS,
        magnitude(c) != magnitude(nearest_bits(x) as int),
        distance(x as int, (magnitude(nearest_bits(x) as int) * one()) as int) == distance(
            x as int,
            (magnitude(c) * one()) as int,
        ),
    ensures
        nearest_bits(x) % 2 == 0,
{
    let u = one() as int;
    let mc = magnitude(c) as int;
    lemma_pow2_pos(149);
    if x == 0 {
        lemma_nothing_rounds_to_nothing();
    } else {
        let k = dropped_digits(x);
        let d = k + 149;
        let m = half_even(x, d);
        let p = pow2(k) as int;
        lemma_half_even_small(x);
        lemma_magnitude_of_parts(k, m);
        lemma_pow2_adds(k, 149);
        lemma_pow2_pos(k);
        assert((m * p) * u == m * (p * u)) by (nonlinear_arith);
        lemma_magnitude_grid(c, k);
        if exists|i: int| mc == #[trigger] (i * pow2(k)) {
            let i = choose|i: int| mc == #[trigger] (i * pow2(k));
            assert((i * p) * u == i * (p * u)) by (nonlinear_arith);
            lemma_half_even_tie(x, d, i);
        } else {
            lemma_half_even_nearest(x, d, 0x80_0000);
            lemma_bit_len_bounds(x);
            lemma2_to64();
            lemma_pow2_adds(23, d);
            assert(mc * u < 0x80_0000 * (p * u)) by (nonlinear_arith)
                requires
                    mc < 0x80_0000 * p,
                    u > 0,
            ;
            if k == 0 {
                assert(mc == mc * pow2(k));
                assert(false);
            }
            assert(pow2((bit_len(x) - 1) as nat) == pow2(23 + d));
            assert(false);
        }
    }
}

/// A multiple of `2^d` that is as near as the rounded one, and another one, leaves an
/// even one.
proof fn lemma_half_even_tie(x: nat, d: nat, c: int)
    requires
        c != half_even(x, d),
        distance(x as int, half_even(x, d) as int * pow2(d)) == distance(x as int, c * pow2(d)),
    ensures
        half_even(x, d) % 2 == 0,
{
    let p = pow2(d) as int;
    let q = x as int / p;
    let r = x as int % p;
    let h = half_even(x, d) as int;
    lemma_pow2_pos(d);
    vstd::arithmetic::div_mod::lemma_fundamental_div_mod(x as int, p);
    assert(p * q == q * p) by (nonlinear_arith);
    assert((q + 1) * p == q * p + p) by (nonlinear_arith);
    assert((q - 1) * p == q * p - p) by (nonlinear_arith);
    assert((q + 2) * p == q * p + 2 * p) by (nonlinear_arith);
    if c <= q - 1 {
        assert(c * p <= (q - 1) * p) by (nonlinear_arith)
            requires
                c <= q - 1,
                p > 0,
        ;
    } else if c >= q + 2 {
        assert(c * p >= (q + 2) * p) by (nonlinear_arith)
            requires
                c >= q + 2,
                p > 0,
        ;
    }
}

/// Multiplying by 1.0 changes no number.
pub proof fn times_one_changes_nothing(b: Binary32)
    requires
        b.spec_is_finite(),
    ensures
        product(Binary32 { bits: 0x3f80_0000 }, b) == b,
{
    let a = Binary32 { bits: 0x3f80_0000 };
    bits_of_zero_and_one();
    let u = one() as int;
    assert(a.value() * b.value() == b.value() * u) by (nonlinear_arith)
        requires
            a.value() == u,
    ;
    let c = if b.is_negative() {
        Binary32 { bits: b.abs_bits() }
    } else {
        b
    };
    let v = b.value();
    let mb = magnitude(b.abs_bits() as int) as int;
    assert((-mb) * u == -(mb * u)) by (nonlinear_arith);
    assert(mb * u >= 0) by (nonlinear_arith)
        requires
            mb >= 0,
            u > 0,
    ;
    product_is_finite_in_range(a, b, c);
    finite_product_is_nearest(a, b, b);
    let w = product(a, b);
    assert(w.value() * u == v * u);
    assert(w.value() == v) by (nonlinear_arith)
        requires
            w.value() * u == v * u,
            u > 0,
    ;
    if w.abs_bits() < b.abs_bits() {
        magnitude_is_increasing(w.abs_bits() as int, b.abs_bits() as int);
    } else if b.abs_bits() < w.abs_bits() {
        magnitude_is_increasing(b.abs_bits() as int, w.abs_bits() as int);
    }
}

/// The whole number nearest to a number is at most a half away from it, and halves
/// are rounded away from zero.
pub proof fn whole_number_is_nearest(x: Binary32)
    requires
        x.spec_is_finite(),
        -(0x7fff_ffff * one()) <= x.value() <= 0x7fff_ffff * one(),
    ensures
        2 * distance(nearest_i32(x) * one(), x.value()) <= one(),
        x.value() >= 0 ==> 2 * (nearest_i32(x) * one() - x.value()) > -(one() as int),
        x.value() < 0 ==> 2 * (x.value() - nearest_i32(x) * one()) > -(one() as int),
{
    let m = magnitude(x.abs_bits() as int) as int;
    let u = one() as int;
    lemma_pow2_pos(149);
    let n = nearest_whole(m as nat) as int;
    vstd::arithmetic::div_mod::lemma_fundamental_div_mod(2 * m + u, 2 * u);
    let r = (2 * m + u) % (2 * u);
    assert(2 * m + u == (2 * u) * n + r);
    assert((2 * u) * n == 2 * (n * u)) by (nonlinear_arith);
    assert((-n) * u == -(n * u)) by (nonlinear_arith);
    if m == 0 {
        assert(n == 0) by (nonlinear_arith)
            requires
                2 * (n * u) <= u,
                n >= 0,
                u > 0,
        ;
    }
    assert(m <= 0x7fff_ffff * u);
    assert(n <= 0x7fff_ffff) by (nonlinear_arith)
        requires
            2 * (n * u) <= 2 * m + u,
            m <= 0x7fff_ffff * u,
            u > 0,
    ;
}

/// The error of a rounded product is at most half of its last digit.
proof fn lemma_product_error(x: nat)
    requires
        x > 0,
        nearest_bits(x) < INFINITY_BITS,
    ensures
        2 * distance(x as int, (magnitude(nearest_bits(x) as int) * one()) as int) <= pow2(
            dropped_digits(x) + 149,
        ),
{
    let k = dropped_digits(x);
    let d = k + 149;
    let m = half_even(x, d);
    let u = one() as int;
    let p = pow2(k) as int;
    lemma_half_even_small(x);
    lemma_magnitude_of_parts(k, m);
    lemma_pow2_adds(k, 149);
    assert((m * p) * u == m * (p * u)) by (nonlinear_arith);
    let g = pow2(d) as int;
    let q = x as int / g;
    lemma_pow2_pos(d);
    vstd::arithmetic::div_mod::lemma_fundamental_div_mod(x as int, g);
    assert(g * q == q * g) by (nonlinear_arith);
    assert((q + 1) * g == q * g + g) by (nonlinear_arith);
}

/// Two hundred times a number from 0.0 to 1.0 is off by no more than 2^-17.
pub proof fn two_hundred_times_is_close(x: Binary32)
    requires
        x.spec_is_finite(),
        0 <= x.value() <= one(),
    ensures
        ({
            let w = product(x, Binary32 { bits: 0x4348_0000 });
            &&& w.spec_is_finite()
            &&& 0 <= w.value() <= 200 * one()
            &&& distance(200 * x.value(), w.value()) <= pow2(132)
        }),
{
    let b = Binary32 { bits: 0x4348_0000 };
    let w = product(x, b);
    let u = one() as int;
    let v = x.value();
    bits_of_zero_and_one();
    let bv = b.value();
    assert(v * bv == (200 * v) * u) by (nonlinear_arith)
        requires
            bv == 200 * u,
    ;
    assert(0 <= v * bv <= bv * u) by (nonlinear_arith)
        requires
            0 <= v <= u,
            bv == 200 * u,
    ;
    product_is_finite_in_range(x, b, b);
    lemma_exact_product(x, b);
    let e = magnitudes_multiplied(x, b);
    if x.is_negative() {
        assert(magnitude(x.abs_bits() as int) == 0);
        assert(e == 0) by (nonlinear_arith)
            requires
                e == 0 * magnitude(b.abs_bits() as int),
        ;
    }
    assert(e == (200 * v) * u);
    if e == 0 {
        lemma_nothing_rounds_to_nothing();
        lemma_magnitude_zero(0);
        assert(v == 0) by (nonlinear_arith)
            requires
                (200 * v) * u == 0,
                u > 0,
        ;
        lemma_pow2_pos(132);
    } else {
        lemma_product_error(e);
        lemma2_to64();
        lemma_pow2_adds(8, 298);
        lemma_pow2_adds(149, 149);
        assert(e < pow2(306)) by (nonlinear_arith)
            requires
                e == (200 * v) * u,
                0 <= v <= u,
                u > 0,
                pow2(306) == 256 * (u * u),
        ;
        lemma_bit_len_at_most(e, 306);
        let k = dropped_digits(e);
        assert(k <= 133);
        if k < 133 {
            lemma_pow2_strictly_increases(k + 149, 282);
        }
        let mw = magnitude(product_bits(x, b) as int) as int;
        lemma_pow2_unfold(282);
        lemma_pow2_adds(132, 149);
        let t = pow2(132) as int;
        assert(distance(e as int, mw * u) <= t * u);
        assert(distance(200 * v, mw) <= t) by (nonlinear_arith)
            requires
                e == (200 * v) * u,
                -(t * u) <= e - mw * u <= t * u,
                u > 0,
                distance(200 * v, mw) == 200 * v - mw || distance(200 * v, mw) == mw - 200 * v,
        ;
        // 200.0 is a number of the format, so nothing is rounded past it.
        finite_product_is_nearest(x, b, b);
        assert(mw <= 200 * u) by {
            if mw > 200 * u {
                assert(mw * u > (200 * u) * u) by (nonlinear_arith)
                    requires
                        mw > 200 * u,
                        u > 0,
                ;
                assert((200 * v) * u <= (200 * u) * u) by (nonlinear_arith)
                    requires
                        v <= u,
                        u > 0,
                ;
                assert(!x.is_negative());
            }
        }
    }
}

/// What is no number becomes 0, and what is beyond 32 bits becomes the largest or the
/// smallest number of 32 bits.
pub proof fn whole_numbers_saturate(x: Binary32)
    ensures
        x.spec_is_nan() ==> nearest_i32(x) == 0,
        !x.spec_is_nan() && !x.spec_is_finite() ==> nearest_i32(x) == (if x.is_negative() {
            -0x8000_0000int
        } else {
            0x7fff_ffffint
        }),
        x.spec_is_finite() && x.value() >= 0x8000_0000 * one() ==> nearest_i32(x) == 0x7fff_ffff,
        x.spec_is_finite() && x.value() <= -0x8000_0000 * one() ==> nearest_i32(x) == -0x8000_0000,
{
    let m = magnitude(x.abs_bits() as int) as int;
    let u = one() as int;
    lemma_pow2_pos(149);
    let n = nearest_whole(m as nat) as int;
    vstd::arithmetic::div_mod::lemma_fundamental_div_mod(2 * m + u, 2 * u);
    if m >= 0x8000_0000 * u {
        assert(n >= 0x8000_0000) by (nonlinear_arith)
            requires
                2 * m + u == (2 * u) * n + (2 * m + u) % (2 * u),
                (2 * m + u) % (2 * u) < 2 * u,
                m >= 0x8000_0000 * u,
                u > 0,
        ;
    }
}

/// A product with what is no number is none, nor is that of zero and infinity; infinity
/// times anything else is infinite, with the sign of a product.
pub proof fn products_beyond_the_numbers(a: Binary32, b: Binary32)
    ensures
        a.spec_is_nan() || b.spec_is_nan() ==> product(a, b).spec_is_nan(),
        !a.spec_is_nan() && !a.spec_is_finite() && b.spec_is_finite() && b.value() == 0 ==> product(
            a,
            b,
        ).spec_is_nan(),
        !a.spec_is_nan() && !a.spec_is_finite() && !b.spec_is_nan() && b.abs_bits() != 0 ==> {
            let p = product(a, b);
            &&& !p.spec_is_nan() && !p.spec_is_finite()
            &&& p.is_negative() == (a.is_negative() != b.is_negative())
        },
        product(a, b) == product(b, a),
{
    assert(magnitude(a.abs_bits() as int) * magnitude(b.abs_bits() as int) == magnitude(
        b.abs_bits() as int,
    ) * magnitude(a.abs_bits() as int)) by (nonlinear_arith);
    if b.spec_is_finite() && b.value() == 0 {
        let e = b.abs_bits() as int / 0x80_0000;
        if e > 0 {
            lemma_pow2_pos((e - 1) as nat);
            let f = 0x80_0000 + b.abs_bits() as int % 0x80_0000;
            let p = pow2((e - 1) as nat) as int;
            assert(f * p > 0) by (nonlinear_arith)
                requires
                    f > 0,
                    p > 0,
            ;
        }
    }
}

} // verus!
