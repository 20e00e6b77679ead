//! Points in time inside a medium, in seconds.
//!
//! A [`Seconds`] holds the bit pattern of an IEEE 754 double-precision number, so a value read
//! from metadata is kept exactly as it was written. Every finite double is a whole number of
//! units of 2^-1074 seconds; the contracts speak of that exact number.

use vstd::arithmetic::div_mod::*;
use vstd::arithmetic::mul::*;
use vstd::arithmetic::power2::*;
use vstd::prelude::*;

verus! {

/// 2^52, the weight of the implicit leading bit of a significand.
pub const HIDDEN_BIT: u64 = 0x10_0000_0000_0000;

/// 2^53, one more than the largest significand.
pub const SIGNIFICAND_END: u64 = 0x20_0000_0000_0000;

/// 2^63, the sign bit.
pub const SIGN_BIT: u64 = 0x8000_0000_0000_0000;

/// A double-precision number of seconds, held by its bits.
#[derive(Clone, Copy, PartialEq, Eq, Structural, Debug)]
pub struct Seconds {
    pub bits: u64,
}

impl Seconds {
    /// The biased exponent.
    pub open spec fn exponent(self) -> nat {
        ((self.bits / HIDDEN_BIT) % 2048) as nat
    }

    /// The stored part of the significand.
    pub open spec fn fraction(self) -> nat {
        (self.bits % HIDDEN_BIT) as nat
    }

    /// The whole significand.
    pub open spec fn significand(self) -> nat {
        if self.exponent() == 0 {
            self.fraction()
        } else {
            self.fraction() + HIDDEN_BIT as nat
        }
    }

    /// The power of two, in units, that the significand counts.
    pub open spec fn shift(self) -> nat {
        if self.exponent() == 0 {
            0
        } else {
            (self.exponent() - 1) as nat
        }
    }

    /// Whether the sign bit is set.
    pub open spec fn negative(self) -> bool {
        self.bits >= SIGN_BIT
    }

    /// Whether the bits stand for a number: no infinity, and not "not a number".
    pub open spec fn finite(self) -> bool {
        self.exponent() != 2047
    }

    /// The distance from zero, in units of 2^-1074 seconds.
    pub open spec fn magnitude(self) -> nat {
        self.significand() * pow2(self.shift())
    }

    /// The exact value, in units of 2^-1074 seconds.
    pub open spec fn units(self) -> int {
        if self.negative() {
            -(self.magnitude() as int)
        } else {
            self.magnitude() as int
        }
    }
}

impl Seconds {
    /// The whole seconds: zero for a negative number, and at most [`u64::MAX`].
    pub open spec fn whole_seconds(self) -> u64 {
        if self.negative() {
            0
        } else {
            saturated(cut_to_seconds(self.magnitude()))
        }
    }

    /// The number of thousandths of a second, rounded.
    pub open spec fn milliseconds(self) -> u64 {
        saturated(rounded_to_seconds(nearest(1000 * self.magnitude())))
    }

    /// The number of millionths of a second, rounded.
    pub open spec fn microseconds(self) -> u64 {
        saturated(rounded_to_seconds(1000000 * self.magnitude()))
    }

    /// The length from this point in time to `end`, rounded to whole seconds.
    pub open spec fn seconds_until(self, end: Seconds) -> u64 {
        saturated(rounded_to_seconds(nearest((end.magnitude() - self.magnitude()) as nat)))
    }
}

/// Whether `point` is the number nearest to `n` seconds.
pub open spec fn stands_for(point: Seconds, n: nat) -> bool {
    &&& point.finite()
    &&& !point.negative()
    &&& point.units() == nearest(n) * pow2(1074)
}

/// The number nearest to `n` seconds.
pub open spec fn whole_point(n: nat) -> Seconds {
    choose|point: Seconds| stands_for(point, n)
}

/// The largest 64-bit number that is not above `x`.
pub open spec fn saturated(x: nat) -> u64 {
    if x <= u64::MAX {
        x as u64
    } else {
        u64::MAX
    }
}

/// The spacing, at `x` units, of the numbers that a 53-bit significand can hold.
pub open spec fn spacing(x: nat) -> nat
    decreases x,
{
    if x < SIGNIFICAND_END {
        1
    } else {
        2 * spacing(x / 2)
    }
}

/// The number with a 53-bit significand that is nearest to `x`, ties going to the even one.
pub open spec fn nearest(x: nat) -> nat {
    let step = spacing(x);
    let below = (x / step) * step;
    if 2 * (x % step) < step || (2 * (x % step) == step && (x / step) % 2 == 0) {
        below
    } else {
        below + step
    }
}

/// `units` as a count of whole seconds, the rest cut off.
pub open spec fn cut_to_seconds(units: nat) -> nat {
    units / pow2(1074)
}

/// `units` as a count of seconds, halves going up.
pub open spec fn rounded_to_seconds(units: nat) -> nat {
    (units + pow2(1073)) / pow2(1074)
}

proof fn lemma_constants()
    ensures
        pow2(52) == HIDDEN_BIT,
        pow2(53) == SIGNIFICAND_END,
        pow2(63) == SIGN_BIT,
        pow2(64) == 0x1_0000_0000_0000_0000,
        pow2(1) == 2,
        pow2(0) == 1,
{
    lemma2_to64();
    lemma2_to64_rest();
}

proof fn lemma_bits(s: Seconds)
    ensures
        s.bits % SIGN_BIT == s.exponent() * HIDDEN_BIT + s.fraction(),
        s.exponent() < 2048,
        s.fraction() < HIDDEN_BIT,
        s.significand() < SIGNIFICAND_END,
        s.exponent() > 0 ==> s.significand() >= HIDDEN_BIT,
        s.negative() ==> s.bits % SIGN_BIT == s.bits - SIGN_BIT,
        !s.negative() ==> s.bits % SIGN_BIT == s.bits,
{
    let b = s.bits;
    assert(b % 0x8000_0000_0000_0000u64 == ((b / 0x10_0000_0000_0000u64) % 2048)
        * 0x10_0000_0000_0000u64 + b % 0x10_0000_0000_0000u64) by (bit_vector);
}

/// A larger bit pattern below the sign bit is a larger distance from zero.
proof fn lemma_magnitude_order(a: Seconds, b: Seconds)
    requires
        a.bits % SIGN_BIT < b.bits % SIGN_BIT,
    ensures
        a.magnitude() < b.magnitude(),
{
    lemma_bits(a);
    lemma_bits(b);
    lemma_constants();
    let (ea, eb) = (a.exponent(), b.exponent());
    lemma_pow2_pos(a.shift());
    lemma_pow2_pos(b.shift());
    if ea == eb {
        assert(a.significand() < b.significand());
        lemma_mul_strict_inequality(
            a.significand() as int,
            b.significand() as int,
            pow2(a.shift()) as int,
        );
    } else {
        assert(ea < eb) by (nonlinear_arith)
            requires
                ea * HIDDEN_BIT + a.fraction() < eb * HIDDEN_BIT + b.fraction(),
                a.fraction() < HIDDEN_BIT,
                b.fraction() < HIDDEN_BIT,
                ea != eb,
        ;
        if ea == 0 {
            assert(a.magnitude() == a.significand());
            assert(b.magnitude() >= b.significand()) by (nonlinear_arith)
                requires
                    b.magnitude() == b.significand() * pow2(b.shift()),
                    pow2(b.shift()) >= 1,
            ;
        } else {
            let p = pow2(a.shift());
            let gap = (b.shift() - a.shift()) as nat;
            lemma_pow2_adds(a.shift(), gap);
            lemma_pow2_unfold(gap);
            lemma_pow2_pos((gap - 1) as nat);
            assert(pow2(b.shift()) >= 2 * p) by (nonlinear_arith)
                requires
                    pow2(b.shift()) == p * pow2(gap),
                    pow2(gap) >= 2,
                    p >= 1,
            ;
            assert(b.magnitude() >= SIGNIFICAND_END * p) by (nonlinear_arith)
                requires
                    b.magnitude() == b.significand() * pow2(b.shift()),
                    b.significand() >= HIDDEN_BIT,
                    pow2(b.shift()) >= 2 * p,
                    SIGNIFICAND_END == 2 * HIDDEN_BIT,
            ;
            assert(a.magnitude() < SIGNIFICAND_END * p) by (nonlinear_arith)
                requires
                    a.magnitude() == a.significand() * p,
                    a.significand() < SIGNIFICAND_END,
                    p >= 1,
            ;
        }
    }
}

/// One number stands for a count of seconds.
proof fn lemma_stands_once(a: Seconds, b: Seconds, n: nat)
    requires
        stands_for(a, n),
        stands_for(b, n),
    ensures
        a == b,
{
    lemma_bits(a);
    lemma_bits(b);
    if a.bits < b.bits {
        lemma_magnitude_order(a, b);
    } else if b.bits < a.bits {
        lemma_magnitude_order(b, a);
    }
}

proof fn lemma_magnitude_zero(a: Seconds)
    ensures
        a.magnitude() == 0 <==> a.bits % SIGN_BIT == 0,
{
    lemma_bits(a);
    lemma_pow2_pos(a.shift());
    lemma_constants();
    if a.bits % SIGN_BIT == 0 {
        assert(a.exponent() == 0) by (nonlinear_arith)
            requires
                a.exponent() * HIDDEN_BIT + a.fraction() == 0,
        ;
        assert(a.significand() == 0);
        assert(a.magnitude() == 0) by (nonlinear_arith)
            requires
                a.magnitude() == a.significand() * pow2(a.shift()),
                a.significand() == 0,
        ;
    } else {
        assert(a.magnitude() > 0) by (nonlinear_arith)
            requires
                a.magnitude() == a.significand() * pow2(a.shift()),
                pow2(a.shift()) >= 1,
                a.significand() > 0,
        ;
    }
}

impl Seconds {
    /// Zero seconds.
    pub fn zero() -> (result: Seconds)
        ensures
            result.units() == 0,
            result.finite(),
            result.bits == 0,
    {
        let result = Seconds { bits: 0 };
        proof {
            lemma_magnitude_zero(result);
        }
        result
    }

    /// Whether the bits stand for a number.
    pub fn is_finite(self) -> (result: bool)
        ensures
            result == self.finite(),
    {
        (self.bits / HIDDEN_BIT) % 2048 != 2047
    }

    /// Whether this point in time lies before `other`.
    pub fn before(self, other: Seconds) -> (result: bool)
        ensures
            result == (self.units() < other.units()),
    {
        proof {
            lemma_bits(self);
            lemma_bits(other);
            lemma_magnitude_zero(self);
            lemma_magnitude_zero(other);
            if self.bits % SIGN_BIT < other.bits % SIGN_BIT {
                lemma_magnitude_order(self, other);
            } else if self.bits % SIGN_BIT > other.bits % SIGN_BIT {
                lemma_magnitude_order(other, self);
            } else {
                assert(self.exponent() == other.exponent() && self.fraction() == other.fraction())
                    by (nonlinear_arith)
                    requires
                        self.exponent() * HIDDEN_BIT + self.fraction() == other.exponent()
                            * HIDDEN_BIT + other.fraction(),
                        self.fraction() < HIDDEN_BIT,
                        other.fraction() < HIDDEN_BIT,
                ;
            }
        }
        if self.bits < SIGN_BIT {
            other.bits < SIGN_BIT && self.bits < other.bits
        } else if other.bits < SIGN_BIT {
            self.bits != SIGN_BIT || other.bits != 0
        } else {
            self.bits > other.bits
        }
    }
}

/// Halving the argument halves the spacing.
proof fn lemma_nearest_doubles(x: nat)
    ensures
        nearest(2 * x) == 2 * nearest(x),
{
    let step = spacing(x);
    lemma_spacing_positive(x);
    if 2 * x < SIGNIFICAND_END {
        lemma_nearest_small(2 * x);
        lemma_nearest_small(x);
    } else {
        assert((2 * x) / 2 == x);
        assert(spacing(2 * x) == 2 * step);
        let q = x / step;
        let r = x % step;
        lemma_fundamental_div_mod(x as int, step as int);
        assert(2 * x == q * (2 * step) + 2 * r) by (nonlinear_arith)
            requires
                x == step * q + r,
        ;
        lemma_mod_bound(x as int, step as int);
        lemma_fundamental_div_mod_converse((2 * x) as int, (2 * step) as int, q as int, (2 * r) as int);
        assert(q * (2 * step) == 2 * (q * step)) by (nonlinear_arith);
    }
}

/// What a significand can hold is its own nearest number.
proof fn lemma_nearest_small(x: nat)
    requires
        x < SIGNIFICAND_END,
    ensures
        nearest(x) == x,
{
    assert(x / 1 == x && x % 1 == 0 && x * 1 == x);
}

proof fn lemma_spacing_positive(x: nat)
    ensures
        spacing(x) >= 1,
    decreases x,
{
    if x >= SIGNIFICAND_END {
        lemma_spacing_positive(x / 2);
    }
}

proof fn lemma_nearest_scales(p: nat, s: nat)
    ensures
        nearest(p * pow2(s)) == nearest(p) * pow2(s),
    decreases s,
{
    lemma_constants();
    if s == 0 {
        assert(p * pow2(0) == p);
        assert(nearest(p) * pow2(0) == nearest(p));
    } else {
        let h = pow2((s - 1) as nat);
        lemma_pow2_unfold(s);
        lemma_nearest_scales(p, (s - 1) as nat);
        lemma_nearest_doubles(p * h);
        assert(p * pow2(s) == 2 * (p * h)) by (nonlinear_arith)
            requires
                pow2(s) == 2 * h,
        ;
        assert(nearest(p) * pow2(s) == 2 * (nearest(p) * h)) by (nonlinear_arith)
            requires
                pow2(s) == 2 * h,
        ;
    }
}

/// A number that fills the significand exactly has the spacing of its last bit.
proof fn lemma_spacing_exact(x: nat, k: nat)
    requires
        HIDDEN_BIT * pow2(k) <= x < SIGNIFICAND_END * pow2(k),
    ensures
        spacing(x) == pow2(k),
    decreases k,
{
    lemma_constants();
    if k > 0 {
        let h = pow2((k - 1) as nat);
        lemma_pow2_unfold(k);
        lemma_pow2_pos((k - 1) as nat);
        assert(HIDDEN_BIT * pow2(k) == 2 * (HIDDEN_BIT * h)) by (nonlinear_arith)
            requires
                pow2(k) == 2 * h,
        ;
        assert(SIGNIFICAND_END * pow2(k) == 2 * (SIGNIFICAND_END * h)) by (nonlinear_arith)
            requires
                pow2(k) == 2 * h,
        ;
        assert(x >= SIGNIFICAND_END) by (nonlinear_arith)
            requires
                x >= 2 * (HIDDEN_BIT * h),
                h >= 1,
                SIGNIFICAND_END == 2 * HIDDEN_BIT,
        ;
        lemma_spacing_exact(x / 2, (k - 1) as nat);
    }
}

/// 2^`k`.
fn power_of_two(k: u32) -> (result: u128)
    requires
        k <= 127,
    ensures
        result == pow2(k as nat),
{
    proof {
        lemma_constants();
        lemma_power_127();
    }
    let mut result: u128 = 1;
    let mut i: u32 = 0;
    while i < k
        invariant
            i <= k <= 127,
            result == pow2(i as nat),
            pow2(127) < u128::MAX,
        decreases k - i,
    {
        proof {
            lemma_pow2_unfold((i + 1) as nat);
            if i + 1 < 127 {
                lemma_pow2_strictly_increases((i + 1) as nat, 127);
            }
        }
        result = 2 * result;
        i += 1;
    }
    result
}

proof fn lemma_power_127()
    ensures
        pow2(127) == 0x8000_0000_0000_0000_0000_0000_0000_0000,
        pow2(119) == 0x80_0000_0000_0000_0000_0000_0000_0000,
        pow2(118) == 0x40_0000_0000_0000_0000_0000_0000_0000,
        pow2(117) == 0x20_0000_0000_0000_0000_0000_0000_0000,
{
    lemma2_to64();
    lemma2_to64_rest();
    lemma_pow2_adds(64, 63);
    lemma_pow2_adds(64, 55);
    lemma_pow2_adds(64, 54);
    lemma_pow2_adds(64, 53);
}

/// The number with a 53-bit significand that is nearest to `p`, as a count of powers of two.
fn nearest_parts(p: u128) -> (result: (u64, u32))
    requires
        p < 0x40_0000_0000_0000_0000_0000_0000_0000,
    ensures
        result.0 * pow2(result.1 as nat) == nearest(p as nat),
        result.0 <= SIGNIFICAND_END,
        result.1 <= 118,
        p <= u64::MAX ==> result.1 <= 63,
        p > 0 ==> result.0 > 0,
        nearest(p as nat) <= 2 * p,
{
    let mut step: u128 = 1;
    let mut k: u32 = 0;
    let mut high: u128 = p;
    proof {
        assert(p as nat / 1 == p);
        lemma_constants();
        lemma_power_127();
    }
    while high >= SIGNIFICAND_END as u128
        invariant
            p < 0x40_0000_0000_0000_0000_0000_0000_0000,
            step >= 1,
            k <= 118,
            p <= u64::MAX ==> k <= 63,
            step == pow2(k as nat),
            pow2(118) == 0x40_0000_0000_0000_0000_0000_0000_0000,
            pow2(64) == 0x1_0000_0000_0000_0000,
            spacing(p as nat) == step * spacing(high as nat),
            high as nat == p as nat / step as nat,
            p > 0 ==> high > 0,
            step > 1 ==> high >= HIDDEN_BIT,
        decreases high,
    {
        proof {
            lemma_fundamental_div_mod(p as int, step as int);
            lemma_mod_bound(p as int, step as int);
            assert(2 * step <= p) by (nonlinear_arith)
                requires
                    p == step * high + (p as int) % (step as int),
                    (p as int) % (step as int) >= 0,
                    high >= 2,
                    step >= 1,
            ;
            lemma_div_denominator(p as int, step as int, 2);
            lemma_pow2_unfold((k + 1) as nat);
            assert(k + 1 <= 118) by {
                if k + 1 > 118 {
                    if k + 1 > 119 {
                        lemma_pow2_strictly_increases(119, (k + 1) as nat);
                    }
                    lemma_pow2_unfold(119);
                }
            }
            if p <= u64::MAX && k + 1 > 63 {
                lemma_pow2_unfold(64);
                assert(k + 1 == 64);
            }
            assert(step * (2 * spacing((high / 2) as nat)) == (2 * step) * spacing(
                (high / 2) as nat,
            )) by (nonlinear_arith);
        }
        step = 2 * step;
        k = k + 1;
        high = high / 2;
    }
    assert(spacing(high as nat) == 1);
    assert(step * 1 == step);
    proof {
        lemma_fundamental_div_mod(p as int, step as int);
        lemma_mod_bound(p as int, step as int);
        assert(high * step == step * high) by (nonlinear_arith);
        assert((high + 1) * step == high * step + step) by (nonlinear_arith);
        assert(step <= p || step == 1) by (nonlinear_arith)
            requires
                p == step * high + (p as int) % (step as int),
                (p as int) % (step as int) >= 0,
                step > 1 ==> high >= 1,
                step >= 1,
        ;
        if p == 0 {
            assert(step * high <= 0);
            assert(high == 0) by (nonlinear_arith)
                requires
                    step * high <= 0,
                    step >= 1,
                    high >= 0,
            ;
        }
    }
    let below: u128 = high * step;
    let rest: u128 = p - below;
    if 2 * rest < step || (2 * rest == step && high % 2 == 0) {
        (high as u64, k)
    } else {
        proof {
            if step == 1 {
                assert(p as int % 1 == 0);
            }
        }
        (high as u64 + 1, k)
    }
}

/// `n` times 2^`s` units as a count of seconds, halves going up where `half` says so and cut off
/// elsewhere.
fn seconds_of(n: u128, s: u32, half: bool) -> (result: u64)
    requires
        n < 0x80_0000_0000_0000_0000_0000_0000_0000,
        s <= 2046,
    ensures
        half ==> result == saturated(rounded_to_seconds(n as nat * pow2(s as nat))),
        !half ==> result == saturated(cut_to_seconds(n as nat * pow2(s as nat))),
{
    let ghost x = n as nat * pow2(s as nat);
    let ghost extra: nat = if half {
        pow2(1073)
    } else {
        0
    };
    proof {
        lemma_constants();
        lemma_power_127();
        lemma_pow2_pos(1074);
        lemma_pow2_pos(s as nat);
        lemma_pow2_unfold(1074);
        lemma_pow2_pos(1073);
        assert(half ==> rounded_to_seconds(x) == (x + extra) / pow2(1074));
        assert(!half ==> cut_to_seconds(x) == (x + extra) / pow2(1074));
    }
    if s >= 1074 {
        let k: u32 = s - 1074;
        proof {
            lemma_pow2_adds(1074, k as nat);
            lemma_pow2_pos(k as nat);
            let (u, g, m) = (pow2(1074) as int, pow2(k as nat) as int, n as int);
            assert(x == (m * g) * u) by (nonlinear_arith)
                requires
                    x == m * pow2(s as nat),
                    pow2(s as nat) == u * g,
            ;
            assert(m * g >= 0) by (nonlinear_arith)
                requires
                    m >= 0,
                    g >= 1,
            ;
            lemma_fundamental_div_mod_converse((x + extra) as int, u, m * g, extra as int);
        }
        if n == 0 {
            assert(0 * pow2(k as nat) == 0) by (nonlinear_arith);
            return 0;
        }
        if k >= 64 || n > u64::MAX as u128 {
            proof {
                if k > 64 {
                    lemma_pow2_strictly_increases(64, k as nat);
                }
                assert(n * pow2(k as nat) > u64::MAX) by (nonlinear_arith)
                    requires
                        n >= 1,
                        pow2(k as nat) >= 1,
                        n > u64::MAX || pow2(k as nat) >= 0x1_0000_0000_0000_0000,
                ;
            }
            return u64::MAX;
        }
        let g: u128 = power_of_two(k);
        proof {
            lemma_pow2_strictly_increases(k as nat, 64);
            assert(n * g <= u128::MAX) by (nonlinear_arith)
                requires
                    n <= u64::MAX,
                    g < 0x1_0000_0000_0000_0000,
            ;
        }
        let product: u128 = n * g;
        if product > u64::MAX as u128 {
            u64::MAX
        } else {
            product as u64
        }
    } else {
        let t: u32 = 1074 - s;
        let ghost h: nat = if half {
            pow2((t - 1) as nat)
        } else {
            0
        };
        proof {
            lemma_pow2_adds(t as nat, s as nat);
            lemma_pow2_adds((t - 1) as nat, s as nat);
            lemma_pow2_pos(t as nat);
            lemma_pow2_unfold(t as nat);
            let (u, g, m) = (pow2(t as nat) as int, pow2(s as nat) as int, n as int);
            lemma_pow2_pos((t - 1) as nat);
            assert(0 * g == 0) by (nonlinear_arith);
            assert(x + extra == (m + h) * g) by (nonlinear_arith)
                requires
                    x == m * g,
                    extra == h * g,
            ;
            lemma_div_by_multiple(m + h, g);
            assert(g * u == u * g) by (nonlinear_arith);
            assert((m + h) * g >= 0) by (nonlinear_arith)
                requires
                    m >= 0,
                    h >= 0,
                    g >= 1,
            ;
            lemma_div_denominator((m + h) * g, g, u);
        }
        if t > 120 {
            proof {
                if t - 1 > 120 {
                    lemma_pow2_strictly_increases(120, (t - 1) as nat);
                }
                lemma_pow2_unfold(120);
                lemma_basic_div((n + h) as int, pow2(t as nat) as int);
            }
            return 0;
        }
        let added: u128 = if half {
            power_of_two(t - 1)
        } else {
            0
        };
        let whole: u128 = power_of_two(t);
        proof {
            if t - 1 < 119 {
                lemma_pow2_strictly_increases((t - 1) as nat, 119);
            }
        }
        let quotient: u128 = (n + added) / whole;
        if quotient > u64::MAX as u128 {
            u64::MAX
        } else {
            quotient as u64
        }
    }
}

/// The nearest representable number of `p` times 2^`s` units, rounded to whole seconds.
fn round_nearest(p: u128, s: u32) -> (result: u64)
    requires
        p < 0x40_0000_0000_0000_0000_0000_0000_0000,
        s <= 2045,
    ensures
        result == saturated(rounded_to_seconds(nearest(p as nat * pow2(s as nat)))),
{
    let (count, k) = nearest_parts(p);
    let step: u128 = power_of_two(k);
    proof {
        lemma_nearest_scales(p as nat, s as nat);
        lemma_mul_nonnegative(count as int, step as int);
    }
    let n: u128 = count as u128 * step;
    seconds_of(n, s, true)
}

/// The double nearest to a whole number.
pub fn nearest_whole(n: u64) -> (result: u128)
    ensures
        result == nearest(n as nat),
        result <= 2 * n,
{
    let (count, k) = nearest_parts(n as u128);
    let step: u128 = power_of_two(k);
    proof {
        lemma_mul_nonnegative(count as int, step as int);
    }
    count as u128 * step
}

/// What lies far below the last bit of a number is lost when it is taken away.
proof fn lemma_nearest_absorbs(sig: nat, s: nat, taken: nat)
    requires
        HIDDEN_BIT <= sig < SIGNIFICAND_END,
        s >= 2,
        4 * taken < pow2(s),
    ensures
        nearest((sig * pow2(s) - taken) as nat) == sig * pow2(s),
        taken <= sig * pow2(s),
{
    lemma_constants();
    lemma_pow2_unfold(s);
    let q = pow2(s);
    let h = pow2((s - 1) as nat);
    lemma_pow2_pos(s);
    lemma_pow2_pos((s - 1) as nat);
    assert(sig * q >= q) by (nonlinear_arith)
        requires
            sig >= 1,
            q >= 0,
    ;
    let x = (sig * q - taken) as nat;
    if taken == 0 {
        lemma_nearest_scales(sig, s);
        lemma_nearest_small(sig);
    } else if sig > HIDDEN_BIT {
        assert(HIDDEN_BIT * q <= x && x < SIGNIFICAND_END * q && x == (sig - 1) * q + (q - taken))
            by (nonlinear_arith)
            requires
                x == sig * q - taken,
                HIDDEN_BIT + 1 <= sig < SIGNIFICAND_END,
                0 <= taken < q,
        ;
        lemma_spacing_exact(x, s);
        lemma_fundamental_div_mod_converse(x as int, q as int, sig - 1, q - taken);
        assert((sig - 1) * q + q == sig * q) by (nonlinear_arith);
    } else {
        let top = SIGNIFICAND_END as int;
        assert(HIDDEN_BIT * h <= x && x < SIGNIFICAND_END * h && x == (top - 1) * h + (h - taken)
            && top * h == sig * q) by (nonlinear_arith)
            requires
                x == sig * q - taken,
                sig == HIDDEN_BIT,
                top == 2 * HIDDEN_BIT,
                SIGNIFICAND_END == 2 * HIDDEN_BIT,
                q == 2 * h,
                0 < taken < h,
        ;
        lemma_spacing_exact(x, (s - 1) as nat);
        lemma_fundamental_div_mod_converse(x as int, h as int, top - 1, h - taken);
        assert((top - 1) * h + h == top * h) by (nonlinear_arith);
    }
}

impl Seconds {
    /// The significand and the power of two that it counts.
    fn parts(self) -> (result: (u64, u32))
        ensures
            result.0 == self.significand(),
            result.1 == self.shift(),
            result.0 < SIGNIFICAND_END,
            result.1 <= 2046,
            self.finite() ==> result.1 <= 2045,
    {
        proof {
            lemma_bits(self);
        }
        let exponent: u64 = (self.bits / HIDDEN_BIT) % 2048;
        let fraction: u64 = self.bits % HIDDEN_BIT;
        if exponent == 0 {
            (fraction, 0)
        } else {
            (fraction + HIDDEN_BIT, (exponent - 1) as u32)
        }
    }

    /// The number nearest to `n` seconds.
    pub fn from_whole(n: u64) -> (result: Seconds)
        ensures
            result == whole_point(n as nat),
            stands_for(result, n as nat),
    {
        if n == 0 {
            let result = Seconds::zero();
            proof {
                lemma_nearest_small(0);
                assert(0 * pow2(1074) == 0) by (nonlinear_arith);
                assert(stands_for(result, 0));
                lemma_stands_once(result, whole_point(0), 0);
            }
            return result;
        }
        proof {
            lemma_constants();
        }
        let (count, k) = nearest_parts(n as u128);
        let mut m: u64 = count;
        let mut shift: u32 = 1074 + k;
        let ghost target = nearest(n as nat) * pow2(1074);
        proof {
            lemma_pow2_adds(k as nat, 1074);
            assert(count * pow2((1074 + k) as nat) == target) by (nonlinear_arith)
                requires
                    target == (count * pow2(k as nat)) * pow2(1074),
                    pow2((1074 + k) as nat) == pow2(k as nat) * pow2(1074),
            ;
        }
        if m == SIGNIFICAND_END {
            proof {
                lemma_pow2_unfold((shift + 1) as nat);
                assert(HIDDEN_BIT * pow2((shift + 1) as nat) == SIGNIFICAND_END * pow2(
                    shift as nat,
                )) by (nonlinear_arith)
                    requires
                        pow2((shift + 1) as nat) == 2 * pow2(shift as nat),
                        SIGNIFICAND_END == 2 * HIDDEN_BIT,
                ;
            }
            m = HIDDEN_BIT;
            shift = shift + 1;
        }
        let mut doubled: u32 = 0;
        while m < HIDDEN_BIT
            invariant
                0 < m < SIGNIFICAND_END,
                m * pow2(shift as nat) == target,
                shift + doubled >= 1074,
                shift <= 1138,
                doubled <= 52,
                m >= pow2(doubled as nat),
                pow2(52) == HIDDEN_BIT,
            decreases SIGNIFICAND_END - m,
        {
            proof {
                assert(doubled < 52) by {
                    if doubled >= 52 {
                        assert(doubled == 52);
                    }
                }
                lemma_pow2_unfold(shift as nat);
                lemma_pow2_unfold((doubled + 1) as nat);
                assert((2 * m) * pow2((shift - 1) as nat) == m * pow2(shift as nat))
                    by (nonlinear_arith)
                    requires
                        pow2(shift as nat) == 2 * pow2((shift - 1) as nat),
                ;
            }
            m = 2 * m;
            shift = shift - 1;
            doubled = doubled + 1;
        }
        proof {
            assert((shift + 1) * HIDDEN_BIT <= 1139 * HIDDEN_BIT) by (nonlinear_arith)
                requires
                    shift <= 1138,
            ;
        }
        let result = Seconds { bits: (shift as u64 + 1) * HIDDEN_BIT + (m - HIDDEN_BIT) };
        proof {
            lemma_fundamental_div_mod_converse(
                result.bits as int,
                HIDDEN_BIT as int,
                shift + 1,
                m - HIDDEN_BIT,
            );
            assert(result.exponent() == shift + 1);
            assert(stands_for(result, n as nat));
            lemma_stands_once(result, whole_point(n as nat), n as nat);
        }
        result
    }

    /// The whole seconds: zero for a negative number, and at most [`u64::MAX`].
    pub fn whole(self) -> (result: u64)
        requires
            self.finite(),
        ensures
            result == self.whole_seconds(),
    {
        if self.bits >= SIGN_BIT {
            return 0;
        }
        let (significand, shift) = self.parts();
        seconds_of(significand as u128, shift, false)
    }

    /// The number of thousandths of a second, rounded.
    pub fn millis(self) -> (result: u64)
        requires
            self.finite(),
            self.units() >= 0,
        ensures
            result == self.milliseconds(),
    {
        let (significand, shift) = self.parts();
        proof {
            assert((1000 * significand) * pow2(shift as nat) == 1000 * self.magnitude())
                by (nonlinear_arith)
                requires
                    self.magnitude() == significand * pow2(shift as nat),
            ;
        }
        round_nearest(1000 * significand as u128, shift)
    }

    /// The number of millionths of a second, rounded.
    pub fn micros(self) -> (result: u64)
        ensures
            result == self.microseconds(),
    {
        let (significand, shift) = self.parts();
        proof {
            assert((1000000 * significand) * pow2(shift as nat) == 1000000 * self.magnitude())
                by (nonlinear_arith)
                requires
                    self.magnitude() == significand * pow2(shift as nat),
            ;
        }
        seconds_of(1000000 * significand as u128, shift, true)
    }

    /// The length from this point in time to `end`, rounded to whole seconds.
    pub fn span(self, end: Seconds) -> (result: u64)
        requires
            self.finite(),
            end.finite(),
            0 <= self.units() <= end.units(),
        ensures
            result == self.seconds_until(end),
    {
        let (low, low_shift) = self.parts();
        let (high, high_shift) = end.parts();
        proof {
            lemma_constants();
            lemma_power_127();
            lemma_bits(self);
            lemma_bits(end);
            if end.bits % SIGN_BIT < self.bits % SIGN_BIT {
                lemma_magnitude_order(end, self);
            }
            assert(self.exponent() <= end.exponent()) by (nonlinear_arith)
                requires
                    self.exponent() * HIDDEN_BIT + self.fraction() <= end.exponent() * HIDDEN_BIT
                        + end.fraction(),
                    self.fraction() < HIDDEN_BIT,
                    end.fraction() < HIDDEN_BIT,
            ;
            lemma_pow2_adds(low_shift as nat, (high_shift - low_shift) as nat);
            lemma_pow2_pos(low_shift as nat);
        }
        let gap: u32 = high_shift - low_shift;
        if gap <= 64 {
            let g: u128 = power_of_two(gap);
            proof {
                if gap < 64 {
                    lemma_pow2_strictly_increases(gap as nat, 64);
                }
                assert(high * g <= SIGNIFICAND_END * 0x1_0000_0000_0000_0000) by (nonlinear_arith)
                    requires
                        high <= SIGNIFICAND_END,
                        g <= 0x1_0000_0000_0000_0000,
                ;
                let u = pow2(low_shift as nat) as int;
                assert(end.magnitude() == (high * g) * u) by (nonlinear_arith)
                    requires
                        end.magnitude() == high * pow2(high_shift as nat),
                        pow2(high_shift as nat) == u * g,
                ;
                assert(low <= high * g) by (nonlinear_arith)
                    requires
                        low * u <= (high * g) * u,
                        u >= 1,
                ;
                assert(((high * g) - low) * u == end.magnitude() - self.magnitude())
                    by (nonlinear_arith)
                    requires
                        end.magnitude() == (high * g) * u,
                        self.magnitude() == low * u,
                ;
            }
            let difference: u128 = high as u128 * g - low as u128;
            round_nearest(difference, low_shift)
        } else {
            proof {
                let top = (low_shift + 53) as nat;
                lemma_pow2_adds(53, low_shift as nat);
                lemma_pow2_adds(2, top);
                lemma_pow2_strictly_increases((top + 2) as nat, high_shift as nat);
                lemma2_to64();
                assert(4 * self.magnitude() < pow2(high_shift as nat)) by (nonlinear_arith)
                    requires
                        self.magnitude() == low * pow2(low_shift as nat),
                        low < SIGNIFICAND_END,
                        pow2(low_shift as nat) >= 1,
                        pow2(top) == SIGNIFICAND_END * pow2(low_shift as nat),
                        pow2((top + 2) as nat) == 4 * pow2(top),
                        pow2((top + 2) as nat) < pow2(high_shift as nat),
                ;
                lemma_nearest_absorbs(high as nat, high_shift as nat, self.magnitude());
                lemma_nearest_scales(high as nat, high_shift as nat);
                lemma_nearest_small(high as nat);
            }
            round_nearest(high as u128, high_shift)
        }
    }
}

/// Cutting to seconds leaves less than a second out, and rounding leaves out or adds half a second
/// at most, halves going up.
pub proof fn lemma_cut_and_rounded(units: nat)
    ensures
        cut_to_seconds(units) * pow2(1074) <= units < (cut_to_seconds(units) + 1) * pow2(1074),
        2 * rounded_to_seconds(units) * pow2(1074) <= 2 * units + pow2(1074),
        2 * units < (2 * rounded_to_seconds(units) + 1) * pow2(1074),
{
    let (second, half) = (pow2(1074), pow2(1073));
    lemma_pow2_pos(1073);
    lemma_pow2_unfold(1074);
    assert(second == 2 * half);
    let (cut, rounded) = (cut_to_seconds(units), rounded_to_seconds(units));
    lemma_fundamental_div_mod(units as int, second as int);
    lemma_fundamental_div_mod((units + half) as int, second as int);
    lemma_mod_bound(units as int, second as int);
    lemma_mod_bound((units + half) as int, second as int);
    assert(cut * second <= units < (cut + 1) * second && 2 * rounded * second <= 2 * units + second
        && 2 * units < (2 * rounded + 1) * second) by (nonlinear_arith)
        requires
            units == second * cut + units % second,
            units + half == second * rounded + (units + half) as nat % second,
            0 <= units % second < second,
            0 <= (units + half) as nat % second < second,
            second == 2 * half,
    ;
}

/// What is not negative and small enough is cut to the second that has begun; what is negative counts
/// as no time at all.
pub proof fn lemma_whole_seconds(point: Seconds)
    ensures
        point.bits < SIGN_BIT ==> point.whole_seconds() * pow2(1074) <= point.magnitude(),
        point.bits < SIGN_BIT && point.magnitude() < u64::MAX * pow2(1074) ==> point.magnitude() < (
        point.whole_seconds() + 1) * pow2(1074),
        point.bits >= SIGN_BIT ==> point.whole_seconds() == 0,
{
    let m = point.magnitude();
    lemma_cut_and_rounded(m);
    lemma_pow2_pos(1074);
    let (cut, second) = (cut_to_seconds(m), pow2(1074));
    if cut > u64::MAX {
        assert(u64::MAX * second <= cut * second) by (nonlinear_arith)
            requires
                cut > u64::MAX,
                second > 0,
        ;
    }
}

/// A number with a significand of 53 bits is its own nearest one; of any other the nearest one is at
/// most half a step away, and lies on a step.
pub proof fn lemma_nearest(x: nat)
    ensures
        x < SIGNIFICAND_END ==> nearest(x) == x,
        spacing(x) > 0,
        nearest(x) % spacing(x) == 0,
        2 * nearest(x) <= 2 * x + spacing(x),
        2 * x <= 2 * nearest(x) + spacing(x),
        x >= SIGNIFICAND_END ==> spacing(x) * HIDDEN_BIT <= x < spacing(x) * SIGNIFICAND_END,
    decreases x,
{
    lemma_spacing_positive(x);
    let step = spacing(x);
    let below = (x / step) * step;
    lemma_fundamental_div_mod(x as int, step as int);
    lemma_mod_bound(x as int, step as int);
    lemma_mul_is_commutative((x / step) as int, step as int);
    if x < SIGNIFICAND_END {
        lemma_nearest_small(x);
    } else {
        lemma_nearest(x / 2);
    }
    lemma_mod_multiples_basic((x / step) as int, step as int);
    lemma_mod_multiples_basic((x / step) as int + 1, step as int);
    assert(below + step == (x / step + 1) * step) by (nonlinear_arith)
        requires
            below == (x / step) * step,
    ;
}

/// The bits of a number of seconds are its sign, its exponent and its fraction, one after another.
pub proof fn lemma_bits_told_apart(point: Seconds)
    ensures
        point.bits == (if point.negative() {
            SIGN_BIT as int
        } else {
            0
        }) + point.exponent() * HIDDEN_BIT + point.fraction(),
        point.exponent() < 2048,
        point.fraction() < HIDDEN_BIT,
        point.exponent() > 0 ==> HIDDEN_BIT <= point.significand() < SIGNIFICAND_END,
{
    lemma_bits(point);
}

/// The time between two points is the difference of the two, rounded to whole seconds; a negative
/// one counts backwards.
pub proof fn lemma_time_between(start: Seconds, end: Seconds)
    requires
        start.magnitude() <= end.magnitude() < u64::MAX * pow2(1073),
    ensures
        ({
            let length = (end.magnitude() - start.magnitude()) as nat;
            let near = nearest(length);
            &&& 2 * start.seconds_until(end) * pow2(1074) <= 2 * near + pow2(1074)
            &&& 2 * near < (2 * start.seconds_until(end) + 1) * pow2(1074)
            &&& 2 * near <= 2 * length + spacing(length)
            &&& 2 * length <= 2 * near + spacing(length)
        }),
{
    let length = (end.magnitude() - start.magnitude()) as nat;
    let near = nearest(length);
    lemma_nearest(length);
    lemma_cut_and_rounded(near);
    lemma_pow2_pos(1073);
    lemma_pow2_unfold(1074);
    let (rounded, second, half) = (rounded_to_seconds(near), pow2(1074), pow2(1073));
    let step = spacing(length);
    assert(rounded <= u64::MAX) by (nonlinear_arith)
        requires
            2 * rounded * second <= 2 * near + second,
            2 * near <= 2 * length + step,
            step <= length || step == 1,
            length < u64::MAX * half,
            second == 2 * half,
            half > 0,
    ;
}

/// A point in time in thousandths and in millionths of a second is the nearest count of them, the
/// thousandths being taken of the nearest product.
pub proof fn lemma_parts_of_seconds(point: Seconds)
    ensures
        ({
            let near = nearest(1000 * point.magnitude());
            let micros = 1000000 * point.magnitude();
            &&& rounded_to_seconds(near) <= u64::MAX ==> 2 * point.milliseconds() * pow2(1074) <= 2
                * near + pow2(1074) && 2 * near < (2 * point.milliseconds() + 1) * pow2(1074)
            &&& rounded_to_seconds(micros) <= u64::MAX ==> 2 * point.microseconds() * pow2(1074)
                <= 2 * micros + pow2(1074) && 2 * micros < (2 * point.microseconds() + 1) * pow2(
                1074,
            )
        }),
{
    lemma_cut_and_rounded(nearest(1000 * point.magnitude()));
    lemma_cut_and_rounded(1000000 * point.magnitude());
}

} // verus!
