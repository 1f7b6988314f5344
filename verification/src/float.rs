//! IEEE 754 numbers carried by their bit patterns, and the few exact facts the library needs of
//! them.
use vstd::arithmetic::power2::{
    lemma2_to64, lemma_pow2_adds, lemma_pow2_pos, lemma_pow2_strictly_increases, pow2,
};
use vstd::prelude::*;

verus! {

/// A single-precision number, by its bit pattern (`f32::to_bits`).
#[derive(Clone, Copy, Debug, PartialEq, Eq, Structural)]
pub struct Real32 {
    pub bits: u32,
}

/// A double-precision number, by its bit pattern (`f64::to_bits`).
#[derive(Clone, Copy, Debug, PartialEq, Eq, Structural)]
pub struct Real64 {
    pub bits: u64,
}

/// The bits of the double `0.0`.
pub const ZERO_BITS: u64 = 0;

/// The bits of the double `1.0`.
pub const ONE_BITS: u64 = 0x3ff0_0000_0000_0000;

/// The bits of the double `1e-5`, the normalisation epsilon.
pub const EPSILON_BITS: u64 = 0x3ee4_f8b5_88e3_68f1;

impl Real32 {
    /// The sign bit is set.
    pub open spec fn negative(self) -> bool {
        self.bits >= 0x8000_0000
    }

    /// The biased exponent, `0..=255`.
    pub open spec fn exponent(self) -> nat {
        (self.bits as nat / 0x80_0000) % 256
    }

    /// The 23 stored significand bits.
    pub open spec fn fraction(self) -> nat {
        self.bits as nat % 0x80_0000
    }

    pub open spec fn is_nan(self) -> bool {
        self.exponent() == 255 && self.fraction() != 0
    }

    pub open spec fn is_infinite(self) -> bool {
        self.exponent() == 255 && self.fraction() == 0
    }

    /// The significand of a finite number, with its leading bit.
    pub open spec fn significand(self) -> nat {
        if self.exponent() == 0 {
            self.fraction()
        } else {
            0x80_0000 + self.fraction()
        }
    }

    /// The magnitude of a finite number in units of `2^-149`, in which every one is an integer.
    pub open spec fn units(self) -> nat {
        self.significand() * pow2((if self.exponent() == 0 {
            0
        } else {
            self.exponent() - 1
        }) as nat)
    }

    /// The number is greater than one. A NaN is not.
    pub open spec fn above_one(self) -> bool {
        !self.negative() && !self.is_nan() && (self.is_infinite() || self.units() > pow2(149))
    }

    /// The numbers above one, by their bits.
    pub proof fn lemma_above_one(self)
        ensures
            self.above_one() <==> 0x3f80_0000 < self.bits <= 0x7f80_0000,
    {
        let b = self.bits as nat;
        let e = b / 0x80_0000;
        let m = b % 0x80_0000;
        if b < 0x8000_0000 {
            assert(self.exponent() == e);
            if e >= 255 {
            } else if e == 0 {
                assert(pow2(0) == 1) by {
                    lemma2_to64();
                }
                lemma_pow2_strictly_increases(23, 149);
                assert(pow2(23) == 0x80_0000) by {
                    lemma2_to64();
                }
                assert(m * pow2(0) == m) by (nonlinear_arith)
                    requires
                        pow2(0) == 1,
                ;
                assert(self.units() == m);
            } else {
                let p = (e - 1) as nat;
                let s = 0x80_0000 + m;
                assert(self.units() == s * pow2(p));
                lemma_pow2_adds(23, 126);
                assert(pow2(23) == 0x80_0000) by {
                    lemma2_to64();
                }
                assert(pow2(24) == 0x100_0000) by {
                    lemma2_to64();
                }
                lemma_pow2_pos(p);
                if e < 127 {
                    lemma_pow2_adds(24, 125);
                    if p < 125 {
                        lemma_pow2_strictly_increases(p, 125);
                    }
                    assert(s * pow2(p) < pow2(24) * pow2(125)) by (nonlinear_arith)
                        requires
                            s < pow2(24),
                            pow2(p) <= pow2(125),
                            pow2(p) > 0,
                    ;
                } else if e == 127 {
                    assert(s * pow2(126) > pow2(23) * pow2(126) <==> m > 0) by (nonlinear_arith)
                        requires
                            s == pow2(23) + m,
                            pow2(126) > 0,
                    {
                        lemma_pow2_pos(126);
                    }
                } else {
                    lemma_pow2_strictly_increases(126, p);
                    assert(s * pow2(p) > pow2(23) * pow2(126)) by (nonlinear_arith)
                        requires
                            s >= pow2(23),
                            pow2(23) > 0,
                            pow2(p) > pow2(126),
                    ;
                }
            }
        }
    }

    /// Whether the number is greater than one.
    pub fn exceeds_one(self) -> (r: bool)
        ensures
            r == self.above_one(),
    {
        proof {
            self.lemma_above_one();
        }
        0x3f80_0000 < self.bits && self.bits <= 0x7f80_0000
    }
}

/// The bits that `n` has beyond `p`.
pub open spec fn excess(n: nat, p: nat) -> nat
    decreases n,
{
    if n == 0 || n < pow2(p) {
        0
    } else {
        1 + excess(n / 2, p)
    }
}

/// `n` rounded to `p` significant bits, a tie to the even neighbour: what an IEEE 754 operation of
/// that precision makes of an exact result, in any unit that is a power of two.
pub open spec fn rounded(n: nat, p: nat) -> nat {
    let d = pow2(excess(n, p));
    let q = n / d;
    let rest = n % d;
    if 2 * rest > d || (2 * rest == d && q % 2 == 1) {
        (q + 1) * d
    } else {
        q * d
    }
}

/// Rounding in units of `d`.
proof fn lemma_parts(n: nat, d: nat)
    requires
        d > 0,
    ensures
        n == (n / d) * d + n % d,
        0 <= n % d < d,
        (n / d + 1) * d == (n / d) * d + d,
{
    vstd::arithmetic::div_mod::lemma_fundamental_div_mod(n as int, d as int);
    let q = n / d;
    assert(d * q == q * d) by (nonlinear_arith);
    assert((q + 1) * d == q * d + d) by (nonlinear_arith);
}

/// A number of at most `p` bits is kept.
pub proof fn lemma_short_is_exact(n: nat, p: nat)
    requires
        n < pow2(p),
    ensures
        rounded(n, p) == n,
{
    lemma2_to64();
    assert(pow2(0) == 1);
    lemma_parts(n, 1);
    assert(n * 1 == n);
}

/// The rounding unit is no more than the number, which has `p` bits above it.
pub proof fn lemma_excess(n: nat, p: nat)
    requires
        n > 0,
        p >= 1,
    ensures
        pow2(excess(n, p)) <= n,
        n < pow2(p + excess(n, p)),
        excess(n, p) > 0 ==> pow2((p + excess(n, p) - 1) as nat) <= n,
    decreases n,
{
    lemma2_to64();
    if n >= pow2(p) {
        if p > 1 {
            lemma_pow2_strictly_increases(1, p);
        }
        let e = excess(n / 2, p);
        assert(excess(n, p) == 1 + e);
        lemma_excess(n / 2, p);
        vstd::arithmetic::power2::lemma_pow2_unfold(1 + e);
        vstd::arithmetic::power2::lemma_pow2_unfold(p + e + 1);
        if e > 0 {
            vstd::arithmetic::power2::lemma_pow2_unfold(p + e);
        }
    }
}

/// Rounding moves a number by no more than a unit, and never doubles it.
pub proof fn lemma_rounded_bounds(n: nat, p: nat)
    requires
        p >= 1,
    ensures
        ({
            let d = pow2(excess(n, p));
            &&& d > 0
            &&& (n / d) * d <= rounded(n, p) <= (n / d) * d + d
            &&& (n / d) * d <= n < (n / d) * d + d
        }),
        rounded(n, p) <= 2 * n,
{
    let d = pow2(excess(n, p));
    lemma_pow2_pos(excess(n, p));
    lemma_parts(n, d);
    lemma_pow2_pos(p);
    if n < pow2(p) {
        lemma_short_is_exact(n, p);
    } else {
        lemma_excess(n, p);
    }
}

/// Twice the number is rounded to twice the result.
proof fn lemma_rounded_doubles(n: nat, p: nat)
    requires
        p >= 1,
    ensures
        rounded(2 * n, p) == 2 * rounded(n, p),
{
    lemma_pow2_pos(p);
    if 2 * n < pow2(p) {
        lemma_short_is_exact(n, p);
        lemma_short_is_exact(2 * n, p);
    } else {
        let e = excess(n, p);
        let d = pow2(e);
        assert((2 * n) / 2 == n);
        assert(excess(2 * n, p) == 1 + e);
        vstd::arithmetic::power2::lemma_pow2_unfold(1 + e);
        lemma_pow2_pos(e);
        lemma_parts(n, d);
        let q = n / d;
        let rest = n % d;
        assert(2 * n == (2 * d) * q + 2 * rest) by (nonlinear_arith)
            requires
                n == q * d + rest,
        ;
        vstd::arithmetic::div_mod::lemma_fundamental_div_mod_converse(
            (2 * n) as int,
            (2 * d) as int,
            q as int,
            (2 * rest) as int,
        );
        assert((q + 1) * (2 * d) == 2 * ((q + 1) * d)) by (nonlinear_arith);
        assert(q * (2 * d) == 2 * (q * d)) by (nonlinear_arith);
    }
}

/// A power of two scales the number and its rounding alike.
pub proof fn lemma_rounded_scales(n: nat, j: nat, p: nat)
    requires
        p >= 1,
    ensures
        rounded(n * pow2(j), p) == rounded(n, p) * pow2(j),
    decreases j,
{
    lemma2_to64();
    if j == 0 {
        assert(n * 1 == n && rounded(n, p) * 1 == rounded(n, p));
    } else {
        let h = pow2((j - 1) as nat);
        vstd::arithmetic::power2::lemma_pow2_unfold(j);
        lemma_rounded_scales(n, (j - 1) as nat, p);
        lemma_rounded_doubles(n * h, p);
        assert(n * (2 * h) == 2 * (n * h)) by (nonlinear_arith);
        let r = rounded(n, p);
        assert(r * (2 * h) == 2 * (r * h)) by (nonlinear_arith);
    }
}

/// Rounding keeps the order of numbers.
pub proof fn lemma_rounded_is_monotone(n: nat, m: nat, p: nat)
    requires
        p >= 1,
        n <= m,
    ensures
        rounded(n, p) <= rounded(m, p),
{
    let (en, em) = (excess(n, p), excess(m, p));
    let (dn, dm) = (pow2(en), pow2(em));
    lemma_rounded_bounds(n, p);
    lemma_rounded_bounds(m, p);
    lemma_parts(n, dn);
    lemma_parts(m, dm);
    lemma_excess_is_monotone(n, m, p);
    let (qn, qm) = (n / dn, m / dm);
    if en == em {
        vstd::arithmetic::div_mod::lemma_div_is_ordered(n as int, m as int, dn as int);
        if qn < qm {
            assert(qn * dn + dn <= qm * dn) by (nonlinear_arith)
                requires
                    qn + 1 <= qm,
                    dn > 0,
            ;
        }
    } else if n > 0 {
        lemma_excess(n, p);
        lemma_excess(m, p);
        // The smaller number has at most `p + en` bits, the larger one more.
        lemma_rounded_bits(n, p);
        if p + en < p + em - 1 {
            lemma_pow2_strictly_increases(p + en, (p + em - 1) as nat);
        }
        lemma_rounded_floor(m, p);
    } else {
        lemma_pow2_pos(p);
        lemma_short_is_exact(n, p);
    }
}

proof fn lemma_excess_is_monotone(n: nat, m: nat, p: nat)
    requires
        n <= m,
    ensures
        excess(n, p) <= excess(m, p),
    decreases m,
{
    if n != 0 && n >= pow2(p) {
        lemma_excess_is_monotone(n / 2, m / 2, p);
    }
}

/// A rounded number has no more bits, but for the next power of two.
proof fn lemma_rounded_bits(n: nat, p: nat)
    requires
        n > 0,
        p >= 1,
    ensures
        rounded(n, p) <= pow2(p + excess(n, p)),
{
    let e = excess(n, p);
    let d = pow2(e);
    lemma_rounded_bounds(n, p);
    lemma_excess(n, p);
    lemma_pow2_adds(p, e);
    let q = n / d;
    lemma_parts(n, d);
    assert(q < pow2(p)) by (nonlinear_arith)
        requires
            q * d <= n,
            n < pow2(p) * d,
            d > 0,
    ;
    assert(q * d + d <= pow2(p) * d) by (nonlinear_arith)
        requires
            q + 1 <= pow2(p),
            d > 0,
    ;
}

/// Rounding a number of more than `p` bits keeps its leading one.
proof fn lemma_rounded_floor(m: nat, p: nat)
    requires
        m > 0,
        p >= 1,
        excess(m, p) > 0,
    ensures
        pow2((p + excess(m, p) - 1) as nat) <= rounded(m, p),
{
    let e = excess(m, p);
    let d = pow2(e);
    lemma_rounded_bounds(m, p);
    lemma_excess(m, p);
    lemma_parts(m, d);
    let q = m / d;
    let lead = pow2((p - 1) as nat);
    lemma_pow2_adds((p - 1) as nat, e);
    assert(lead <= q) by (nonlinear_arith)
        requires
            lead * d <= m,
            m < q * d + d,
            d > 0,
    ;
    assert(lead * d <= q * d) by (nonlinear_arith)
        requires
            lead <= q,
            d > 0,
    ;
}

/// `n` rounded to `p` significant bits; `top` is the power of two of that many bits.
pub(crate) fn round_to(n: u128, top: u128, p: Ghost<nat>) -> (r: u128)
    requires
        p@ >= 1,
        top == pow2(p@),
        n <= 0xffff_ffff_ffff_ffff_ffff_ffff_ffff,
    ensures
        r == rounded(n as nat, p@),
        r <= 2 * n,
{
    let mut d: u128 = 1;
    let ghost mut i: nat = 0;
    proof {
        lemma2_to64();
        lemma_pow2_pos(p@);
        assert(n as int / 1 == n);
    }
    while n / d >= top
        invariant
            d > 0,
            top > 0,
            top == pow2(p@),
            d == pow2(i),
            d <= 2 * n || d == 1,
            n <= 0xffff_ffff_ffff_ffff_ffff_ffff_ffff,
            excess(n as nat, p@) == i + excess((n / d) as nat, p@),
        decreases 2 * n - d,
    {
        proof {
            let h = n / d;
            vstd::arithmetic::div_mod::lemma_div_denominator(n as int, d as int, 2);
            vstd::arithmetic::power2::lemma_pow2_unfold(i + 1);
            lemma_parts(n as nat, d as nat);
            assert(h * d >= d) by (nonlinear_arith)
                requires
                    h >= 1,
                    d > 0,
            ;
            assert(d * 2 == 2 * d);
            i = i + 1;
        }
        d = d * 2;
    }
    proof {
        lemma_rounded_bounds(n as nat, p@);
        lemma_parts(n as nat, d as nat);
    }
    let q: u128 = n / d;
    let rest: u128 = n % d;
    if 2 * rest > d || (2 * rest == d && q % 2 == 1) {
        (q + 1) * d
    } else {
        q * d
    }
}

/// The power of two `2^k`.
fn power_of_two(k: u32) -> (r: u128)
    requires
        k <= 110,
    ensures
        r == pow2(k as nat),
        r <= 0x4000_0000_0000_0000_0000_0000_0000,
{
    proof {
        lemma2_to64();
        lemma_pow2_adds(32, 14);
        lemma_pow2_adds(64, 46);
    }
    let mut r: u128 = 1;
    let mut i: u32 = 0;
    while i < k
        invariant
            i <= k <= 110,
            r == pow2(i as nat),
            pow2(110) == 0x4000_0000_0000_0000_0000_0000_0000,
        decreases k - i,
    {
        proof {
            vstd::arithmetic::power2::lemma_pow2_unfold((i + 1) as nat);
            if i + 1 < 110 {
                lemma_pow2_strictly_increases((i + 1) as nat, 110);
            }
        }
        r = r * 2;
        i += 1;
    }
    proof {
        if k < 110 {
            lemma_pow2_strictly_increases(k as nat, 110);
        }
    }
    r
}

impl Real32 {
    /// The number, brought into `[0, 1]`, in units of `2^-149`. A NaN counts as zero.
    pub open spec fn clamped_units(self) -> nat {
        if self.is_nan() || self.negative() {
            0
        } else if self.above_one() {
            pow2(149)
        } else {
            self.units()
        }
    }
}

/// The steps of a schedule of `steps` that is run at a strength: their product in double precision,
/// rounded to the nearest whole number, a half upwards.
pub open spec fn partial_steps(steps: nat, strength: Real32) -> nat {
    let product = rounded(rounded(steps, 53) * strength.clamped_units(), 53);
    (2 * product + pow2(149)) / pow2(150)
}

/// The rounding of a product whose unit is `2^-149`, from one without its trailing power of two.
proof fn lemma_nearest(r: nat, j: nat, k: nat)
    requires
        j + k == 149,
    ensures
        (2 * (r * pow2(j)) + pow2(149)) / pow2(150) == (2 * r + pow2(k)) / pow2(k + 1),
{
    lemma_pow2_adds(j, k);
    lemma_pow2_adds(j, k + 1);
    lemma_pow2_pos(j);
    lemma_pow2_pos(k + 1);
    let (a, b, c) = (pow2(j), pow2(k), pow2(k + 1));
    let x = 2 * r + b;
    assert(2 * (r * a) + a * b == a * x) by (nonlinear_arith)
        requires
            x == 2 * r + b,
    ;
    vstd::arithmetic::div_mod::lemma_div_denominator((a * x) as int, a as int, c as int);
    assert((a * x) as int / a as int == x) by {
        vstd::arithmetic::div_mod::lemma_div_multiples_vanish(x as int, a as int);
    }
}

/// The steps of a schedule of `steps` that is run at a strength.
pub fn effective_steps(steps: usize, strength: Real32) -> (r: usize)
    ensures
        ({
            let n = partial_steps(steps as nat, strength);
            r == if n <= usize::MAX {
                n
            } else {
                usize::MAX as nat
            }
        }),
{
    proof {
        lemma2_to64();
        strength.lemma_above_one();
        lemma_pow2_adds(32, 21);
        lemma_pow2_adds(32, 4);
        lemma_pow2_adds(64, 36);
        lemma_pow2_pos(149);
        vstd::arithmetic::power2::lemma_pow2_unfold(150);
    }
    if strength.bits >= 0x8000_0000 || strength.bits > 0x7f80_0000 {
        proof {
            let m = rounded(steps as nat, 53);
            assert(strength.negative() || strength.is_nan());
            assert(m * 0 == 0);
            lemma_short_is_exact(0, 53);
            assert((2 * 0 + pow2(149)) / pow2(150) == 0) by {
                vstd::arithmetic::div_mod::lemma_small_mod(pow2(149), pow2(150));
                vstd::arithmetic::div_mod::lemma_basic_div(pow2(149) as int, pow2(150) as int);
            }
        }
        return 0;
    }
    let e: u32 = strength.bits / 0x80_0000;
    let fraction: u32 = strength.bits % 0x80_0000;
    let (f, j): (u32, u32) = if strength.exceeds_one() {
        (0x80_0000, 126)
    } else if e == 0 {
        (fraction, 0)
    } else {
        (0x80_0000 + fraction, e - 1)
    };
    let k: u32 = 149 - j;
    let double: u128 = 0x20_0000_0000_0000;
    assert(double == pow2(53));
    let m: u128 = round_to(steps as u128, double, Ghost(53));
    let ghost u = strength.clamped_units();
    proof {
        if strength.above_one() {
            lemma_pow2_adds(23, 126);
        }
        assert(u == f as nat * pow2(j as nat));
        assert(m * f <= 0x2_0000_0000_0000_0000 * 0x100_0000) by (nonlinear_arith)
            requires
                m <= 0x2_0000_0000_0000_0000,
                f <= 0x100_0000,
        ;
    }
    let product: u128 = round_to(m * f as u128, double, Ghost(53));
    proof {
        lemma_rounded_scales((m * f) as nat, j as nat, 53);
        assert(m as nat * (f as nat * pow2(j as nat)) == (m * f) as nat * pow2(j as nat))
            by (nonlinear_arith);
        lemma_nearest(product as nat, j as nat, k as nat);
        lemma_pow2_pos(k as nat);
        vstd::arithmetic::power2::lemma_pow2_unfold((k + 1) as nat);
    }
    let n: u128 = if k >= 100 {
        proof {
            // The product is far below one half.
            if k > 100 {
                lemma_pow2_strictly_increases(100, k as nat);
            }
            assert((2 * product + pow2(k as nat)) as int / pow2((k + 1) as nat) as int == 0) by {
                vstd::arithmetic::div_mod::lemma_basic_div(
                    2 * product + pow2(k as nat),
                    pow2((k + 1) as nat) as int,
                );
            }
        }
        0
    } else {
        let half: u128 = power_of_two(k);
        (2 * product + half) / (2 * half)
    };
    if n > usize::MAX as u128 {
        usize::MAX
    } else {
        n as usize
    }
}

/// The number of single precision for four.
pub const FOUR_BITS: u32 = 0x4080_0000;

/// A width times a ratio in single precision, without its fraction, as far as a machine word goes. A
/// NaN, which an infinite ratio makes of no width, and a negative ratio give none.
pub open spec fn scaled_width(ratio: Real32, width: nat) -> nat {
    if ratio.is_nan() || ratio.negative() || (ratio.is_infinite() && width == 0) {
        0
    } else if ratio.is_infinite() {
        usize::MAX as nat
    } else {
        let n = rounded(rounded(width, 24) * ratio.units(), 24) / pow2(149);
        if n <= usize::MAX {
            n
        } else {
            usize::MAX as nat
        }
    }
}

/// A product whose unit is `2^-149` without its fraction, from one without its trailing power of two.
proof fn lemma_whole(r: nat, j: nat)
    ensures
        j <= 149 ==> (r * pow2(j)) / pow2(149) == r / pow2((149 - j) as nat),
        j > 149 ==> (r * pow2(j)) / pow2(149) == r * pow2((j - 149) as nat),
{
    lemma_pow2_pos(j);
    lemma_pow2_pos(149);
    if j <= 149 {
        let k = (149 - j) as nat;
        lemma_pow2_adds(j, k);
        lemma_pow2_pos(k);
        vstd::arithmetic::div_mod::lemma_div_denominator(
            (r * pow2(j)) as int,
            pow2(j) as int,
            pow2(k) as int,
        );
        assert((r * pow2(j)) as int / pow2(j) as int == r) by {
            vstd::arithmetic::div_mod::lemma_div_by_multiple(r as int, pow2(j) as int);
        }
    } else {
        let k = (j - 149) as nat;
        lemma_pow2_adds(k, 149);
        assert(r * (pow2(k) * pow2(149)) == (r * pow2(k)) * pow2(149)) by (nonlinear_arith);
        vstd::arithmetic::div_mod::lemma_div_by_multiple((r * pow2(k)) as int, pow2(149) as int);
    }
}

/// A width times a ratio, without its fraction.
pub fn scale_width(ratio: Real32, width: usize) -> (r: usize)
    ensures
        r == scaled_width(ratio, width as nat),
{
    if ratio.bits > 0x7f80_0000 {
        return 0;
    }
    if ratio.bits == 0x7f80_0000 {
        return if width == 0 {
            0
        } else {
            usize::MAX
        };
    }
    let e: u32 = ratio.bits / 0x80_0000;
    let fraction: u32 = ratio.bits % 0x80_0000;
    let (f, j): (u32, u32) = if e == 0 {
        (fraction, 0)
    } else {
        (0x80_0000 + fraction, e - 1)
    };
    proof {
        lemma2_to64();
        lemma_pow2_adds(32, 4);
        lemma_pow2_adds(64, 36);
        assert(ratio.units() == f as nat * pow2(j as nat));
    }
    let single: u128 = 0x100_0000;
    assert(single == pow2(24));
    let m: u128 = round_to(width as u128, single, Ghost(24));
    proof {
        assert(m * f <= 0x2_0000_0000_0000_0000 * 0x100_0000) by (nonlinear_arith)
            requires
                m <= 0x2_0000_0000_0000_0000,
                f <= 0x100_0000,
        ;
    }
    let product: u128 = round_to(m * f as u128, single, Ghost(24));
    proof {
        lemma_rounded_scales((m * f) as nat, j as nat, 24);
        assert(m as nat * (f as nat * pow2(j as nat)) == (m * f) as nat * pow2(j as nat))
            by (nonlinear_arith);
        lemma_whole(product as nat, j as nat);
    }
    if product == 0 {
        proof {
            if j <= 149 {
                lemma_pow2_pos((149 - j) as nat);
                vstd::arithmetic::div_mod::lemma_basic_div(0, pow2((149 - j) as nat) as int);
            }
            assert(0 * pow2((j - 149) as nat) == 0);
        }
        return 0;
    }
    let n: u128 = if j <= 49 {
        proof {
            // The product is far below one.
            if j < 49 {
                lemma_pow2_strictly_increases(100, (149 - j) as nat);
            }
            vstd::arithmetic::div_mod::lemma_basic_div(
                product as int,
                pow2((149 - j) as nat) as int,
            );
        }
        0
    } else if j <= 149 {
        let d: u128 = power_of_two(149 - j);
        proof {
            lemma_pow2_pos((149 - j) as nat);
        }
        product / d
    } else {
        let k: u32 = j - 149;
        let ghost top = pow2(k as nat);
        proof {
            lemma_pow2_pos(k as nat);
            if k > 64 {
                lemma_pow2_strictly_increases(64, k as nat);
            } else if k < 64 {
                lemma_pow2_strictly_increases(k as nat, 64);
            }
            assert(product * top >= top && product * top >= product) by (nonlinear_arith)
                requires
                    product >= 1,
                    top >= 1,
            ;
        }
        if k >= 64 || product > 0xffff_ffff_ffff_ffff {
            return usize::MAX;
        }
        let d: u128 = power_of_two(k);
        proof {
            assert(product * d <= 0xffff_ffff_ffff_ffff * 0x1_0000_0000_0000_0000)
                by (nonlinear_arith)
                requires
                    product <= 0xffff_ffff_ffff_ffff,
                    d <= 0x1_0000_0000_0000_0000,
            ;
        }
        product * d
    };
    if n > usize::MAX as u128 {
        usize::MAX
    } else {
        n as usize
    }
}

/// Four times a width that single precision holds is exact.
pub proof fn lemma_four_times(width: nat)
    requires
        width < pow2(24),
    ensures
        scaled_width((Real32 { bits: FOUR_BITS }), width) == 4 * width,
{
    let four = Real32 { bits: FOUR_BITS };
    lemma2_to64();
    assert(four.exponent() == 129 && four.fraction() == 0);
    lemma_pow2_adds(23, 128);
    assert(four.units() == pow2(151));
    lemma_short_is_exact(width, 24);
    lemma_rounded_scales(width, 151, 24);
    lemma_whole(width, 151);
    assert(rounded(rounded(width, 24) * four.units(), 24) == width * pow2(151));
    assert(width * pow2(2) == 4 * width) by (nonlinear_arith)
        requires
            pow2(2) == 4,
    ;
}

/// A strength of zero or less runs no step, and a strength of one or more runs every step, for any
/// number of steps that a double holds.
pub proof fn law_strength_ends(steps: nat, strength: Real32)
    requires
        steps < pow2(53),
    ensures
        strength.clamped_units() == 0 ==> partial_steps(steps, strength) == 0,
        strength.clamped_units() == pow2(149) ==> partial_steps(steps, strength) == steps,
{
    lemma2_to64();
    lemma_pow2_pos(149);
    vstd::arithmetic::power2::lemma_pow2_unfold(150);
    lemma_short_is_exact(steps, 53);
    lemma_short_is_exact(0, 53);
    if strength.clamped_units() == 0 {
        assert(steps * 0 == 0);
        vstd::arithmetic::div_mod::lemma_basic_div(pow2(149) as int, pow2(150) as int);
    } else if strength.clamped_units() == pow2(149) {
        lemma_rounded_scales(steps, 149, 53);
        lemma_nearest(steps, 149, 0);
        assert((2 * steps + 1) / 2 == steps);
    }
}

/// A greater strength runs no fewer steps, and none runs more than were asked for.
pub proof fn law_strength_is_monotone(steps: nat, a: Real32, b: Real32)
    requires
        steps < pow2(53),
        a.clamped_units() <= b.clamped_units() <= pow2(149),
    ensures
        partial_steps(steps, a) <= partial_steps(steps, b) <= steps,
{
    let (ua, ub) = (a.clamped_units(), b.clamped_units());
    lemma_short_is_exact(steps, 53);
    lemma_pow2_pos(150);
    assert(steps * ua <= steps * ub && steps * ub <= steps * pow2(149)) by (nonlinear_arith)
        requires
            ua <= ub,
            ub <= pow2(149),
    ;
    lemma_rounded_is_monotone(steps * ua, steps * ub, 53);
    lemma_rounded_is_monotone(steps * ub, steps * pow2(149), 53);
    let (ra, rb, rc) = (
        rounded(steps * ua, 53),
        rounded(steps * ub, 53),
        rounded(steps * pow2(149), 53),
    );
    vstd::arithmetic::div_mod::lemma_div_is_ordered(
        (2 * ra + pow2(149)) as int,
        (2 * rb + pow2(149)) as int,
        pow2(150) as int,
    );
    vstd::arithmetic::div_mod::lemma_div_is_ordered(
        (2 * rb + pow2(149)) as int,
        (2 * rc + pow2(149)) as int,
        pow2(150) as int,
    );
    lemma2_to64();
    lemma_rounded_scales(steps, 149, 53);
    lemma_nearest(steps, 149, 0);
    assert((2 * steps + 1) / 2 == steps);
}

/// A number brought into `[0, 1]` is at most one.
pub proof fn law_clamped_is_at_most_one(x: Real32)
    ensures
        x.clamped_units() <= pow2(149),
{
}

/// The steps that are run are the nearest whole number to the product of the steps and the strength, a
/// half upwards, for schedules of up to half a billion steps.
pub proof fn law_partial_steps_are_nearest(steps: nat, strength: Real32)
    requires
        steps < pow2(29),
    ensures
        ({
            let n = partial_steps(steps, strength);
            let product = steps * strength.clamped_units();
            2 * n * pow2(149) <= 2 * product + pow2(149) < 2 * (n + 1) * pow2(149)
        }),
{
    lemma2_to64();
    let u = strength.clamped_units();
    let product = steps * u;
    lemma_product_is_exact(steps, strength);
    lemma_pow2_pos(149);
    lemma_pow2_pos(150);
    vstd::arithmetic::power2::lemma_pow2_unfold(150);
    if steps < pow2(29) {
        lemma_pow2_strictly_increases(29, 53);
    }
    lemma_short_is_exact(steps, 53);
    let x = 2 * product + pow2(149);
    lemma_parts(x, pow2(150));
    let n = x / pow2(150);
    assert(n * pow2(150) == 2 * n * pow2(149)) by (nonlinear_arith)
        requires
            pow2(150) == 2 * pow2(149),
    ;
    assert((n + 1) * pow2(150) == 2 * (n + 1) * pow2(149)) by (nonlinear_arith)
        requires
            pow2(150) == 2 * pow2(149),
    ;
}

/// A product of a short schedule and a single needs no rounding in double precision.
proof fn lemma_product_is_exact(steps: nat, strength: Real32)
    requires
        steps < pow2(29),
    ensures
        rounded(steps * strength.clamped_units(), 53) == steps * strength.clamped_units(),
{
    lemma2_to64();
    let u = strength.clamped_units();
    let (f, j): (nat, nat) = if strength.is_nan() || strength.negative() {
        (0, 0)
    } else if strength.above_one() {
        (1, 149)
    } else if strength.exponent() == 0 {
        (strength.significand(), 0)
    } else {
        (strength.significand(), (strength.exponent() - 1) as nat)
    };
    assert(f < pow2(24));
    assert(u == f * pow2(j)) by {
        assert(0 * pow2(0) == 0);
        assert(1 * pow2(149) == pow2(149));
    }
    lemma_pow2_adds(29, 24);
    assert(steps * f < pow2(53)) by (nonlinear_arith)
        requires
            steps < pow2(29),
            f < pow2(24),
            pow2(53) == pow2(29) * pow2(24),
            steps >= 0,
            f >= 0,
    ;
    lemma_short_is_exact(steps * f, 53);
    lemma_rounded_scales(steps * f, j, 53);
    assert(steps * (f * pow2(j)) == (steps * f) * pow2(j)) by (nonlinear_arith);
}

/// The bits of a number are its sign, its exponent and its fraction, side by side.
pub proof fn law_bits_are_sign_exponent_and_fraction(r: Real32)
    ensures
        r.exponent() < 256 && r.fraction() < 0x80_0000,
        r.bits == (if r.negative() {
            0x8000_0000int
        } else {
            0int
        }) + r.exponent() * 0x80_0000 + r.fraction(),
{
}

/// What is no number and what is negative scales a width to none; what is infinite scales any to the
/// largest there is, and none to none.
pub proof fn law_odd_ratios_scale_to_the_ends(ratio: Real32, width: nat)
    ensures
        ratio.is_nan() ==> scaled_width(ratio, width) == 0,
        ratio.negative() ==> scaled_width(ratio, width) == 0,
        ratio.is_infinite() && !ratio.negative() && width > 0 ==> scaled_width(ratio, width)
            == usize::MAX,
        ratio.is_infinite() ==> scaled_width(ratio, 0) == 0,
        scaled_width(ratio, width) <= usize::MAX,
{
}

} // verus!
