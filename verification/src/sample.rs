//! Fixed-point stereo samples and their arithmetic.

use crate::chart::MILLION;
use vstd::prelude::*;

verus! {

/// Full scale: the sample value that stands for an amplitude of one.
pub const UNITY: i64 = 16_777_216;

/// `x` held to the range of a sample.
pub open spec fn clamp(x: int) -> int {
    if x < i64::MIN {
        i64::MIN as int
    } else if x > i64::MAX {
        i64::MAX as int
    } else {
        x
    }
}

/// `x * num / den`, rounded toward zero.
pub open spec fn scaled(x: int, num: int, den: int) -> int {
    if x >= 0 {
        x * num / den
    } else {
        -((-x) * num / den)
    }
}

/// The sum of two samples, held to the range of a sample.
pub fn saturating_sum(a: i64, b: i64) -> (r: i64)
    ensures
        r == clamp(a + b),
{
    let s: i128 = a as i128 + b as i128;
    if s > i64::MAX as i128 {
        i64::MAX
    } else if s < i64::MIN as i128 {
        i64::MIN
    } else {
        s as i64
    }
}

/// The size of `x`.
pub fn magnitude(x: i64) -> (r: u128)
    ensures
        r == (if x >= 0 {
            x as int
        } else {
            -(x as int)
        }),
        r <= 0x8000_0000_0000_0000,
{
    if x >= 0 {
        x as u128
    } else {
        (-(x as i128)) as u128
    }
}

/// `x * num / den` rounded toward zero and held to the range of a sample.
pub fn scale(x: i64, num: u64, den: u64) -> (r: i64)
    requires
        den > 0,
    ensures
        r == clamp(scaled(x as int, num as int, den as int)),
{
    let m = magnitude(x);
    assert(m * num <= 0x8000_0000_0000_0000 * 0xffff_ffff_ffff_ffff) by (nonlinear_arith)
        requires
            0 <= m <= 0x8000_0000_0000_0000,
            0 <= num <= 0xffff_ffff_ffff_ffff,
    ;
    assert(0 <= m * num) by (nonlinear_arith)
        requires
            0 <= m,
            0 <= num,
    ;
    let q: u128 = m * (num as u128) / (den as u128);
    if x >= 0 {
        if q > i64::MAX as u128 {
            i64::MAX
        } else {
            q as i64
        }
    } else {
        if q >= 0x8000_0000_0000_0000 {
            i64::MIN
        } else {
            -(q as i64)
        }
    }
}

/// One sample of stereo sound: a fixed-point value for each channel.
#[derive(Clone, Copy, Debug, PartialEq, Eq, Structural)]
pub struct StereoSample {
    pub left: i64,
    pub right: i64,
}

impl Default for StereoSample {
    /// Silence.
    fn default() -> (r: StereoSample)
        ensures
            r == StereoSample::zero(),
    {
        StereoSample { left: 0, right: 0 }
    }
}

impl StereoSample {
    /// Silence: the identity of addition.
    pub open spec fn zero() -> StereoSample {
        StereoSample { left: 0, right: 0 }
    }

    /// `self` plus `gain` times `rhs`, channel by channel, held to range.
    pub open spec fn plus(self, rhs: StereoSample, gain: int) -> StereoSample {
        StereoSample {
            left: clamp(self.left + gain * rhs.left) as i64,
            right: clamp(self.right + gain * rhs.right) as i64,
        }
    }

    /// `self` times `num / den`, channel by channel, rounded toward zero
    /// and held to range.
    pub open spec fn times(self, num: int, den: int) -> StereoSample {
        StereoSample {
            left: clamp(scaled(self.left as int, num, den)) as i64,
            right: clamp(scaled(self.right as int, num, den)) as i64,
        }
    }

    /// Silence.
    pub fn silence() -> (r: StereoSample)
        ensures
            r == StereoSample::zero(),
    {
        StereoSample { left: 0, right: 0 }
    }

    /// Adds two samples channel by channel.
    pub fn add(self, rhs: StereoSample) -> (r: StereoSample)
        ensures
            r == self.plus(rhs, 1),
    {
        StereoSample {
            left: saturating_sum(self.left, rhs.left),
            right: saturating_sum(self.right, rhs.right),
        }
    }

    /// Adds `rhs` to this sample.
    pub fn add_assign(&mut self, rhs: StereoSample)
        ensures
            *final(self) == old(self).plus(rhs, 1),
    {
        *self = self.add(rhs);
    }

    /// Multiplies both channels by `gain` millionths.
    pub fn mul(self, gain: u64) -> (r: StereoSample)
        ensures
            r == self.times(gain as int, MILLION as int),
    {
        self.scale(gain, MILLION)
    }

    /// Multiplies this sample by `gain` millionths.
    pub fn mul_assign(&mut self, gain: u64)
        ensures
            *final(self) == old(self).times(gain as int, MILLION as int),
    {
        *self = self.mul(gain);
    }

    /// Multiplies both channels by `num / den`.
    pub fn scale(self, num: u64, den: u64) -> (r: StereoSample)
        requires
            den > 0,
        ensures
            r == self.times(num as int, den as int),
    {
        StereoSample { left: scale(self.left, num, den), right: scale(self.right, num, den) }
    }
}

/// Addition of samples commutes, and silence is its identity.
pub proof fn lemma_sample_addition(a: StereoSample, b: StereoSample)
    ensures
        a.plus(b, 1) == b.plus(a, 1),
        a.plus(StereoSample::zero(), 1) == a,
        StereoSample::zero().plus(a, 1) == a,
{
}

/// Adding a sample twice is adding its double.
pub proof fn lemma_sample_twice(a: StereoSample, b: StereoSample)
    ensures
        a.plus(b, 1).plus(b, 1) == a.plus(b, 2),
{
}

/// A gain of one leaves a sample as it is.
pub proof fn lemma_sample_unity(a: StereoSample)
    ensures
        a.times(MILLION as int, MILLION as int) == a,
{
    lemma_scaled_unity(a.left as int, MILLION as int);
    lemma_scaled_unity(a.right as int, MILLION as int);
}

/// Scaling by `n / n` changes nothing.
pub proof fn lemma_scaled_unity(x: int, n: int)
    requires
        n > 0,
    ensures
        scaled(x, n, n) == x,
{
    if x >= 0 {
        assert(x * n / n == x) by (nonlinear_arith)
            requires
                n > 0,
        ;
    } else {
        assert((-x) * n / n == -x) by (nonlinear_arith)
            requires
                n > 0,
        ;
    }
}

/// The size of `x`.
pub open spec fn size_of(x: int) -> int {
    if x >= 0 {
        x
    } else {
        -x
    }
}

/// Scaling by `b` and then by `a` millionths differs from scaling once
/// by their product, for magnitudes, by no more than the rounding of
/// three divisions.
pub proof fn lemma_compose_magnitudes(x: int, a: int, b: int)
    requires
        x >= 0,
        a >= 0,
        b >= 0,
    ensures
        (x * b / 1_000_000) * a / 1_000_000 - x * (a * b / 1_000_000) / 1_000_000 <= x / 1_000_000
            + 1,
        x * (a * b / 1_000_000) / 1_000_000 - (x * b / 1_000_000) * a / 1_000_000 <= a / 1_000_000
            + 1,
{
    let m = 1_000_000int;
    let p = x * b;
    let y = p / m;
    let q = y * a;
    let ab = a * b;
    let c = ab / m;
    let t = x * c;
    assert(p >= 0 && ab >= 0) by (nonlinear_arith)
        requires
            p == x * b,
            ab == a * b,
            x >= 0,
            a >= 0,
            b >= 0,
    ;
    assert(0 <= m * y <= p < m * y + m);
    assert(0 <= m * c <= ab < m * c + m);
    assert(q >= 0 && t >= 0) by (nonlinear_arith)
        requires
            q == y * a,
            t == x * c,
            y >= 0,
            a >= 0,
            x >= 0,
            c >= 0,
    ;
    assert(p * a == x * ab) by (nonlinear_arith)
        requires
            p == x * b,
            ab == a * b,
    ;
    assert(m * q <= p * a) by (nonlinear_arith)
        requires
            q == y * a,
            m * y <= p,
            a >= 0,
    ;
    assert(x * ab <= m * t + m * x) by (nonlinear_arith)
        requires
            t == x * c,
            ab < m * c + m,
            x >= 0,
    ;
    assert(m * t <= x * ab) by (nonlinear_arith)
        requires
            t == x * c,
            m * c <= ab,
            x >= 0,
    ;
    assert(p * a <= m * q + m * a) by (nonlinear_arith)
        requires
            q == y * a,
            p < m * y + m,
            a >= 0,
    ;
    assert(q <= t + x);
    assert(t <= q + a);
}

/// Two volumes in a row are their product, within rounding: for a sample
/// value `x` that the first volume `b` does not drive out of range, the
/// volume `a` after `b` gives what the volume `a * b` gives at once, up
/// to the millionth part of `x` and of `a` and one more.
pub proof fn lemma_volumes_compose(x: i64, a: u64, b: u64)
    requires
        i64::MIN <= scaled(x as int, b as int, MILLION as int) <= i64::MAX,
    ensures
        size_of(
            clamp(scaled(clamp(scaled(x as int, b as int, MILLION as int)), a as int, MILLION as int))
                - clamp(scaled(x as int, a * b / (MILLION as int), MILLION as int)),
        ) <= size_of(x as int) / (MILLION as int) + (a as int) / (MILLION as int) + 1,
{
    let m = MILLION as int;
    let mag = size_of(x as int);
    lemma_compose_magnitudes(mag, a as int, b as int);
    let y = mag * b / m;
    let l = y * a / m;
    let r = mag * (a * b / m) / m;
    assert(y >= 0 && a * b / m >= 0) by (nonlinear_arith)
        requires
            y == mag * b / m,
            mag >= 0,
            b >= 0,
            a >= 0,
            m == 1_000_000,
    ;
    if x >= 0 {
        assert(scaled(x as int, b as int, m) == y);
        assert(scaled(y, a as int, m) == l);
        assert(scaled(x as int, a * b / m, m) == r);
    } else {
        assert(scaled(x as int, b as int, m) == -y);
        assert(scaled(-y, a as int, m) == -l) by {
            if y == 0 {
                assert(0 * a == 0);
                assert(l == 0);
            }
        }
        assert(scaled(x as int, a * b / m, m) == -r);
    }
}

} // verus!
