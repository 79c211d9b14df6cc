//! Fixed-point samples and exact results.
//!
//! A sample is an integer counting thousandths of its unit: an RR interval of
//! 812.5 ms is the sample `812_500`, a sampling rate of 30 Hz is `30_000`.
//! No result is rounded: a mean, a variance or a rate is returned as the
//! integers whose quotient it is, so every contract names the exact value and
//! the one division or square root is left to the caller.

use vstd::arithmetic::div_mod::{lemma_fundamental_div_mod, lemma_fundamental_div_mod_converse};
use vstd::prelude::*;

verus! {

/// Raw steps in one unit.
pub const SCALE: u32 = 1000;

/// The fraction `numerator / denominator`, which is not negative. A
/// denominator of zero stands for a quotient that has no value.
#[derive(Clone, Copy, Debug, PartialEq, Eq, Structural)]
pub struct Ratio {
    pub numerator: u128,
    pub denominator: u64,
}

/// The mean `total / count` of `count` values. A count of zero stands for a
/// mean that has no value.
#[derive(Clone, Copy, Debug, PartialEq, Eq, Structural)]
pub struct Mean {
    pub total: i128,
    pub count: u64,
}

/// The population variance `(squares - rest^2 / count) / count` of `count`
/// samples: with `m` their mean rounded down, `squares` is the sum of their
/// squared distances from `m`, and `rest` is what their sum exceeds
/// `count * m` by. The standard deviation is its square root. A count of
/// zero stands for a variance that has no value.
#[derive(Clone, Copy, Debug, PartialEq, Eq, Structural)]
pub struct Variance {
    pub squares: u128,
    pub rest: u64,
    pub count: u64,
}

impl Mean {
    /// Whether this mean is larger than `other`, both of at least one value.
    pub open spec fn exceeds(self, other: Mean) -> bool {
        self.total * other.count > other.total * self.count
    }

    /// Whether twice this mean is larger than `other`, both of at least one
    /// value.
    pub open spec fn twice_exceeds(self, other: Mean) -> bool {
        2 * self.total * other.count > other.total * self.count
    }

    /// Whether this mean is no smaller than `other`, both of at least one
    /// value.
    pub open spec fn at_least(self, other: Mean) -> bool {
        self.total * other.count >= other.total * self.count
    }

    /// Whether this can be the mean of `count` samples: there is at least
    /// one, and the total is that of `count` values of a sample's range.
    pub open spec fn is_sample_mean(self) -> bool {
        self.count > 0 && i32::MIN * self.count <= self.total <= i32::MAX * self.count
    }

    /// Whether this mean is larger than `other`, both of at least one value.
    pub fn is_above(&self, other: &Mean) -> (above: bool)
        requires
            self.count > 0,
            other.count > 0,
        ensures
            above == self.exceeds(*other),
    {
        // The products of the totals and the counts need not fit 128 bits;
        // the whole parts and what is left over are compared in their place.
        let (whole, rest) = floor_div_rem(self.total, self.count);
        let (other_whole, other_rest) = floor_div_rem(other.total, other.count);
        proof {
            lemma_fundamental_div_mod(self.total as int, self.count as int);
            lemma_fundamental_div_mod(other.total as int, other.count as int);
            lemma_fraction_order(
                self.total as int,
                self.count as int,
                other.total as int,
                other.count as int,
                whole as int,
                rest as int,
                other_whole as int,
                other_rest as int,
            );
            assert(rest * other.count <= 0xffff_ffff_ffff_ffff * 0xffff_ffff_ffff_ffff)
                by (nonlinear_arith)
                requires
                    0 <= rest <= 0xffff_ffff_ffff_ffff,
                    0 <= other.count <= 0xffff_ffff_ffff_ffff,
            ;
            assert(other_rest * self.count <= 0xffff_ffff_ffff_ffff * 0xffff_ffff_ffff_ffff)
                by (nonlinear_arith)
                requires
                    0 <= other_rest <= 0xffff_ffff_ffff_ffff,
                    0 <= self.count <= 0xffff_ffff_ffff_ffff,
            ;
        }
        if whole != other_whole {
            whole > other_whole
        } else {
            (rest as u128) * (other.count as u128) > (other_rest as u128) * (self.count as u128)
        }
    }

    /// Whether twice this mean is larger than `other`, both means of
    /// samples.
    pub fn twice_is_above(&self, other: &Mean) -> (above: bool)
        requires
            self.is_sample_mean(),
            other.is_sample_mean(),
        ensures
            above == self.twice_exceeds(*other),
    {
        proof {
            assert(2 * (i32::MIN * self.count) <= 2 * self.total <= 2 * (i32::MAX * self.count));
            assert(-0x8000_0000 * 0xffff_ffff_ffff_ffff <= i32::MIN * self.count && i32::MAX
                * self.count <= 0x7fff_ffff * 0xffff_ffff_ffff_ffff) by (nonlinear_arith)
                requires
                    0 <= self.count <= 0xffff_ffff_ffff_ffff,
            ;
        }
        let (whole, rest) = floor_div_rem(2 * self.total, self.count);
        let (other_whole, other_rest) = floor_div_rem(other.total, other.count);
        proof {
            lemma_fundamental_div_mod(2 * self.total, self.count as int);
            lemma_fundamental_div_mod(other.total as int, other.count as int);
            lemma_fraction_order(
                2 * self.total,
                self.count as int,
                other.total as int,
                other.count as int,
                whole as int,
                rest as int,
                other_whole as int,
                other_rest as int,
            );
            assert(rest * other.count <= 0xffff_ffff_ffff_ffff * 0xffff_ffff_ffff_ffff)
                by (nonlinear_arith)
                requires
                    0 <= rest <= 0xffff_ffff_ffff_ffff,
                    0 <= other.count <= 0xffff_ffff_ffff_ffff,
            ;
            assert(other_rest * self.count <= 0xffff_ffff_ffff_ffff * 0xffff_ffff_ffff_ffff)
                by (nonlinear_arith)
                requires
                    0 <= other_rest <= 0xffff_ffff_ffff_ffff,
                    0 <= self.count <= 0xffff_ffff_ffff_ffff,
            ;
        }
        if whole != other_whole {
            whole > other_whole
        } else {
            (rest as u128) * (other.count as u128) > (other_rest as u128) * (self.count as u128)
        }
    }
}

/// Two fractions compare as their whole parts do and, where these are equal,
/// as what is left over does.
pub proof fn lemma_fraction_order(
    a: int,
    b: int,
    c: int,
    d: int,
    whole: int,
    rest: int,
    other_whole: int,
    other_rest: int,
)
    requires
        b > 0,
        d > 0,
        a == b * whole + rest,
        0 <= rest < b,
        c == d * other_whole + other_rest,
        0 <= other_rest < d,
    ensures
        a * d > c * b <==> (whole > other_whole || (whole == other_whole && rest * d > other_rest
            * b)),
{
    let gap = whole - other_whole;
    assert(a * d - c * b == gap * (b * d) + (rest * d - other_rest * b)) by (nonlinear_arith)
        requires
            a == b * whole + rest,
            c == d * other_whole + other_rest,
            gap == whole - other_whole,
    ;
    assert(-(b * d) < rest * d - other_rest * b < b * d) by (nonlinear_arith)
        requires
            0 <= rest < b,
            0 <= other_rest < d,
            b > 0,
            d > 0,
    ;
    if gap >= 1 {
        assert(gap * (b * d) >= b * d) by (nonlinear_arith)
            requires
                gap >= 1,
                b > 0,
                d > 0,
        ;
    }
    if gap <= -1 {
        assert(gap * (b * d) <= -(b * d)) by (nonlinear_arith)
            requires
                gap <= -1,
                b > 0,
                d > 0,
        ;
    }
    if gap == 0 {
        assert(gap * (b * d) == 0) by (nonlinear_arith)
            requires
                gap == 0,
        ;
    }
}

/// A mean above one that is no smaller than a third is no smaller than the
/// third.
pub proof fn lemma_order_transitive(x: Mean, y: Mean, z: Mean)
    requires
        x.count > 0,
        y.count > 0,
        z.count > 0,
        x.at_least(y),
        y.at_least(z),
    ensures
        x.at_least(z),
{
    let (xt, xc) = (x.total as int, x.count as int);
    let (yt, yc) = (y.total as int, y.count as int);
    let (zt, zc) = (z.total as int, z.count as int);
    assert((xt * yc) * zc >= (yt * xc) * zc) by (nonlinear_arith)
        requires
            xt * yc >= yt * xc,
            zc > 0,
    ;
    assert((yt * zc) * xc >= (zt * yc) * xc) by (nonlinear_arith)
        requires
            yt * zc >= zt * yc,
            xc > 0,
    ;
    assert((xt * zc) * yc >= (zt * xc) * yc) by (nonlinear_arith)
        requires
            (xt * yc) * zc >= (yt * xc) * zc,
            (yt * zc) * xc >= (zt * yc) * xc,
    ;
    assert(xt * zc >= zt * xc) by (nonlinear_arith)
        requires
            (xt * zc) * yc >= (zt * xc) * yc,
            yc > 0,
    ;
}

impl Variance {
    /// The variance times the square of the count.
    pub open spec fn scaled(self) -> int {
        self.count * self.squares - self.rest * self.rest
    }
}

/// Quotient of `a` by a positive `b`, rounded towards negative infinity, and
/// what is left over.
pub fn floor_div_rem(a: i128, b: u64) -> (parts: (i128, u64))
    requires
        b > 0,
    ensures
        parts.0 == (a as int) / (b as int),
        parts.1 == (a as int) % (b as int),
{
    if a >= 0 {
        (a / (b as i128), (a % (b as i128)) as u64)
    } else {
        // a = -(m + 1) with m >= 0, hence floor(a / b) = -(m / b) - 1.
        let m: u128 = (-(a + 1)) as u128;
        let k: u128 = m / (b as u128);
        let t: u128 = m % (b as u128);
        let q: i128 = -(k as i128) - 1;
        let r: u64 = b - 1 - (t as u64);
        proof {
            assert(m == k * b + t) by {
                lemma_fundamental_div_mod(m as int, b as int);
                assert(b * k == k * b) by (nonlinear_arith);
            }
            assert(a == q * b + r) by (nonlinear_arith)
                requires
                    a == -(m + 1),
                    m == k * b + t,
                    q == -k - 1,
                    r == b - 1 - t,
            ;
            lemma_fundamental_div_mod_converse(a as int, b as int, q as int, r as int);
        }
        (q, r)
    }
}

} // verus!
