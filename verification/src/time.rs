//! Musical positions: a track and a fraction of that track.

use vstd::prelude::*;

verus! {

/// A position in a chart: `numerator / denominator` of the way through `track`.
#[derive(Clone, Copy, Debug, PartialEq, Eq, Structural)]
pub struct ObjTime {
    pub track: u64,
    pub numerator: u64,
    pub denominator: u64,
}

impl ObjTime {
    /// A position is well formed when its fraction has a denominator.
    pub open spec fn wf(self) -> bool {
        self.denominator > 0
    }

    /// `self` lies strictly before `other`: an earlier track, or the same
    /// track and a smaller fraction.
    pub open spec fn precedes(self, other: ObjTime) -> bool {
        self.track < other.track || (self.track == other.track && self.numerator
            * other.denominator < other.numerator * self.denominator)
    }

    /// `self` and `other` name the same instant.
    pub open spec fn coincides(self, other: ObjTime) -> bool {
        self.track == other.track && self.numerator * other.denominator == other.numerator
            * self.denominator
    }

    /// `self` lies at or before `other`.
    pub open spec fn at_or_before(self, other: ObjTime) -> bool {
        self.precedes(other) || self.coincides(other)
    }

    /// Builds a position; there is none with a zero denominator.
    pub fn new(track: u64, numerator: u64, denominator: u64) -> (r: Option<ObjTime>)
        ensures
            denominator == 0 ==> r.is_none(),
            denominator != 0 ==> r == Some(ObjTime { track, numerator, denominator }),
    {
        if denominator == 0 {
            None
        } else {
            Some(ObjTime { track, numerator, denominator })
        }
    }

    /// Decides `precedes`.
    pub fn is_before(&self, other: &ObjTime) -> (r: bool)
        ensures
            r == self.precedes(*other),
    {
        if self.track != other.track {
            return self.track < other.track;
        }
        let lhs: u128 = wide_product(self.numerator, other.denominator);
        let rhs: u128 = wide_product(other.numerator, self.denominator);
        lhs < rhs
    }

    /// Decides `coincides`.
    pub fn is_same_instant(&self, other: &ObjTime) -> (r: bool)
        ensures
            r == self.coincides(*other),
    {
        if self.track != other.track {
            return false;
        }
        let lhs: u128 = wide_product(self.numerator, other.denominator);
        let rhs: u128 = wide_product(other.numerator, self.denominator);
        lhs == rhs
    }
}

/// The product of two 64-bit numbers fits in 128 bits.
pub proof fn lemma_product_fits(a: u64, b: u64)
    ensures
        0 <= a * b <= u128::MAX,
{
    assert(0 <= a * b <= 0xffff_ffff_ffff_ffff * 0xffff_ffff_ffff_ffff) by (nonlinear_arith)
        requires
            0 <= a <= 0xffff_ffff_ffff_ffff,
            0 <= b <= 0xffff_ffff_ffff_ffff,
    ;
}

/// The exact product of two 64-bit numbers.
pub fn wide_product(a: u64, b: u64) -> (r: u128)
    ensures
        r == a * b,
{
    proof {
        lemma_product_fits(a, b);
    }
    (a as u128) * (b as u128)
}

/// The order of positions is transitive.
pub proof fn lemma_at_or_before_transitive(a: ObjTime, b: ObjTime, c: ObjTime)
    requires
        a.wf(),
        b.wf(),
        c.wf(),
        a.at_or_before(b),
        b.at_or_before(c),
    ensures
        a.at_or_before(c),
        a.precedes(b) || b.precedes(c) ==> a.precedes(c),
{
    if a.track == b.track && b.track == c.track {
        let (an, ad) = (a.numerator as int, a.denominator as int);
        let (bn, bd) = (b.numerator as int, b.denominator as int);
        let (cn, cd) = (c.numerator as int, c.denominator as int);
        assert(an * bd <= bn * ad);
        assert(bn * cd <= cn * bd);
        assert(an * cd <= cn * ad) by (nonlinear_arith)
            requires
                an * bd <= bn * ad,
                bn * cd <= cn * bd,
                ad > 0,
                bd > 0,
                cd > 0,
                an >= 0,
                bn >= 0,
                cn >= 0,
        ;
        if a.precedes(b) || b.precedes(c) {
            assert(an * cd < cn * ad) by (nonlinear_arith)
                requires
                    an * bd <= bn * ad,
                    bn * cd <= cn * bd,
                    an * bd < bn * ad || bn * cd < cn * bd,
                    ad > 0,
                    bd > 0,
                    cd > 0,
                    an >= 0,
                    bn >= 0,
                    cn >= 0,
            ;
        }
    }
}

/// Any two positions are ordered one way or the other.
pub proof fn lemma_order_total(a: ObjTime, b: ObjTime)
    ensures
        a.precedes(b) || a.coincides(b) || b.precedes(a),
        !(a.precedes(b) && b.at_or_before(a)),
{
}

} // verus!
