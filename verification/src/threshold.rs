//! Exact shares: the difference ratio of two frames and the threshold it is
//! held against.
//!
//! Both are kept as a pair of integers, so that "at most this share of the
//! pixels differ" is decided without rounding.

use vstd::prelude::*;

verus! {

/// A non-negative rational number `numerator / denominator`, as contracts
/// speak of it.
pub struct Share {
    pub numerator: nat,
    pub denominator: nat,
}

impl Share {
    /// The share lies in the closed interval from 0 to 1.
    pub open spec fn is_proper(self) -> bool {
        0 < self.denominator && self.numerator <= self.denominator
    }

    /// `self <= other` as rational numbers (both denominators positive).
    pub open spec fn at_most(self, other: Share) -> bool {
        self.numerator * other.denominator <= other.numerator * self.denominator
    }
}

/// How far two equally sized frames are apart: `differing` of their `total`
/// pixels are not the same in both.
#[derive(Clone, Copy, Debug, PartialEq, Eq, Structural)]
pub struct DifferenceRatio {
    pub differing: u64,
    pub total: u64,
}

impl View for DifferenceRatio {
    type V = Share;

    open spec fn view(&self) -> Share {
        Share { numerator: self.differing as nat, denominator: self.total as nat }
    }
}

impl DifferenceRatio {
    /// No pixel differs.
    pub fn is_zero(&self) -> (zero: bool)
        ensures
            zero == (self.differing == 0),
    {
        self.differing == 0
    }
}

/// The largest difference ratio at which two frames still count as
/// duplicates of each other: a share between 0 and 1, both included.
///
/// 0 lets only pixel-for-pixel equal frames pass as duplicates; 1 lets every pair
/// of equally sized frames pass.
#[derive(Clone, Copy, Debug)]
pub struct Threshold {
    numerator: u64,
    denominator: u64,
}

impl View for Threshold {
    type V = Share;

    closed spec fn view(&self) -> Share {
        Share { numerator: self.numerator as nat, denominator: self.denominator as nat }
    }
}

impl Threshold {
    #[verifier::type_invariant]
    spec fn within_unit_interval(self) -> bool {
        0 < self.denominator && self.numerator <= self.denominator
    }

    /// The threshold `numerator / denominator`, provided that this is a share
    /// between 0 and 1.
    pub fn new(numerator: u64, denominator: u64) -> (made: Option<Threshold>)
        ensures
            made is Some <==> 0 < denominator && numerator <= denominator,
            made matches Some(threshold) ==> threshold@ == (Share {
                numerator: numerator as nat,
                denominator: denominator as nat,
            }),
    {
        if 0 < denominator && numerator <= denominator {
            Some(Threshold { numerator, denominator })
        } else {
            None
        }
    }

    /// The threshold of one pixel in a hundred.
    pub fn one_percent() -> (threshold: Threshold)
        ensures
            threshold@ == (Share { numerator: 1, denominator: 100 }),
    {
        Threshold { numerator: 1, denominator: 100 }
    }

    /// The numerator of the share. Every threshold is a share between 0 and 1.
    pub fn numerator(&self) -> (n: u64)
        ensures
            n == self@.numerator,
            self@.is_proper(),
    {
        proof {
            use_type_invariant(self);
        }
        self.numerator
    }

    /// The denominator of the share, which is not 0.
    pub fn denominator(&self) -> (d: u64)
        ensures
            d == self@.denominator,
            self@.is_proper(),
    {
        proof {
            use_type_invariant(self);
        }
        self.denominator
    }

    /// Whether `ratio` is at or below this threshold. The comparison is
    /// inclusive and exact.
    pub fn admits(&self, ratio: &DifferenceRatio) -> (within: bool)
        ensures
            within == ratio@.at_most(self@),
    {
        let left: u128 = widening_product(ratio.differing, self.denominator);
        let right: u128 = widening_product(self.numerator, ratio.total);
        left <= right
    }
}

/// The product of two 64-bit numbers, which always fits in 128 bits.
fn widening_product(a: u64, b: u64) -> (product: u128)
    ensures
        product == a * b,
{
    assert(a * b <= 0xffff_ffff_ffff_ffff * 0xffff_ffff_ffff_ffff) by (nonlinear_arith)
        requires
            a <= 0xffff_ffff_ffff_ffff,
            b <= 0xffff_ffff_ffff_ffff,
    ;
    (a as u128) * (b as u128)
}

} // verus!
