//! Cosines and sines in fixed point.
//!
//! The renderer never takes an angle. It takes the angle's cosine and sine
//! as whole multiples of `1 / ONE`, each rounded towards zero. Such a pair
//! is never longer than a unit vector, and shorter by less than two parts
//! in `ONE`. Every bound on a rotated point rests on the first of the two.

use vstd::prelude::*;
use crate::arith::{sq, lemma_sq_bound, lemma_sq_nonneg, lemma_sq_monotone};

verus! {

/// The fixed-point value of 1: a cosine or sine `v` stands for `v / ONE`.
pub const ONE: i64 = 1048576;

/// The cosine and the sine of one angle, each scaled by [`ONE`] and rounded
/// towards zero: a pair that is at most `ONE` long, and at least
/// `ONE - 2`.
#[derive(Clone, Copy, Debug)]
pub struct Trig {
    cos: i64,
    sin: i64,
}

impl Trig {
    /// The scaled cosine.
    pub closed spec fn spec_cos(&self) -> i64 {
        self.cos
    }

    /// The scaled sine.
    pub closed spec fn spec_sin(&self) -> i64 {
        self.sin
    }

    /// The pair is as long as the rounded cosine and sine of an angle are.
    #[verifier::type_invariant]
    pub open spec fn wf(self) -> bool {
        Self::fits(self.spec_cos() as int, self.spec_sin() as int)
    }

    /// Whether `cos` and `sin` can be the cosine and sine of one angle,
    /// each scaled by [`ONE`] and rounded towards zero: whether the pair is
    /// at most `ONE` long, and at least `ONE - 2`.
    pub open spec fn fits(cos: int, sin: int) -> bool {
        sq(ONE - 2) <= sq(cos) + sq(sin) <= sq(ONE as int)
    }

    /// Neither part of a well-formed pair exceeds [`ONE`] in magnitude.
    pub proof fn lemma_parts_bounded(self)
        requires
            self.wf(),
        ensures
            -ONE <= self.spec_cos() <= ONE,
            -ONE <= self.spec_sin() <= ONE,
            sq(self.spec_cos() as int) <= sq(ONE as int),
            sq(self.spec_sin() as int) <= sq(ONE as int),
    {
        lemma_sq_nonneg(self.spec_cos() as int);
        lemma_sq_nonneg(self.spec_sin() as int);
        lemma_sq_bound(self.spec_cos() as int, ONE as int);
        lemma_sq_bound(self.spec_sin() as int, ONE as int);
    }

    /// The pair `(cos, sin)`, if it can be the cosine and sine of an angle.
    pub fn new(cos: i64, sin: i64) -> (r: Option<Trig>)
        ensures
            r is Some <==> Self::fits(cos as int, sin as int),
            r matches Some(t) ==> t.spec_cos() == cos && t.spec_sin() == sin,
    {
        if cos < -ONE || cos > ONE || sin < -ONE || sin > ONE {
            proof {
                lemma_sq_nonneg(cos as int);
                lemma_sq_nonneg(sin as int);
                if Self::fits(cos as int, sin as int) {
                    lemma_sq_bound(cos as int, ONE as int);
                    lemma_sq_bound(sin as int, ONE as int);
                }
            }
            return None;
        }
        proof {
            lemma_sq_monotone(cos as int, ONE as int);
            lemma_sq_monotone(sin as int, ONE as int);
            lemma_sq_nonneg(cos as int);
            lemma_sq_nonneg(sin as int);
        }
        let norm: i64 = cos * cos + sin * sin;
        if (ONE - 2) * (ONE - 2) <= norm && norm <= ONE * ONE {
            Some(Trig { cos, sin })
        } else {
            None
        }
    }

    /// The cosine and sine of the angle 0.
    pub fn zero() -> (t: Trig)
        ensures
            t.spec_cos() == ONE,
            t.spec_sin() == 0,
    {
        Trig { cos: ONE, sin: 0 }
    }

    /// The scaled cosine.
    #[verifier::when_used_as_spec(spec_cos)]
    pub fn cos(&self) -> (r: i64)
        ensures
            r == self.spec_cos(),
            -ONE <= r <= ONE,
    {
        proof {
            use_type_invariant(self);
            self.lemma_parts_bounded();
        }
        self.cos
    }

    /// The scaled sine.
    #[verifier::when_used_as_spec(spec_sin)]
    pub fn sin(&self) -> (r: i64)
        ensures
            r == self.spec_sin(),
            -ONE <= r <= ONE,
    {
        proof {
            use_type_invariant(self);
            self.lemma_parts_bounded();
        }
        self.sin
    }
}

} // verus!
