//! Match confidence scores as exact rationals.
//!
//! A confidence is either an exact hit (value 1), a direct similarity
//! `(len - dist) / len`, or a fallback similarity over massaged titles,
//! `(len - dist) / len - 1/20` floored at 0.  Values are compared by exact
//! cross-multiplication, so no floating point is involved; the fixed
//! fallback penalty of one twentieth and the minimum-confidence threshold
//! of four fifths are represented exactly.

use vstd::prelude::*;

verus! {

/// A similarity score between a query title and one title variant.
///
/// In `Direct` and `Fallback`, `dist` is the edit distance between the two
/// compared strings and `len` the longer of their lengths (normalized to 1
/// when both are empty, where the similarity is defined as 1).
#[derive(Clone, Copy, Debug, PartialEq, Eq, Structural)]
pub enum Score {
    Exact,
    Direct { dist: usize, len: usize },
    Fallback { dist: usize, len: usize },
}

impl Score {
    /// Well-formed scores carry a positive length and a distance no larger
    /// than it, as edit distances against the longer input always are.
    pub open spec fn wf(self) -> bool {
        match self {
            Score::Exact => true,
            Score::Direct { dist, len } => 1 <= len && dist <= len,
            Score::Fallback { dist, len } => 1 <= len && dist <= len,
        }
    }

    /// The score's value as an exact fraction (numerator, denominator),
    /// with a positive denominator.
    pub open spec fn frac(self) -> (int, int) {
        match self {
            Score::Exact => (1, 1),
            Score::Direct { dist, len } => (len - dist, len as int),
            Score::Fallback { dist, len } => if 19 * len > 20 * dist {
                (19 * len - 20 * dist, 20 * (len as int))
            } else {
                (0, 1)
            },
        }
    }

    /// A score of value zero, the matcher's starting point.
    pub open spec fn spec_zero() -> Score {
        Score::Direct { dist: 1, len: 1 }
    }

    pub fn zero() -> (s: Score)
        ensures
            s == Score::spec_zero(),
    {
        Score::Direct { dist: 1, len: 1 }
    }

    /// Whether this score's value strictly exceeds `other`'s.
    pub open spec fn gt(self, other: Score) -> bool {
        frac_lt(other.frac(), self.frac())
    }

    /// Whether this score reaches the minimum confidence of four fifths.
    pub open spec fn confident(self) -> bool {
        !frac_lt(self.frac(), (4, 5))
    }

    /// Exact comparison of the two rational values.
    pub fn is_gt(&self, other: &Score) -> (r: bool)
        requires
            self.wf(),
            other.wf(),
        ensures
            r == self.gt(*other),
    {
        match (self, other) {
            (Score::Exact, Score::Exact) => {
                assert(!self.gt(*other));
                false
            },
            (Score::Exact, Score::Direct { dist: d2, len: m2 }) => {
                assert((*d2 > 0) == self.gt(*other));
                *d2 > 0
            },
            (Score::Exact, Score::Fallback { .. }) => {
                assert(self.gt(*other));
                true
            },
            (Score::Direct { .. }, Score::Exact) => {
                assert(!self.gt(*other));
                false
            },
            (Score::Fallback { .. }, Score::Exact) => {
                assert(!self.gt(*other));
                false
            },
            (Score::Direct { dist: d1, len: m1 }, Score::Direct { dist: d2, len: m2 }) => {
                proof {
                    lemma_cross(*d2 as int, *m2 as int, *d1 as int, *m1 as int);
                }
                mul_gt(*d2, *m1, *d1, *m2)
            },
            (Score::Fallback { dist: d1, len: m1 }, Score::Fallback { dist: d2, len: m2 }) => {
                let pos1 = fallback_positive(*d1, *m1);
                let pos2 = fallback_positive(*d2, *m2);
                if !pos1 {
                    false
                } else if !pos2 {
                    true
                } else {
                    proof {
                        lemma_fallback_fallback(*d1 as int, *m1 as int, *d2 as int, *m2 as int);
                    }
                    mul_gt(*d2, *m1, *d1, *m2)
                }
            },
            (Score::Direct { dist: d1, len: m1 }, Score::Fallback { dist: d2, len: m2 }) => {
                let pos2 = fallback_positive(*d2, *m2);
                if !pos2 {
                    *d1 < *m1
                } else {
                    proof {
                        lemma_direct_fallback(*d1 as int, *m1 as int, *d2 as int, *m2 as int);
                    }
                    let x = mul_u128(*m1, *d2);
                    let y = mul_u128(*m2, *d1);
                    let p = mul_u128(*m1, *m2);
                    // value(self) > value(other) <==> 20x + p > 20y
                    if x >= y {
                        true
                    } else {
                        times20_lt(y - x, p)
                    }
                }
            },
            (Score::Fallback { dist: d1, len: m1 }, Score::Direct { dist: d2, len: m2 }) => {
                let pos1 = fallback_positive(*d1, *m1);
                if !pos1 {
                    false
                } else {
                    proof {
                        lemma_fallback_direct(*d1 as int, *m1 as int, *d2 as int, *m2 as int);
                    }
                    let x = mul_u128(*m1, *d2);
                    let y = mul_u128(*m2, *d1);
                    let p = mul_u128(*m1, *m2);
                    // value(self) > value(other) <==> 20x > 20y + p
                    if x <= y {
                        false
                    } else {
                        !times20_le(x - y, p)
                    }
                }
            },
        }
    }

    /// Exact test against the minimum-confidence threshold.
    pub fn is_confident(&self) -> (r: bool)
        requires
            self.wf(),
        ensures
            r == self.confident(),
    {
        match self {
            Score::Exact => true,
            Score::Direct { dist: d, len: m } => {
                proof {
                    lemma_direct_threshold(*d as int, *m as int);
                }
                (*m as u128) >= 5 * (*d as u128)
            },
            Score::Fallback { dist: d, len: m } => {
                proof {
                    lemma_fallback_threshold(*d as int, *m as int);
                }
                3 * (*m as u128) >= 20 * (*d as u128)
            },
        }
    }
}

/// Strict order on fractions with positive denominators.
pub open spec fn frac_lt(a: (int, int), b: (int, int)) -> bool {
    a.0 * b.1 < b.0 * a.1
}

/// Whether the fallback value `(m - d)/m - 1/20` is strictly positive.
fn fallback_positive(d: usize, m: usize) -> (r: bool)
    ensures
        r == (19 * m > 20 * d),
{
    19 * (m as u128) > 20 * (d as u128)
}

fn mul_u128(a: usize, b: usize) -> (r: u128)
    ensures
        r == a * b,
{
    proof {
        lemma_mul_fits(a as int, b as int);
    }
    (a as u128) * (b as u128)
}

/// `a * b > c * d`, exactly.
fn mul_gt(a: usize, b: usize, c: usize, d: usize) -> (r: bool)
    ensures
        r == (a * b > c * d),
{
    mul_u128(a, b) > mul_u128(c, d)
}

proof fn lemma_mul_fits(a: int, b: int)
    by (nonlinear_arith)
    requires
        0 <= a < 0x1_0000_0000_0000_0000,
        0 <= b < 0x1_0000_0000_0000_0000,
    ensures
        a * b < 0x1_0000_0000_0000_0000_0000_0000_0000_0000,
{
}

/// `20 * w < p`, computed without materializing `20 * w`.
fn times20_lt(w: u128, p: u128) -> (r: bool)
    ensures
        r == (20 * w < p),
{
    if p == 0 {
        false
    } else {
        proof {
            lemma_div_20(w as int, p as int);
        }
        w <= (p - 1) / 20
    }
}

/// `20 * w <= p`, computed without materializing `20 * w`.
fn times20_le(w: u128, p: u128) -> (r: bool)
    ensures
        r == (20 * w <= p),
{
    proof {
        lemma_div_20_le(w as int, p as int);
    }
    w <= p / 20
}

proof fn lemma_div_20(w: int, p: int)
    by (nonlinear_arith)
    requires
        0 <= w,
        1 <= p,
    ensures
        (w <= (p - 1) / 20) == (20 * w < p),
{
}

proof fn lemma_div_20_le(w: int, p: int)
    by (nonlinear_arith)
    requires
        0 <= w,
        0 <= p,
    ensures
        (w <= p / 20) == (20 * w <= p),
{
}

proof fn lemma_cross(d1: int, m1: int, d2: int, m2: int)
    by (nonlinear_arith)
    requires
        0 <= d1 && 0 <= m1 && 0 <= d2 && 0 <= m2,
    ensures
        frac_lt((m1 - d1, m1), (m2 - d2, m2)) == (d1 * m2 > d2 * m1),
{
}

proof fn lemma_fallback_fallback(d1: int, m1: int, d2: int, m2: int)
    by (nonlinear_arith)
    requires
        19 * m1 > 20 * d1,
        19 * m2 > 20 * d2,
    ensures
        frac_lt((19 * m2 - 20 * d2, 20 * m2), (19 * m1 - 20 * d1, 20 * m1)) == (d2 * m1 > d1
            * m2),
{
}

proof fn lemma_direct_fallback(d1: int, m1: int, d2: int, m2: int)
    by (nonlinear_arith)
    requires
        1 <= m1,
        1 <= m2,
        19 * m2 > 20 * d2,
    ensures
        frac_lt((19 * m2 - 20 * d2, 20 * m2), (m1 - d1, m1)) == (20 * (m1 * d2) + m1 * m2 > 20 * (
        m2 * d1)),
        m1 * m2 >= 1,
{
}

proof fn lemma_fallback_direct(d1: int, m1: int, d2: int, m2: int)
    by (nonlinear_arith)
    requires
        1 <= m1,
        1 <= m2,
        19 * m1 > 20 * d1,
    ensures
        frac_lt((m2 - d2, m2), (19 * m1 - 20 * d1, 20 * m1)) == (20 * (m1 * d2) > 20 * (m2 * d1)
            + m1 * m2),
        m1 * m2 >= 1,
{
}

proof fn lemma_direct_threshold(d: int, m: int)
    by (nonlinear_arith)
    requires
        0 <= d && 1 <= m,
    ensures
        (!frac_lt((m - d, m), (4, 5))) == (m >= 5 * d),
{
}

proof fn lemma_fallback_threshold(d: int, m: int)
    by (nonlinear_arith)
    requires
        0 <= d && 1 <= m,
    ensures
        (!frac_lt(
            if 19 * m > 20 * d {
                (19 * m - 20 * d, 20 * m)
            } else {
                (0, 1)
            },
            (4, 5),
        )) == (3 * m >= 20 * d),
{
}

} // verus!
