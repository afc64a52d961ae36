use vstd::prelude::*;

verus! {

/// An exact fraction `num / den`.
#[derive(Clone, Copy, Debug, PartialEq, Eq, Structural)]
pub struct Ratio {
    pub num: i128,
    pub den: i128,
}

/// `a < b` as rational numbers (both denominators positive).
pub open spec fn ratio_lt(a: Ratio, b: Ratio) -> bool {
    a.num * b.den < b.num * a.den
}

/// `a == b` as rational numbers (both denominators positive).
pub open spec fn ratio_same(a: Ratio, b: Ratio) -> bool {
    a.num * b.den == b.num * a.den
}

impl Ratio {
    /// A ratio whose value lies in `[-1, 1]` and whose terms stay small enough
    /// to be cross-multiplied in 128 bits.
    pub open spec fn bounded(self) -> bool {
        &&& 0 < self.den <= i64::MAX
        &&& -self.den <= self.num <= self.den
    }

    pub open spec fn zero() -> Ratio {
        Ratio { num: 0, den: 1 }
    }

    pub open spec fn one() -> Ratio {
        Ratio { num: 1, den: 1 }
    }

    /// Whether `self < other` as rational numbers.
    pub fn less_than(&self, other: &Ratio) -> (r: bool)
        requires
            self.bounded(),
            other.bounded(),
        ensures
            r == ratio_lt(*self, *other),
    {
        proof {
            lemma_bounded_product(self.num as int, other.den as int);
            lemma_bounded_product(other.num as int, self.den as int);
        }
        self.num * other.den < other.num * self.den
    }

    /// Whether `self` and `other` denote the same rational number.
    pub fn same_value(&self, other: &Ratio) -> (r: bool)
        requires
            self.bounded(),
            other.bounded(),
        ensures
            r == ratio_same(*self, *other),
    {
        proof {
            lemma_bounded_product(self.num as int, other.den as int);
            lemma_bounded_product(other.num as int, self.den as int);
        }
        self.num * other.den == other.num * self.den
    }
}

proof fn lemma_bounded_product(a: int, b: int)
    requires
        -(i64::MAX as int) <= a <= i64::MAX,
        0 < b <= i64::MAX,
    ensures
        -(i64::MAX as int) * (i64::MAX as int) <= a * b <= (i64::MAX as int) * (i64::MAX as int),
        (i64::MAX as int) * (i64::MAX as int) < i128::MAX,
{
    assert(-(i64::MAX as int) * b <= a * b <= (i64::MAX as int) * b) by (nonlinear_arith)
        requires
            -(i64::MAX as int) <= a <= i64::MAX,
            0 < b,
    ;
    assert((i64::MAX as int) * b <= (i64::MAX as int) * (i64::MAX as int)) by (nonlinear_arith)
        requires
            0 < b <= i64::MAX,
    ;
}

} // verus!
