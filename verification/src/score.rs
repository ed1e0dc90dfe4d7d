//! Relevance scores as exact rationals.  A candidate that matched at least
//! one clause scores `base + 20 / (name_bytes + 1)`; the comparison below
//! decides the order of two such values without ever rounding.

use vstd::prelude::*;
use crate::WEIGHT_SHORTNESS;

verus! {

/// The relevance score of one candidate for one query.  With `base > 0` its
/// value is the exact rational `base + 20 / (name_bytes + 1)`: the summed
/// clause weights plus the shortness bonus.  With `base == 0` its value is
/// zero and the candidate did not match.
#[derive(Clone, Copy, PartialEq, Eq, Structural, Debug)]
pub struct Score {
    /// Summed weights of the clauses that matched.
    pub base: u32,
    /// Byte length of the candidate's display name; the bonus denominator
    /// less one.
    pub name_bytes: usize,
}

impl Score {
    /// The score with value zero.
    pub open spec fn zero() -> Score {
        Score { base: 0, name_bytes: 0 }
    }

    /// Numerator of the exact value over `den`.
    pub open spec fn num(self) -> int {
        if self.base == 0 {
            0
        } else {
            (self.base as int) * (self.name_bytes as int + 1) + WEIGHT_SHORTNESS as int
        }
    }

    /// Denominator of the exact value.
    pub open spec fn den(self) -> int {
        self.name_bytes as int + 1
    }

    /// The exact value of `self` is strictly below that of `other`.
    pub open spec fn lt(self, other: Score) -> bool {
        self.num() * other.den() < other.num() * self.den()
    }

    /// The exact values are equal.
    pub open spec fn eqv(self, other: Score) -> bool {
        self.num() * other.den() == other.num() * self.den()
    }

    /// The value is above zero, i.e. some clause matched.
    pub open spec fn positive(self) -> bool {
        self.base > 0
    }

    /// Whether some clause matched, so that the value is above zero.
    pub fn is_positive(&self) -> (r: bool)
        ensures
            r == self.positive(),
    {
        self.base > 0
    }

    /// Exact numerator of the value over `denominator`.
    pub fn numerator(&self) -> (r: u128)
        ensures
            r as int == self.num(),
    {
        if self.base == 0 {
            0
        } else {
            proof {
                lemma_mul_le(
                    self.base as int,
                    u32::MAX as int,
                    self.name_bytes as int + 1,
                    u64::MAX as int + 1,
                );
            }
            (self.base as u128) * ((self.name_bytes as u128) + 1) + (WEIGHT_SHORTNESS as u128)
        }
    }

    /// Exact denominator of the value.
    pub fn denominator(&self) -> (r: u128)
        ensures
            r as int == self.den(),
    {
        (self.name_bytes as u128) + 1
    }

    /// Whether the exact value of `self` is strictly below that of `other`.
    pub fn ranks_below(&self, other: &Score) -> (r: bool)
        ensures
            r == self.lt(*other),
    {
        let a = *self;
        let b = *other;
        if a.base == 0 && b.base == 0 {
            false
        } else if a.base == 0 {
            proof {
                lemma_mul_pos(b.num(), a.den());
            }
            true
        } else if b.base == 0 {
            proof {
                lemma_mul_pos(a.num(), b.den());
            }
            false
        } else if a.base == b.base {
            proof {
                lemma_same_base_int(a.base as int, a.name_bytes as int, b.name_bytes as int);
            }
            a.name_bytes > b.name_bytes
        } else if a.base < b.base {
            let r = compare_larger_base(b, a);
            matches!(r, Rel::Above)
        } else {
            let r = compare_larger_base(a, b);
            matches!(r, Rel::Below)
        }
    }
}

/// How the score with the larger base (`hi`) relates to the other (`lo`).
enum Rel {
    Above,
    Even,
    Below,
}

/// Compares a positive score `hi` with the larger base against a positive
/// score `lo` with the smaller base, exactly.
fn compare_larger_base(hi: Score, lo: Score) -> (r: Rel)
    requires
        hi.base > lo.base,
        lo.base > 0,
    ensures
        (r is Above) == lo.lt(hi),
        (r is Below) == hi.lt(lo),
        (r is Even) == hi.eqv(lo),
{
    let ghost bh = hi.base as int;
    let ghost lh = hi.name_bytes as int;
    let ghost bl = lo.base as int;
    let ghost ll = lo.name_bytes as int;
    let d = hi.base - lo.base;
    proof {
        lemma_mul_le(d as int, u32::MAX as int, ll + 1, u64::MAX as int + 1);
    }
    let t = (d as u128) * ((lo.name_bytes as u128) + 1);
    proof {
        lemma_cross_int(bh, lh, bl, ll);
        assert((bh - bl) * (ll + 1) * (lh + 1) == (t as int) * (lh + 1)) by (nonlinear_arith)
            requires
                t as int == (bh - bl) * (ll + 1),
        ;
        assert(hi.num() * lo.den() - lo.num() * hi.den() == (t as int) * (lh + 1) + 20 * (ll + 1)
            - 20 * (lh + 1));
    }
    if t >= 20 {
        proof {
            assert((t as int) * (lh + 1) - 20 * (lh + 1) == ((t as int) - 20) * (lh + 1))
                by (nonlinear_arith);
            assert(((t as int) - 20) * (lh + 1) >= 0) by (nonlinear_arith)
                requires
                    t as int >= 20,
                    lh >= 0,
            ;
        }
        Rel::Above
    } else {
        let m: u128 = 20 - t;
        proof {
            lemma_mul_le(m as int, 20, lh + 1, u64::MAX as int + 1);
            lemma_mul_le(20, 20, ll + 1, u64::MAX as int + 1);
        }
        let lhs: u128 = 20 * ((lo.name_bytes as u128) + 1);
        let rhs: u128 = m * ((hi.name_bytes as u128) + 1);
        proof {
            assert((t as int) * (lh + 1) - 20 * (lh + 1) == ((t as int) - 20) * (lh + 1))
                by (nonlinear_arith);
            assert(((t as int) - 20) * (lh + 1) == -((m as int) * (lh + 1))) by (nonlinear_arith)
                requires
                    m as int == 20 - (t as int),
            ;
            assert(hi.num() * lo.den() - lo.num() * hi.den() == (lhs as int) - (rhs as int));
        }
        if lhs > rhs {
            Rel::Above
        } else if lhs == rhs {
            Rel::Even
        } else {
            Rel::Below
        }
    }
}

/// A product of two values below the given bounds stays below the bounds'
/// product.
proof fn lemma_mul_le(a: int, amax: int, b: int, bmax: int)
    by (nonlinear_arith)
    requires
        0 <= a <= amax,
        0 <= b <= bmax,
    ensures
        a * b <= amax * bmax,
{
}

/// A product of two positive values is positive.
proof fn lemma_mul_pos(a: int, b: int)
    by (nonlinear_arith)
    requires
        a > 0,
        b > 0,
    ensures
        a * b > 0,
{
}

/// Cross-multiplied difference of two positive scores with distinct bases,
/// written over their parts.
proof fn lemma_cross_int(bh: int, lh: int, bl: int, ll: int)
    by (nonlinear_arith)
    requires
        bh > bl >= 1,
        lh >= 0,
        ll >= 0,
    ensures
        (bh * (lh + 1) + 20) * (ll + 1) - (bl * (ll + 1) + 20) * (lh + 1) == (bh - bl) * (ll + 1)
            * (lh + 1) + 20 * (ll + 1) - 20 * (lh + 1),
{
}

/// With equal positive bases, the shorter name scores strictly higher.
proof fn lemma_same_base_int(b: int, la: int, lb: int)
    by (nonlinear_arith)
    requires
        b >= 1,
        la >= 0,
        lb >= 0,
    ensures
        ((b * (la + 1) + 20) * (lb + 1) < (b * (lb + 1) + 20) * (la + 1)) == (lb < la),
        ((b * (la + 1) + 20) * (lb + 1) == (b * (lb + 1) + 20) * (la + 1)) == (lb == la),
{
}

/// Strict order of exact fractions is transitive, written over their parts.
proof fn lemma_rat_lt_trans(na: int, da: int, nb: int, db: int, nc: int, dc: int)
    by (nonlinear_arith)
    requires
        da >= 1,
        db >= 1,
        dc >= 1,
        na * db < nb * da,
        nb * dc < nc * db,
    ensures
        na * dc < nc * da,
{
}

/// Equality of exact fractions respects their strict order, written over
/// their parts.
proof fn lemma_rat_eqv_lt(na: int, da: int, nb: int, db: int, nc: int, dc: int)
    by (nonlinear_arith)
    requires
        da >= 1,
        db >= 1,
        dc >= 1,
        na * db == nb * da,
    ensures
        (nb * dc < nc * db) ==> (na * dc < nc * da),
        (nc * db < nb * dc) ==> (nc * da < na * dc),
{
}

/// A base lead of at least the whole shortness bonus decides the order: the
/// bonus never exceeds 20.
pub proof fn lemma_score_base_gap(a: Score, b: Score)
    requires
        a.base >= b.base + 20,
        b.base >= 1,
    ensures
        b.lt(a),
{
    let bh = a.base as int;
    let lh = a.name_bytes as int;
    let bl = b.base as int;
    let ll = b.name_bytes as int;
    lemma_cross_int(bh, lh, bl, ll);
    assert((bh - bl) * (ll + 1) * (lh + 1) + 20 * (ll + 1) - 20 * (lh + 1) > 0)
        by (nonlinear_arith)
        requires
            bh - bl >= 20,
            lh >= 0,
            ll >= 0,
    ;
}

/// The strict score order is transitive.
pub proof fn lemma_score_lt_trans(a: Score, b: Score, c: Score)
    requires
        a.lt(b),
        b.lt(c),
    ensures
        a.lt(c),
{
    lemma_rat_lt_trans(a.num(), a.den(), b.num(), b.den(), c.num(), c.den());
}

/// A score equal in value to a second one stands on the same side of any
/// third score.
pub proof fn lemma_score_eqv_lt(a: Score, b: Score, c: Score)
    requires
        a.eqv(b),
    ensures
        b.lt(c) ==> a.lt(c),
        c.lt(b) ==> c.lt(a),
{
    lemma_rat_eqv_lt(a.num(), a.den(), b.num(), b.den(), c.num(), c.den());
}

/// Score order is total, strict order excludes equality, and value equality
/// is symmetric.
pub proof fn lemma_score_trichotomy(a: Score, b: Score)
    ensures
        a.lt(b) || b.lt(a) || a.eqv(b),
        a.lt(b) ==> !b.lt(a) && !a.eqv(b),
        a.eqv(b) == b.eqv(a),
{
}

} // verus!
