//! Mathematical rationals for specifications.
//!
//! Distances and error metrics of the clustering engine are exact rational
//! numbers.  This module gives them a ghost representation as a numerator
//! over a positive denominator, with equality and order by cross
//! multiplication, and the handful of algebraic facts the engine's proofs
//! need.

use vstd::prelude::*;

verus! {

/// A rational number `num / den`, meaningful when `den > 0`.
pub ghost struct Rat {
    pub num: int,
    pub den: int,
}

/// A rational representation is well formed when its denominator is positive.
pub open spec fn rat_wf(a: Rat) -> bool {
    a.den > 0
}

/// `a == b` as rational numbers, by cross multiplication.
pub open spec fn rat_eq(a: Rat, b: Rat) -> bool {
    a.num * b.den == b.num * a.den
}

/// `a <= b` as rational numbers, by cross multiplication.
pub open spec fn rat_le(a: Rat, b: Rat) -> bool {
    a.num * b.den <= b.num * a.den
}

/// `a < b` as rational numbers.
pub open spec fn rat_lt(a: Rat, b: Rat) -> bool {
    a.num * b.den < b.num * a.den
}

/// The sum of two rationals.
pub open spec fn rat_add(a: Rat, b: Rat) -> Rat {
    Rat { num: a.num * b.den + b.num * a.den, den: a.den * b.den }
}

/// The rational with value zero.
pub open spec fn rat_zero() -> Rat {
    Rat { num: 0, den: 1 }
}

/// Equality of rationals is transitive.
pub proof fn lemma_rat_eq_trans(a: Rat, b: Rat, c: Rat)
    requires
        rat_wf(a),
        rat_wf(b),
        rat_wf(c),
        rat_eq(a, b),
        rat_eq(b, c),
    ensures
        rat_eq(a, c),
{
    assert(a.num * c.den == c.num * a.den) by (nonlinear_arith)
        requires
            a.num * b.den == b.num * a.den,
            b.num * c.den == c.num * b.den,
            b.den > 0,
    ;
}

/// A strict bound below a weak bound stays strict.
pub proof fn lemma_rat_lt_le_trans(a: Rat, b: Rat, c: Rat)
    requires
        rat_wf(a),
        rat_wf(b),
        rat_wf(c),
        rat_lt(a, b),
        rat_le(b, c),
    ensures
        rat_lt(a, c),
{
    assert(a.num * c.den < c.num * a.den) by (nonlinear_arith)
        requires
            a.num * b.den < b.num * a.den,
            b.num * c.den <= c.num * b.den,
            a.den > 0,
            b.den > 0,
            c.den > 0,
    ;
}

/// Adding rationals over a common denominator adds the numerators.
pub proof fn lemma_rat_add_same_den(a: Rat, b: Rat)
    requires
        rat_wf(a),
        rat_wf(b),
        a.den == b.den,
    ensures
        rat_wf(rat_add(a, b)),
        rat_eq(rat_add(a, b), Rat { num: a.num + b.num, den: a.den }),
{
    assert(a.den * b.den > 0) by (nonlinear_arith)
        requires
            a.den > 0,
            b.den > 0,
    ;
    assert((a.num * b.den + b.num * a.den) * a.den == (a.num + b.num) * (a.den * b.den))
        by (nonlinear_arith)
        requires
            a.den == b.den,
    ;
}

/// Addition of rationals is associative on the raw representation.
#[verifier::rlimit(100)]
pub proof fn lemma_rat_add_assoc(a: Rat, b: Rat, c: Rat)
    ensures
        rat_add(a, rat_add(b, c)) == rat_add(rat_add(a, b), c),
{
    assert(a.num * (b.den * c.den) + (b.num * c.den + c.num * b.den) * a.den == (a.num * b.den
        + b.num * a.den) * c.den + c.num * (a.den * b.den) && a.den * (b.den * c.den) == (a.den
        * b.den) * c.den) by (nonlinear_arith);
}

/// Addition of rationals is commutative on the raw representation.
pub proof fn lemma_rat_add_comm_raw(a: Rat, b: Rat)
    ensures
        rat_add(a, b) == rat_add(b, a),
{
    assert(a.num * b.den + b.num * a.den == b.num * a.den + a.num * b.den && a.den * b.den == b.den
        * a.den) by (nonlinear_arith);
}

/// The sum of well-formed rationals is well formed.
pub proof fn lemma_rat_add_wf(a: Rat, b: Rat)
    requires
        rat_wf(a),
        rat_wf(b),
    ensures
        rat_wf(rat_add(a, b)),
{
    assert(a.den * b.den > 0) by (nonlinear_arith)
        requires
            a.den > 0,
            b.den > 0,
    ;
}

/// Replacing the left summand by an equal rational keeps the sum's value.
#[verifier::rlimit(60)]
pub proof fn lemma_rat_add_congruence_left(a: Rat, a2: Rat, b: Rat)
    requires
        rat_wf(a),
        rat_wf(a2),
        rat_wf(b),
        rat_eq(a, a2),
    ensures
        rat_wf(rat_add(a, b)),
        rat_wf(rat_add(a2, b)),
        rat_eq(rat_add(a, b), rat_add(a2, b)),
{
    lemma_rat_add_wf(a, b);
    lemma_rat_add_wf(a2, b);
    assert((a.num * b.den + b.num * a.den) * (a2.den * b.den) == (a2.num * b.den + b.num
        * a2.den) * (a.den * b.den)) by (nonlinear_arith)
        requires
            a.num * a2.den == a2.num * a.den,
    ;
}

/// Addition of rationals is commutative.
pub proof fn lemma_rat_add_comm(a: Rat, b: Rat)
    requires
        rat_wf(a),
        rat_wf(b),
    ensures
        rat_wf(rat_add(a, b)),
        rat_wf(rat_add(b, a)),
        rat_eq(rat_add(a, b), rat_add(b, a)),
{
    lemma_rat_add_wf(a, b);
    lemma_rat_add_wf(b, a);
    assert(rat_eq(rat_add(a, b), rat_add(b, a))) by (nonlinear_arith)
        requires
            rat_wf(rat_add(a, b)),
            rat_wf(rat_add(b, a)),
            rat_add(a, b).num == a.num * b.den + b.num * a.den,
            rat_add(b, a).num == b.num * a.den + a.num * b.den,
            rat_add(a, b).den == a.den * b.den,
            rat_add(b, a).den == b.den * a.den,
    ;
}

/// Replacing either summand by an equal rational keeps the sum's value.
pub proof fn lemma_rat_add_congruence(a: Rat, b: Rat, a2: Rat, b2: Rat)
    requires
        rat_wf(a),
        rat_wf(b),
        rat_wf(a2),
        rat_wf(b2),
        rat_eq(a, a2),
        rat_eq(b, b2),
    ensures
        rat_wf(rat_add(a, b)),
        rat_wf(rat_add(a2, b2)),
        rat_eq(rat_add(a, b), rat_add(a2, b2)),
{
    lemma_rat_add_congruence_left(a, a2, b);
    lemma_rat_add_comm(a2, b);
    lemma_rat_add_congruence_left(b, b2, a2);
    lemma_rat_add_comm(a2, b2);
    lemma_rat_eq_trans(rat_add(a, b), rat_add(a2, b), rat_add(b, a2));
    lemma_rat_eq_trans(rat_add(a, b), rat_add(b, a2), rat_add(b2, a2));
    lemma_rat_eq_trans(rat_add(a, b), rat_add(b2, a2), rat_add(a2, b2));
}

} // verus!
