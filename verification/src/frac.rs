//! Executable exact fractions.
//!
//! Distances and error values are non-negative rationals.  `Frac` carries
//! them as a 128-bit numerator and positive denominator; its view is the
//! ghost rational it denotes.  Addition and equality either answer exactly
//! or report that 128 bits do not suffice — never an approximate value.

use vstd::prelude::*;

use crate::rat::{Rat, rat_add, rat_eq, rat_le, rat_wf};
use crate::point::{Centroid, DataPoint, spec_dist_pc, valid_centroid, valid_point};
use crate::MAX_COORD;
use crate::MAX_POINTS;

verus! {

/// An exact non-negative fraction `num / den` with `den >= 1`.
#[derive(Clone, Copy, Debug, PartialEq, Eq, Structural)]
pub struct Frac {
    pub num: u128,
    pub den: u128,
}

impl View for Frac {
    type V = Rat;

    open spec fn view(&self) -> Rat {
        Rat { num: self.num as int, den: self.den as int }
    }
}

/// Bound on the scaled coordinate difference `p.x * count - sum_x`.
pub open spec fn spec_scale_bound() -> int {
    2 * (MAX_POINTS as int) * (MAX_COORD as int)
}

/// Bound on the numerator of a point-to-centroid distance.
pub open spec fn spec_dist_num_bound() -> int {
    2 * spec_scale_bound() * spec_scale_bound()
}

/// Bound on the denominator of a point-to-centroid distance.
pub open spec fn spec_dist_den_bound() -> int {
    (MAX_POINTS as int) * (MAX_POINTS as int)
}

/// The numeric value of the distance-numerator bound.
pub proof fn lemma_num_bound_value()
    ensures
        spec_dist_num_bound() == 9671406556917033397649408,
{
    assert(spec_scale_bound() == 2199023255552);
    assert(spec_dist_num_bound() == 9671406556917033397649408) by (nonlinear_arith)
        requires
            spec_dist_num_bound() == 2 * spec_scale_bound() * spec_scale_bound(),
            spec_scale_bound() == 2199023255552,
    ;
}

/// The product of two values within the distance bounds fits in 128 bits.
pub proof fn lemma_dist_product_fits(n: int, d: int)
    requires
        0 <= n <= spec_dist_num_bound(),
        0 <= d <= spec_dist_den_bound(),
    ensures
        n * d <= u128::MAX,
{
    assert(spec_scale_bound() == 2199023255552);
    assert(spec_dist_num_bound() == 9671406556917033397649408) by (nonlinear_arith)
        requires
            spec_dist_num_bound() == 2 * spec_scale_bound() * spec_scale_bound(),
            spec_scale_bound() == 2199023255552,
    ;
    assert(n * d <= 10633823966279326983230456482242756608) by (nonlinear_arith)
        requires
            0 <= n <= 9671406556917033397649408,
            0 <= d <= 1099511627776,
    ;
}

/// The numerator and denominator of a point-to-centroid distance stay
/// within the stated bounds.
pub proof fn lemma_dist_pc_bounds(p: DataPoint, c: Centroid)
    requires
        valid_point(p),
        valid_centroid(c),
    ensures
        0 <= spec_dist_pc(p, c).num <= spec_dist_num_bound(),
        1 <= spec_dist_pc(p, c).den <= spec_dist_den_bound(),
{
    let dx = p.x * c.count - c.sum_x;
    let dy = p.y * c.count - c.sum_y;
    assert(-spec_scale_bound() <= dx <= spec_scale_bound() && -spec_scale_bound() <= dy
        <= spec_scale_bound()) by (nonlinear_arith)
        requires
            dx == p.x * c.count - c.sum_x,
            dy == p.y * c.count - c.sum_y,
            -(MAX_COORD as int) <= p.x <= MAX_COORD as int,
            -(MAX_COORD as int) <= p.y <= MAX_COORD as int,
            1 <= c.count <= MAX_POINTS as int,
            -(c.count * MAX_COORD) <= c.sum_x <= c.count * MAX_COORD,
            -(c.count * MAX_COORD) <= c.sum_y <= c.count * MAX_COORD,
    ;
    assert(0 <= dx * dx + dy * dy <= 2 * spec_scale_bound() * spec_scale_bound() && 1 <= c.count
        * c.count <= spec_dist_den_bound()) by (nonlinear_arith)
        requires
            -spec_scale_bound() <= dx <= spec_scale_bound(),
            -spec_scale_bound() <= dy <= spec_scale_bound(),
            1 <= c.count <= MAX_POINTS as int,
    ;
}

/// Whether `a <= b` as rationals; exact, by cross multiplication.
pub fn frac_le(a: &Frac, b: &Frac) -> (r: bool)
    requires
        a.den >= 1,
        b.den >= 1,
        a.num * b.den <= u128::MAX,
        b.num * a.den <= u128::MAX,
    ensures
        r == rat_le(a@, b@),
{
    a.num * b.den <= b.num * a.den
}

/// Whether two fractions denote the same rational, or `None` when the cross
/// products exceed 128 bits.
pub fn frac_eq(a: &Frac, b: &Frac) -> (r: Option<bool>)
    requires
        a.den >= 1,
        b.den >= 1,
    ensures
        r matches Some(e) ==> (e <==> rat_eq(a@, b@)),
        r is Some <==> (a.num * b.den <= u128::MAX && b.num * a.den <= u128::MAX),
{
    match a.num.checked_mul(b.den) {
        None => None,
        Some(l) => match b.num.checked_mul(a.den) {
            None => None,
            Some(rr) => Some(l == rr),
        },
    }
}

/// The exact sum of two fractions, or `None` when the result's raw
/// numerator or denominator exceeds 128 bits.
pub fn frac_add(a: &Frac, b: &Frac) -> (r: Option<Frac>)
    requires
        a.den >= 1,
        b.den >= 1,
    ensures
        r is Some <==> (rat_add(a@, b@).num <= u128::MAX && rat_add(a@, b@).den <= u128::MAX),
        r matches Some(f) ==> f.num as int == rat_add(a@, b@).num && f.den as int == rat_add(
            a@,
            b@,
        ).den && f.den >= 1,
{
    let n1 = match a.num.checked_mul(b.den) {
        None => {
            return None;
        },
        Some(v) => v,
    };
    let n2 = match b.num.checked_mul(a.den) {
        None => {
            return None;
        },
        Some(v) => v,
    };
    let num = match n1.checked_add(n2) {
        None => {
            return None;
        },
        Some(v) => v,
    };
    let den = match a.den.checked_mul(b.den) {
        None => {
            return None;
        },
        Some(v) => v,
    };
    proof {
        assert(a.den * b.den >= 1) by (nonlinear_arith)
            requires
                a.den >= 1,
                b.den >= 1,
        ;
    }
    Some(Frac { num, den })
}

/// The exact squared distance between a point and a centroid, as the
/// fraction `spec_dist_pc` denotes, with its size bounds.
pub fn dist_frac(p: &DataPoint, c: &Centroid) -> (r: Frac)
    requires
        valid_point(*p),
        valid_centroid(*c),
    ensures
        r.num as int == spec_dist_pc(*p, *c).num,
        r.den as int == spec_dist_pc(*p, *c).den,
        1 <= r.den,
        r.num as int <= spec_dist_num_bound(),
        r.den as int <= spec_dist_den_bound(),
{
    let cnt: i128 = c.count as i128;
    proof {
        assert(-spec_scale_bound() <= p.x * cnt - c.sum_x <= spec_scale_bound()
            && -spec_scale_bound() <= p.y * cnt - c.sum_y <= spec_scale_bound())
            by (nonlinear_arith)
            requires
                cnt == c.count as int,
                -(MAX_COORD as int) <= p.x <= MAX_COORD as int,
                -(MAX_COORD as int) <= p.y <= MAX_COORD as int,
                1 <= c.count <= MAX_POINTS as int,
                -(c.count * MAX_COORD) <= c.sum_x <= c.count * MAX_COORD,
                -(c.count * MAX_COORD) <= c.sum_y <= c.count * MAX_COORD,
        ;
    }
    let dx: i128 = (p.x as i128) * cnt - (c.sum_x as i128);
    let dy: i128 = (p.y as i128) * cnt - (c.sum_y as i128);
    proof {
        assert(0 <= dx * dx <= spec_scale_bound() * spec_scale_bound() && 0 <= dy * dy
            <= spec_scale_bound() * spec_scale_bound()) by (nonlinear_arith)
            requires
                -spec_scale_bound() <= dx <= spec_scale_bound(),
                -spec_scale_bound() <= dy <= spec_scale_bound(),
        ;
        assert(1 <= cnt * cnt <= spec_dist_den_bound()) by (nonlinear_arith)
            requires
                1 <= cnt <= MAX_POINTS as int,
        ;
    }
    let num: i128 = dx * dx + dy * dy;
    Frac { num: num as u128, den: (cnt * cnt) as u128 }
}

} // verus!
