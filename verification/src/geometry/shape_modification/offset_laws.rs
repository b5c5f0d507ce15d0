//! Laws of offsets, on exact values.
use vstd::prelude::*;

use crate::geometry::shape_modification::offsetting::Contour;
use crate::geometry::shape_modification::ShapeModifyMode;
use crate::num::Num;

verus! {

/// A shape that is inflated has its boundary moved outward by the distance, one that is deflated
/// inward; what is outward for one is inward for the other.
pub proof fn inflating_moves_the_boundary_outward(mode: ShapeModifyMode, distance: Num)
    ensures
        ({
            let (out, inside) = (
                crate::num::estimate::exact(
                    crate::geometry::shape_modification::offsetting::outward(mode, distance),
                ),
                crate::num::estimate::exact(
                    crate::geometry::shape_modification::offsetting::inward(mode, distance),
                ),
            );
            let d = crate::num::estimate::exact(distance);
            &&& out == -inside
            &&& mode is Inflate ==> out == d
            &&& mode is Deflate ==> inside == d
        }),
{
    crate::num::estimate::negations_are_exact(distance);
}

/// A segment sweeps more than half a turn if its bulge is more than one, in either direction; up to
/// the tolerance it counts as no more.
pub proof fn large_bulges_exceed_half_a_turn(bulge: Num)
    requires
        bulge.is_finite(),
        Num::one().add(Num::e_minus_6()).is_finite(),
    ensures
        ({
            let b = crate::num::estimate::size(crate::num::estimate::exact(bulge));
            let limit = 1real + crate::num::estimate::exact(Num::e_minus_6());
            let slack = crate::num::estimate::half_step(Num::one().add(Num::e_minus_6()));
            &&& b <= limit - slack
                ==> !crate::geometry::shape_modification::offsetting::exceeds_half_turn(bulge)
            &&& b > limit + slack
                ==> crate::geometry::shape_modification::offsetting::exceeds_half_turn(bulge)
        }),
{
    crate::num::estimate::exact_constants();
    crate::num::estimate::sums_are_near(Num::one(), Num::e_minus_6());
    crate::num::estimate::absolute_values_are_exact(bulge);
    crate::num::estimate::exact_values_compare(
        bulge.abs(),
        Num::one().add(Num::e_minus_6()),
    );
}

/// No contour encloses a larger area than the largest one.
pub proof fn the_largest_contour_has_the_largest_area(contours: Seq<Contour>, i: int, j: int)
    requires
        crate::geometry::shape_modification::offsetting::is_largest(contours, i),
        0 <= j < contours.len(),
        contours[i].area.is_finite(),
        contours[j].area.is_finite(),
    ensures
        crate::num::estimate::size(crate::num::estimate::exact(contours[j].area))
            <= crate::num::estimate::size(crate::num::estimate::exact(contours[i].area)),
{
    let (a, b) = (contours[j].area, contours[i].area);
    crate::num::estimate::absolute_values_are_exact(a);
    crate::num::estimate::absolute_values_are_exact(b);
    crate::num::estimate::exact_values_compare(a.abs(), b.abs());
    assert(contours[j].area.abs().sort_key() <= contours[i].area.abs().sort_key());
}

} // verus!
