//! What closed concavities are like, on exact values.
use vstd::prelude::*;

use crate::geometry::primitives::edge::Edge;
use crate::geometry::primitives::simple_polygon::SPolygon;
use crate::geometry::shape_modification::ShapeModifyMode;
use crate::math::Elementary;
use crate::num::Num;

verus! {

/// The vertices other than two given ones lie between them, on the way from one to the other or on the
/// way back; the two are neighbours if there is none on one of these ways.
pub proof fn all_other_vertices_lie_between(n: usize, i: usize, j: usize)
    requires
        i < n,
        j < n,
        i != j,
    ensures
        crate::geometry::shape_modification::concavities::vertices_between(n, i, j)
            + crate::geometry::shape_modification::concavities::vertices_between(n, j, i) == n - 2,
        crate::geometry::shape_modification::concavities::neighbours(n, i, j) <==> (
        crate::geometry::shape_modification::concavities::vertices_between(n, i, j) == 0
            || crate::geometry::shape_modification::concavities::vertices_between(n, j, i) == 0),
{
}

/// A concavity is closed only if it is narrow and small: the edge that closes it, shrunk a little, is no
/// longer than its share of the diameter, and the area that it encloses is no more than its share of
/// the area of the polygon, up to rounding. The area is lost to the outline, which turns clockwise
/// around it, where the polygon may only grow, and counterclockwise where it may only shrink.
pub proof fn closed_concavities_are_narrow_and_small<M: Fn(Elementary) -> Num>(
    shape: &SPolygon,
    mode: ShapeModifyMode,
    cutoff: (Num, Num),
    i: usize,
    j: usize,
    math: &M,
)
    requires
        crate::geometry::shape_modification::concavities::closes_concavity(
            shape,
            mode,
            cutoff,
            i,
            j,
            math,
        ),
        cutoff.0.mul(shape.diameter).is_finite(),
        cutoff.1.mul(shape.area).is_finite(),
        ({
            let joint = Edge {
                start: shape.vertices@[i as int],
                end: shape.vertices@[j as int],
            };
            joint.scale(Num::almost_one()).length().is_finite()
        }),
        crate::geometry::primitives::boundary::chord_area(
            crate::geometry::shape_modification::concavities::vertices_from(
                shape.vertices@,
                i as int,
                j as int,
            ),
        ).is_finite(),
    ensures
        ({
            let joint = Edge {
                start: shape.vertices@[i as int],
                end: shape.vertices@[j as int],
            };
            let length = crate::num::estimate::exact(
                joint.scale(Num::almost_one()).length(),
            );
            let area = crate::num::estimate::exact(
                crate::geometry::primitives::boundary::chord_area(
                    crate::geometry::shape_modification::concavities::vertices_from(
                        shape.vertices@,
                        i as int,
                        j as int,
                    ),
                ),
            );
            let (d, a) = (
                crate::num::estimate::exact(shape.diameter),
                crate::num::estimate::exact(shape.area),
            );
            let (x, y) = (
                crate::num::estimate::exact(cutoff.0),
                crate::num::estimate::exact(cutoff.1),
            );
            &&& length <= x * d + crate::num::estimate::half_step(cutoff.0.mul(shape.diameter))
            &&& crate::num::estimate::size(area) <= y * a + crate::num::estimate::half_step(
                cutoff.1.mul(shape.area),
            )
            &&& mode is Inflate ==> area < 0real
            &&& mode is Deflate ==> area > 0real
        }),
{
    let joint = Edge { start: shape.vertices@[i as int], end: shape.vertices@[j as int] };
    let length = joint.scale(Num::almost_one()).length();
    let area = crate::geometry::primitives::boundary::chord_area(
        crate::geometry::shape_modification::concavities::vertices_from(
            shape.vertices@,
            i as int,
            j as int,
        ),
    );
    crate::num::estimate::exact_constants();
    crate::num::estimate::products_are_near(cutoff.0, shape.diameter);
    crate::num::estimate::products_are_near(cutoff.1, shape.area);
    crate::num::estimate::exact_values_compare(length, cutoff.0.mul(shape.diameter));
    crate::num::estimate::absolute_values_are_exact(area);
    crate::num::estimate::exact_values_compare(area.abs(), cutoff.1.mul(shape.area));
    crate::num::estimate::exact_values_compare(area, Num::zero());
}

} // verus!
