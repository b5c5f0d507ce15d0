//! Laws of imported shapes.
use vstd::prelude::*;

use crate::error::GeometryError;
use crate::geometry::primitives::circle::Circle;
use crate::geometry::primitives::point::Point;
use crate::geometry::primitives::simple_polygon::{SPolygon, Toolkit};
use crate::io::ext_repr::{ExtBulgedPolygon, ExtSPolygon, ExtShape};
use crate::math::{evaluate, Elementary};
use crate::num::Num;

verus! {

/// Each of the values is one of the given ones, and they come in the given order.
pub open spec fn is_selection<T>(given: Seq<T>, values: Seq<T>, places: Seq<int>) -> bool {
    &&& places.len() == values.len()
    &&& forall|i: int|
        0 <= i < values.len() ==> 0 <= #[trigger] places[i] < given.len() && values[i]
            == given[places[i]]
    &&& forall|i: int, j: int|
        0 <= i < j < values.len() ==> #[trigger] places[i] < #[trigger] places[j]
}

/// Those of the vertices that are kept, and their bulges, come from the same places.
proof fn lemma_kept<T>(points: Seq<Point>, values: Seq<T>, n: nat) -> (places: Seq<int>)
    requires
        n <= points.len(),
        points.len() <= values.len(),
    ensures
        is_selection(
            points,
            crate::io::import::boundaries::kept(points, points, n),
            places,
        ),
        is_selection(
            values,
            crate::io::import::boundaries::kept(points, values, n),
            places,
        ),
        forall|i: int| 0 <= i < places.len() ==> #[trigger] places[i] < n,
    decreases n,
{
    if n == 0 {
        Seq::empty()
    } else {
        let i = n - 1;
        let before = lemma_kept(points, values, i as nat);
        if crate::io::import::boundaries::points_match(
            points[i],
            crate::geometry::primitives::boundary::successor(points, i),
        ) {
            before
        } else {
            before.push(i)
        }
    }
}

/// The supplied tangent of an eighth of a turn, which is a quarter of the greatest sweep that is kept,
/// is not less than the bulge.
pub open spec fn is_kept_whole<M: Fn(Elementary) -> Num>(bulge: Num, math: &M) -> bool {
    forall|angle: Num|
        #![trigger evaluate(math, Elementary::Tan(angle))]
        angle.is_finite() && 8real * crate::num::estimate::exact(angle)
            == crate::num::estimate::exact(Num::tau()) ==> {
            let tangent = evaluate(math, Elementary::Tan(angle));
            &&& tangent.is_finite()
            &&& bulge.is_finite()
            &&& crate::num::estimate::size(crate::num::estimate::exact(bulge))
                <= crate::num::estimate::exact(tangent)
        }
}

/// Such a bulge needs no split.
proof fn lemma_kept_whole<M: Fn(Elementary) -> Num>(bulge: Num, math: &M)
    requires
        is_kept_whole(bulge, math),
    ensures
        crate::io::import::boundaries::needs_no_split(
            bulge,
            crate::io::import::boundaries::max_cavalier_sweep(),
            math,
        ),
{
    let angle = Num::pi().div(Num::four());
    crate::num::estimate::lemma_quarter_turns();
    let tangent = evaluate(math, Elementary::Tan(angle));
    let epsilon = crate::geometry::primitives::boundary::bulge_epsilon();
    crate::num::estimate::lemma_sign(epsilon);
    assert(epsilon.value() >= 0);
    crate::num::estimate::sums_do_not_fall_below(tangent, epsilon);
    crate::num::estimate::absolute_values_are_exact(bulge);
    crate::num::estimate::exact_values_compare(bulge.abs(), tangent);
}

proof fn lemma_not_split<M: Fn(Elementary) -> Num>(
    points: Seq<Point>,
    bulges: Seq<Num>,
    n: nat,
    math: &M,
)
    requires
        n <= points.len() == bulges.len(),
        forall|i: int| 0 <= i < bulges.len() ==> is_kept_whole(#[trigger] bulges[i], math),
    ensures
        crate::io::import::boundaries::split_among(
            points,
            bulges,
            crate::io::import::boundaries::max_cavalier_sweep(),
            n,
            math,
        ) matches Ok(split) ==> split.points == points.take(n as int) && split.bulges
            == bulges.take(n as int),
    decreases n,
{
    if n > 0 {
        lemma_not_split(points, bulges, (n - 1) as nat, math);
        lemma_kept_whole(bulges[n - 1], math);
        assert(points.take(n - 1) + seq![points[n - 1]] =~= points.take(n as int));
        assert(bulges.take(n - 1) + seq![bulges[n - 1]] =~= bulges.take(n as int));
    } else {
        assert(points.take(0) =~= Seq::<Point>::empty());
        assert(bulges.take(0) =~= Seq::<Num>::empty());
    }
}

/// A boundary whose vertices and bulges are given ones, in the given order or in the opposite one; in
/// the latter case the bulges are opposite too.
pub open spec fn is_made_of(
    points: Seq<Point>,
    bulges: Seq<Num>,
    shape: SPolygon,
    places: Seq<int>,
    vertices: Seq<Point>,
    arcs: Seq<Num>,
) -> bool {
    &&& is_selection(points, vertices, places)
    &&& is_selection(bulges, arcs, places)
    &&& {
        ||| shape.vertices@ == vertices && shape.bulges@ == arcs
        ||| shape.vertices@ == vertices.reverse() && shape.bulges@
            == crate::geometry::primitives::boundary::reversed_bulges(arcs)
    }
}

/// A boundary no segment of which is cut is imported with given vertices and their bulges, in the
/// given order or in the opposite one.
pub proof fn imported_vertices_are_given<
    M: Fn(Elementary) -> Num,
    P: Fn(&SPolygon) -> Result<Circle, GeometryError>,
>(points: Seq<Point>, bulges: Seq<Num>, tools: &Toolkit<M, P>, shape: SPolygon) -> (r: (
    Seq<int>,
    Seq<Point>,
    Seq<Num>,
))
    requires
        points.len() == bulges.len(),
        crate::io::import::boundaries::is_imported(points, bulges, tools, Ok(shape)),
        forall|i: int| 0 <= i < bulges.len() ==> is_kept_whole(#[trigger] bulges[i], &tools.math),
    ensures
        is_made_of(points, bulges, shape, r.0, r.1, r.2),
        r.1.len() >= 3,
        r.1.len() == shape.vertices@.len(),
{
    let open_points = crate::io::import::boundaries::opened(points, points);
    let open_bulges = crate::io::import::boundaries::opened(points, bulges);
    let clean = crate::io::import::boundaries::cleaned(points, bulges);
    let places = lemma_kept(open_points, open_bulges, open_points.len());
    assert(is_selection(points, clean.points, places)) by {
        assert forall|i: int| 0 <= i < clean.points.len() implies 0 <= #[trigger] places[i]
            < points.len() && clean.points[i] == points[places[i]] by {
            assert(open_points[places[i]] == points[places[i]]);
        }
    }
    assert(is_selection(bulges, clean.bulges, places)) by {
        assert forall|i: int| 0 <= i < clean.bulges.len() implies 0 <= #[trigger] places[i]
            < bulges.len() && clean.bulges[i] == bulges[places[i]] by {
            assert(open_bulges[places[i]] == bulges[places[i]]);
        }
    }
    assert forall|i: int| 0 <= i < clean.bulges.len() implies is_kept_whole(
        #[trigger] clean.bulges[i],
        &tools.math,
    ) by {
        assert(0 <= places[i] < bulges.len());
        assert(is_kept_whole(bulges[places[i]], &tools.math));
    }
    lemma_not_split(clean.points, clean.bulges, clean.points.len(), &tools.math);
    assert(clean.points.take(clean.points.len() as int) =~= clean.points);
    assert(clean.bulges.take(clean.points.len() as int) =~= clean.bulges);
    assert(shape@.vertices == shape.vertices@);
    assert(shape@.bulges == shape.bulges@);
    (places, clean.points, clean.bulges)
}

/// The point lies to the left or the right of the center, at the distance of the radius, up to half a
/// step of its abscissa.
pub open spec fn is_beside(point: Point, cx: Num, cy: Num, r: Num) -> bool {
    &&& point.1.num_eq(cy)
    &&& crate::num::estimate::size(
        crate::num::estimate::size(
            crate::num::estimate::exact(point.0) - crate::num::estimate::exact(cx),
        ) - crate::num::estimate::exact(r),
    ) <= crate::num::estimate::half_step(point.0)
}

/// The point lies above or below the center, at the distance of the radius, up to half a step of its
/// ordinate.
pub open spec fn is_above_or_below(point: Point, cx: Num, cy: Num, r: Num) -> bool {
    &&& point.0.num_eq(cx)
    &&& crate::num::estimate::size(
        crate::num::estimate::size(
            crate::num::estimate::exact(point.1) - crate::num::estimate::exact(cy),
        ) - crate::num::estimate::exact(r),
    ) <= crate::num::estimate::half_step(point.1)
}

proof fn lemma_circle_vertex(c: Num, r: Num, up: bool)
    requires
        c.is_finite(),
        r.is_finite(),
        r.gt(Num::zero()),
        up ==> c.add(r).is_finite(),
        !up ==> c.sub(r).is_finite(),
    ensures
        ({
            let x = if up {
                c.add(r)
            } else {
                c.sub(r)
            };
            crate::num::estimate::size(
                crate::num::estimate::size(
                    crate::num::estimate::exact(x) - crate::num::estimate::exact(c),
                ) - crate::num::estimate::exact(r),
            ) <= crate::num::estimate::half_step(x)
        }),
{
    crate::num::estimate::exact_constants();
    crate::num::estimate::exact_values_compare(r, Num::zero());
    if up {
        crate::num::estimate::sums_are_near(c, r);
    } else {
        crate::num::estimate::differences_are_near(c, r);
    }
}

/// Every vertex of an imported circle lies at the distance of the radius from its center, along one of
/// the axes, and vertices along the two axes take turns. Every bulge is that of a quarter turn: the
/// supplied tangent of a sixteenth of a full turn, or its opposite.
///
/// The sums of the coordinates and the radius are numbers, and the supplied tangent of a quarter of
/// half a turn is not less than that of a quarter of a quarter turn.
pub proof fn imported_circles_have_their_center_and_radius<
    M: Fn(Elementary) -> Num,
    P: Fn(&SPolygon) -> Result<Circle, GeometryError>,
>(cx: Num, cy: Num, r: Num, tools: &Toolkit<M, P>, shape: SPolygon, angle: Num)
    requires
        angle.is_finite(),
        16real * crate::num::estimate::exact(angle) == crate::num::estimate::exact(Num::tau()),
        crate::io::import::shapes::is_shape_import(
            &ExtShape::Circle { cx, cy, r },
            tools,
            Ok(shape),
        ),
        cx.add(r).is_finite(),
        cx.sub(r).is_finite(),
        cy.add(r).is_finite(),
        cy.sub(r).is_finite(),
        is_kept_whole(evaluate(&tools.math, Elementary::Tan(angle)), &tools.math),
    ensures
        forall|i: int|
            #![trigger shape.vertices@[i]]
            0 <= i < shape.vertices@.len() ==> is_beside(shape.vertices@[i], cx, cy, r)
                || is_above_or_below(shape.vertices@[i], cx, cy, r),
        3 <= shape.vertices@.len() <= 4,
        shape.vertices@.len() == 4 ==> {
            let v = shape.vertices@;
            ||| {
                &&& is_beside(v[0], cx, cy, r) && is_beside(v[2], cx, cy, r)
                &&& is_above_or_below(v[1], cx, cy, r) && is_above_or_below(v[3], cx, cy, r)
            }
            ||| {
                &&& is_above_or_below(v[0], cx, cy, r) && is_above_or_below(v[2], cx, cy, r)
                &&& is_beside(v[1], cx, cy, r) && is_beside(v[3], cx, cy, r)
            }
        },
        forall|i: int|
            0 <= i < shape.bulges@.len() ==> {
                ||| #[trigger] shape.bulges@[i] == evaluate(&tools.math, Elementary::Tan(angle))
                ||| shape.bulges@[i] == evaluate(&tools.math, Elementary::Tan(angle)).neg()
            },
{
    crate::num::estimate::lemma_quarter_turns();
    crate::num::estimate::lemma_sign(Num::tau());
    lemma_full_turn();
    crate::num::estimate::exact_values_tell_numbers_apart(
        angle,
        Num::frac_pi_2().div(Num::four()),
    );
    let points = crate::io::import::shapes::circle_vertices(cx, cy, r);
    let bulge = crate::io::import::shapes::quarter_bulge(&tools.math);
    let bulges = Seq::new(4, |i: int| bulge);
    assert(crate::io::import::boundaries::is_imported(points, bulges, tools, Ok(shape)));
    let (places, vertices, arcs) = imported_vertices_are_given(points, bulges, tools, shape);
    lemma_circle_vertex(cx, r, true);
    lemma_circle_vertex(cx, r, false);
    lemma_circle_vertex(cy, r, true);
    lemma_circle_vertex(cy, r, false);
    assert(is_beside(points[0], cx, cy, r) && is_beside(points[2], cx, cy, r));
    assert(is_above_or_below(points[1], cx, cy, r) && is_above_or_below(points[3], cx, cy, r));
    assert forall|i: int| 0 <= i < vertices.len() implies is_beside(
        #[trigger] vertices[i],
        cx,
        cy,
        r,
    ) || is_above_or_below(vertices[i], cx, cy, r) by {
        assert(0 <= places[i] < 4);
        assert(vertices[i] == points[places[i]]);
    }
    assert forall|i: int| #![trigger shape.vertices@[i]] 0 <= i < shape.vertices@.len() implies
        is_beside(shape.vertices@[i], cx, cy, r) || is_above_or_below(
        shape.vertices@[i],
        cx,
        cy,
        r,
    ) by {
        let n = vertices.len();
        if shape.vertices@ == vertices {
            assert(shape.vertices@[i] == vertices[i]);
        } else {
            assert(shape.vertices@[i] == vertices[n - 1 - i]);
        }
    }
    let n = vertices.len();
    assert(n <= 4) by {
        if n >= 5 {
            assert(places[0] < places[1] && places[1] < places[2] && places[2] < places[3]
                && places[3] < places[4]);
            assert(0 <= places[0] && places[4] < 4);
        }
    }
    if n == 4 {
        assert(places[0] < places[1] && places[1] < places[2] && places[2] < places[3]);
        assert(0 <= places[0] && places[3] < 4);
        assert(places[0] == 0 && places[1] == 1 && places[2] == 2 && places[3] == 3);
        assert(vertices[0] == points[0] && vertices[1] == points[1] && vertices[2] == points[2]
            && vertices[3] == points[3]);
    }
    assert forall|i: int| 0 <= i < arcs.len() implies #[trigger] arcs[i] == bulge by {
        assert(0 <= places[i] < 4);
        assert(arcs[i] == bulges[places[i]]);
    }
    assert forall|i: int| 0 <= i < shape.bulges@.len() implies {
        ||| #[trigger] shape.bulges@[i] == bulge
        ||| shape.bulges@[i] == bulge.neg()
    } by {
        if shape.bulges@ == arcs {
            assert(shape.bulges@[i] == arcs[i]);
        } else {
            let m = arcs.len();
            if i == m - 1 {
                assert(arcs[i] == bulge);
            } else {
                assert(arcs[m - 2 - i] == bulge);
            }
        }
    }
}

proof fn lemma_full_turn()
    ensures
        crate::num::estimate::exact(Num::tau()) > 0real,
        Num::frac_pi_2().div(Num::four()).is_finite(),
{
    let tau = Num::tau();
    crate::num::estimate::lemma_quarter_turns();
    crate::num::estimate::lemma_sign(tau);
    crate::num::laws::order_agrees_with_value(Num::zero(), tau);
    crate::num::lemma_zero_significand(Num::zero());
    assert(tau.value() > 0);
}

/// An imported rectangle has four vertices. Each lies at the given corner or away from it by the given
/// width or height, and from one vertex to the next one of the two changes.
pub proof fn imported_rectangles_have_their_extent<
    M: Fn(Elementary) -> Num,
    P: Fn(&SPolygon) -> Result<Circle, GeometryError>,
>(x_min: Num, y_min: Num, width: Num, height: Num, tools: &Toolkit<M, P>, shape: SPolygon)
    requires
        crate::io::import::shapes::is_shape_import(
            &ExtShape::Rectangle { x_min, y_min, width, height },
            tools,
            Ok(shape),
        ),
        x_min.add(width).is_finite(),
        y_min.add(height).is_finite(),
    ensures
        shape.vertices@.len() == 4,
        forall|i: int|
            0 <= i < 4 ==> {
                let v = #[trigger] shape.vertices@[i];
                let next = crate::geometry::primitives::boundary::successor(shape.vertices@, i);
                &&& v.0 == x_min || crate::num::estimate::size(
                    crate::num::estimate::exact(v.0) - (crate::num::estimate::exact(x_min)
                        + crate::num::estimate::exact(width)),
                ) <= crate::num::estimate::half_step(v.0)
                &&& v.1 == y_min || crate::num::estimate::size(
                    crate::num::estimate::exact(v.1) - (crate::num::estimate::exact(y_min)
                        + crate::num::estimate::exact(height)),
                ) <= crate::num::estimate::half_step(v.1)
                &&& (v.0 == next.0) != (v.1 == next.1)
            },
{
    let rect = crate::geometry::primitives::rect::Rect::try_new(
        x_min,
        y_min,
        x_min.add(width),
        y_min.add(height),
    )->Ok_0;
    let points = seq![
        Point(rect.x_min, rect.y_min),
        Point(rect.x_max, rect.y_min),
        Point(rect.x_max, rect.y_max),
        Point(rect.x_min, rect.y_max),
    ];
    crate::num::estimate::sums_are_near(x_min, width);
    crate::num::estimate::sums_are_near(y_min, height);
    assert(rect.x_min != rect.x_max && rect.y_min != rect.y_max);
    let v = shape@.vertices;
    assert(v == shape.vertices@);
    if v == points {
        assert(v[0] == points[0] && v[1] == points[1] && v[2] == points[2] && v[3] == points[3]);
    } else {
        assert(v == points.reverse());
        assert(v[0] == points[3] && v[1] == points[2] && v[2] == points[1] && v[3] == points[0]);
    }
}

/// A polygon that is imported with straight sides has vertices of the given one, in the given order or
/// in the opposite one.
pub proof fn imported_polygons_have_the_given_vertices<
    M: Fn(Elementary) -> Num,
    P: Fn(&SPolygon) -> Result<Circle, GeometryError>,
>(sp: ExtSPolygon, tools: &Toolkit<M, P>, shape: SPolygon) -> (r: (Seq<int>, Seq<Point>))
    requires
        crate::io::import::shapes::is_shape_import(
            &ExtShape::SimplePolygon(sp),
            tools,
            Ok(shape),
        ),
        is_kept_whole(Num::zero(), &tools.math),
    ensures
        r.0.len() == shape.vertices@.len(),
        shape.vertices@ == r.1 || shape.vertices@ == r.1.reverse(),
        forall|i: int|
            0 <= i < r.1.len() ==> 0 <= #[trigger] r.0[i] < sp.0@.len() && r.1[i].0
                == sp.0@[r.0[i]].0 && r.1[i].1 == sp.0@[r.0[i]].1,
        forall|i: int, j: int| 0 <= i < j < r.1.len() ==> #[trigger] r.0[i] < #[trigger] r.0[j],
{
    let points = crate::io::import::shapes::vertices_of(&sp);
    let bulges = crate::geometry::primitives::simple_polygon::straight_bulges(sp.0@.len());
    let (places, vertices, arcs) = imported_vertices_are_given(points, bulges, tools, shape);
    (places, vertices)
}

/// A polygon that is imported with bulges, none of which is cut, has vertices of the given one with
/// their bulges, in the given order or in the opposite one, in which the bulges are opposite.
pub proof fn imported_polygons_have_the_given_bulges<
    M: Fn(Elementary) -> Num,
    P: Fn(&SPolygon) -> Result<Circle, GeometryError>,
>(sp: ExtBulgedPolygon, tools: &Toolkit<M, P>, shape: SPolygon) -> (r: (
    Seq<int>,
    Seq<Point>,
    Seq<Num>,
))
    requires
        crate::io::import::shapes::is_shape_import(
            &ExtShape::BulgedPolygon(sp),
            tools,
            Ok(shape),
        ),
        forall|i: int| 0 <= i < sp.0@.len() ==> is_kept_whole(#[trigger] sp.0@[i].2, &tools.math),
    ensures
        r.0.len() == r.1.len() == r.2.len(),
        (shape.vertices@ == r.1 && shape.bulges@ == r.2) || (shape.vertices@ == r.1.reverse()
            && shape.bulges@ == crate::geometry::primitives::boundary::reversed_bulges(r.2)),
        forall|i: int|
            0 <= i < r.1.len() ==> 0 <= #[trigger] r.0[i] < sp.0@.len() && (r.1[i].0, r.1[i].1, r.2[i])
                == sp.0@[r.0[i]],
        forall|i: int, j: int| 0 <= i < j < r.1.len() ==> #[trigger] r.0[i] < #[trigger] r.0[j],
{
    let points = crate::io::import::boundaries::places(sp.0@);
    let bulges = crate::io::import::boundaries::bulges_of(sp.0@);
    assert forall|i: int| 0 <= i < bulges.len() implies is_kept_whole(
        #[trigger] bulges[i],
        &tools.math,
    ) by {
        assert(is_kept_whole(sp.0@[i].2, &tools.math));
    }
    imported_vertices_are_given(points, bulges, tools, shape)
}

} // verus!
