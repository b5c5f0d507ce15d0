//! Transformations between external and internal shapes.
use vstd::prelude::*;

use crate::geometry::primitives::point::Point;
use crate::geometry::primitives::simple_polygon::SPolygon;
use crate::geometry::transformation::detours::Coordinate;
use crate::geometry::transformation::laws::Motion;
use crate::geometry::transformation::{DTransformation, Transformation};
use crate::math::{evaluate, evaluates, Elementary};
use crate::num::Num;

verus! {

/// The centroid of a polygon.
pub open spec fn centroid_of<M: Fn(Elementary) -> Num>(shape: &SPolygon, math: &M) -> Point {
    crate::geometry::primitives::centroid::boundary_centroid(
        shape.vertices@,
        crate::geometry::primitives::boundary::boundary_arcs(
            shape.vertices@,
            shape.bulges@,
            math,
        )->Ok_0,
        shape.area,
        math,
    )
}

/// The translation that brings a point to the origin.
pub open spec fn translation_to_origin(point: Point) -> DTransformation {
    DTransformation { rotation: Num::zero(), translation: (point.0.neg(), point.1.neg()) }
}

/// The transformation that translates the centroid of the shape to the origin.
pub fn centering_transformation<M: Fn(Elementary) -> Num>(shape: &SPolygon, math: &M) -> (r:
    DTransformation)
    requires
        evaluates(math),
        shape.valid(math),
    ensures
        r == translation_to_origin(centroid_of(shape, math)),
{
    let Point(cx, cy) = shape.centroid(math);
    DTransformation { rotation: Num::zero(), translation: (cx.neg(), cy.neg()) }
}

/// First one transformation is undone, and then another one is done.
pub open spec fn undone_and_done<M: Fn(Elementary) -> Num>(
    undone: DTransformation,
    done: DTransformation,
    math: &M,
) -> Transformation {
    Transformation::empty().transform(undone.compose(math).inverse()).transform_from_decomposed(
        done,
        math,
    )
}

/// The transformation of an internal shape that has the effect of an external one.
pub open spec fn spec_ext_to_int_transformation<M: Fn(Elementary) -> Num>(
    ext_transf: DTransformation,
    pre_transf: DTransformation,
    math: &M,
) -> DTransformation {
    undone_and_done(pre_transf, ext_transf, math).decompose(math)
}

/// Converts a transformation of an original shape to one of the internal shape: the
/// transformation that led to the internal shape is undone first.
#[verifier::when_used_as_spec(spec_ext_to_int_transformation)]
pub fn ext_to_int_transformation<M: Fn(Elementary) -> Num>(
    ext_transf: DTransformation,
    pre_transf: DTransformation,
    math: &M,
) -> (r: DTransformation)
    requires
        evaluates(math),
    ensures
        r == spec_ext_to_int_transformation(ext_transf, pre_transf, math),
{
    Transformation::empty().transform(
        pre_transf.compose(math).inverse(),
    ).transform_from_decomposed(ext_transf, math).decompose(math)
}

/// The supplied cosine and sine of zero are one and zero.
pub open spec fn start_at_one_and_zero<M: Fn(Elementary) -> Num>(math: &M) -> bool {
    &&& evaluate(math, Elementary::Cos(Num::zero())).num_eq(Num::one())
    &&& evaluate(math, Elementary::Sin(Num::zero())).num_eq(Num::zero())
}

/// The two transformations turn by angles with equal cosines and sines and move by equal
/// translations.
pub open spec fn same_effect<M: Fn(Elementary) -> Num>(
    a: DTransformation,
    b: DTransformation,
    math: &M,
) -> bool {
    &&& evaluate(math, Elementary::Cos(a.rotation)).num_eq(
        evaluate(math, Elementary::Cos(b.rotation)),
    )
    &&& evaluate(math, Elementary::Sin(a.rotation)).num_eq(
        evaluate(math, Elementary::Sin(b.rotation)),
    )
    &&& a.translation.0.num_eq(b.translation.0)
    &&& a.translation.1.num_eq(b.translation.1)
}

proof fn lemma_translation_is_motion<M: Fn(Elementary) -> Num>(d: DTransformation, math: &M)
    requires
        start_at_one_and_zero(math),
        d.rotation == Num::zero(),
        d.translation.0.is_finite(),
        d.translation.1.is_finite(),
    ensures
        crate::geometry::transformation::laws::is_motion(
            d.compose(math),
            Num::one(),
            Num::zero(),
            d.translation,
        ),
{
    crate::geometry::transformation::laws::composed_transformations_are_motions(d, math);
}

/// The centering transformation brings the centroid of the shape to the origin, and each of its
/// vertices to where it lies from the centroid.
pub proof fn centering_brings_the_centroid_to_the_origin<M: Fn(Elementary) -> Num>(
    shape: &SPolygon,
    math: &M,
    vertex: Point,
)
    requires
        start_at_one_and_zero(math),
        centroid_of(shape, math).is_finite(),
        vertex.is_finite(),
        vertex.0.sub(centroid_of(shape, math).0).is_finite(),
        vertex.1.sub(centroid_of(shape, math).1).is_finite(),
    ensures
        ({
            let centroid = centroid_of(shape, math);
            let t = translation_to_origin(centroid).compose(math);
            &&& centroid.transformed(t).same_as(Point(Num::zero(), Num::zero()))
            &&& vertex.transformed(t).same_as(
                Point(vertex.0.sub(centroid.0), vertex.1.sub(centroid.1)),
            )
        }),
{
    let centroid = centroid_of(shape, math);
    let d = translation_to_origin(centroid);
    let t = d.compose(math);
    lemma_translation_is_motion(d, math);
    crate::num::laws::equal_numbers_differ_by_zero(centroid.0, centroid.0);
    crate::num::laws::equal_numbers_differ_by_zero(centroid.1, centroid.1);
    crate::geometry::transformation::laws::translated_points(t, d.translation, centroid);
    crate::geometry::transformation::laws::translated_points(t, d.translation, vertex);
}

/// The masses of the arcs of a shape.
pub open spec fn masses_of<M: Fn(Elementary) -> Num>(shape: &SPolygon, math: &M) -> Seq<
    (Point, Num),
> {
    crate::geometry::primitives::moments::masses(
        crate::geometry::primitives::boundary::boundary_arcs(
            shape.vertices@,
            shape.bulges@,
            math,
        )->Ok_0,
        math,
    )
}

/// A shape that was moved by its centering transformation has its centroid at the origin, but for
/// the slack of the computation.
pub proof fn centered_shapes_have_their_centroid_at_the_origin<M: Fn(Elementary) -> Num>(
    shape: &SPolygon,
    moved: &SPolygon,
    math: &M,
    horizontal: bool,
)
    requires
        moved@ == shape@.transformed(
            translation_to_origin(centroid_of(shape, math)).compose(math),
            math,
        ),
        crate::geometry::primitives::moments::has_centroid(
            shape.vertices@,
            masses_of(shape, math),
            shape.area,
            horizontal,
        ),
        crate::geometry::primitives::moments::has_centroid(
            moved.vertices@,
            masses_of(moved, math),
            shape.area,
            horizontal,
        ),
    ensures
        ({
            let coordinate = crate::geometry::primitives::moments::weight(
                centroid_of(moved, math),
                horizontal,
            );
            12 * (Num::one_in_units() * (coordinate.units() * shape.area.units()))
                <= crate::geometry::primitives::moments::centering_slack(
                shape.vertices@,
                masses_of(shape, math),
                moved.vertices@,
                masses_of(moved, math),
                centroid_of(shape, math),
                shape.area,
                horizontal,
            )
        }),
{
    assert(moved@.area == moved.area);
    crate::geometry::primitives::moments::centroids_are_made_of_masses(
        shape.vertices@,
        crate::geometry::primitives::boundary::boundary_arcs(
            shape.vertices@,
            shape.bulges@,
            math,
        )->Ok_0,
        shape.area,
        math,
    );
    crate::geometry::primitives::moments::centroids_are_made_of_masses(
        moved.vertices@,
        crate::geometry::primitives::boundary::boundary_arcs(
            moved.vertices@,
            moved.bulges@,
            math,
        )->Ok_0,
        moved.area,
        math,
    );
    crate::geometry::primitives::moments::moved_centroids_are_at_the_origin(
        shape.vertices@,
        masses_of(shape, math),
        moved.vertices@,
        masses_of(moved, math),
        centroid_of(shape, math),
        shape.area,
        horizontal,
    );
}

/// What the rounding of the vertices of a centered shape does to the moment and the area of its
/// outline is no more than half a step of each coordinate makes up.
pub proof fn centered_outlines_barely_change<M: Fn(Elementary) -> Num>(
    shape: &SPolygon,
    moved: &SPolygon,
    math: &M,
    horizontal: bool,
)
    requires
        start_at_one_and_zero(math),
        centroid_of(shape, math).is_finite(),
        moved@ == shape@.transformed(
            translation_to_origin(centroid_of(shape, math)).compose(math),
            math,
        ),
        forall|i: int|
            0 <= i < shape.vertices@.len() ==> {
                let vertex = #[trigger] shape.vertices@[i];
                let centroid = centroid_of(shape, math);
                vertex.is_finite() && vertex.0.sub(centroid.0).is_finite() && vertex.1.sub(
                    centroid.1,
                ).is_finite()
            },
    ensures
        ({
            let (x, y) = crate::geometry::primitives::moments::place(centroid_of(shape, math));
            let outline = crate::geometry::primitives::moments::places(shape.vertices@);
            let back = crate::geometry::primitives::moments::moved_back(
                crate::geometry::primitives::moments::places(moved.vertices@),
                (-x, -y),
            );
            let shift = crate::geometry::primitives::shifts::outline_shift(
                outline,
                back,
                crate::geometry::primitives::shifts::steps_of(moved.vertices@),
                outline.len(),
                horizontal,
            );
            &&& 2 * crate::num::accuracy::gap(
                crate::geometry::primitives::moments::moment(back, horizontal),
                crate::geometry::primitives::moments::moment(outline, horizontal),
            ) <= shift.0
            &&& 2 * crate::num::accuracy::gap(
                crate::geometry::primitives::moments::area(back),
                crate::geometry::primitives::moments::area(outline),
            ) <= shift.1
        }),
{
    let centroid = centroid_of(shape, math);
    let d = translation_to_origin(centroid);
    let t = d.compose(math);
    let (x, y) = crate::geometry::primitives::moments::place(centroid);
    let outline = crate::geometry::primitives::moments::places(shape.vertices@);
    let back = crate::geometry::primitives::moments::moved_back(
        crate::geometry::primitives::moments::places(moved.vertices@),
        (-x, -y),
    );
    let steps = crate::geometry::primitives::shifts::steps_of(moved.vertices@);
    lemma_translation_is_motion(d, math);
    assert(moved@.vertices == moved.vertices@);
    assert forall|i: int| 0 <= i < outline.len() implies
        crate::geometry::primitives::shifts::is_near(
        #[trigger] back[i],
        outline[i],
        steps[i],
    ) by {
        let vertex = shape.vertices@[i];
        let image = moved.vertices@[i];
        assert(image == vertex.transformed(t));
        crate::geometry::transformation::laws::translated_points(t, d.translation, vertex);
        let (u, w) = (vertex.0.add(d.translation.0), vertex.1.add(d.translation.1));
        crate::num::accuracy::sums_err_by_half_a_step(vertex.0, d.translation.0);
        crate::num::accuracy::sums_err_by_half_a_step(vertex.1, d.translation.1);
        crate::num::laws::order_agrees_with_value(image.0, u);
        crate::num::laws::order_agrees_with_value(image.1, w);
        assert(image.0.magnitude() == u.magnitude());
        assert(image.1.magnitude() == w.magnitude());
        assert(d.translation.0.value() == -x);
        assert(d.translation.1.value() == -y);
    }
    crate::geometry::primitives::shifts::shifted_outlines_barely_change(
        outline,
        back,
        steps,
        outline.len(),
        horizontal,
    );
}

/// What undoing a translation and then a transformation come to.
proof fn lemma_undone_and_done<M: Fn(Elementary) -> Num>(
    ext_transf: DTransformation,
    pre_transf: DTransformation,
    math: &M,
)
    requires
        start_at_one_and_zero(math),
        pre_transf.rotation == Num::zero(),
        pre_transf.translation.0.is_finite(),
        pre_transf.translation.1.is_finite(),
        is_manageable(ext_transf, pre_transf, math),
    ensures
        crate::geometry::transformation::laws::is_motion(
            undone_and_done(pre_transf, ext_transf, math),
            evaluate(math, Elementary::Cos(ext_transf.rotation)),
            evaluate(math, Elementary::Sin(ext_transf.rotation)),
            internal_translation(ext_transf, pre_transf, math),
        ),
{
    let cos = evaluate(math, Elementary::Cos(ext_transf.rotation));
    let sin = evaluate(math, Elementary::Sin(ext_transf.rotation));
    let back = (pre_transf.translation.0.neg(), pre_transf.translation.1.neg());
    let to = crate::geometry::transformation::laws::turned(back, cos, sin);
    let undone = pre_transf.compose(math).inverse();
    lemma_translation_is_motion(pre_transf, math);
    crate::geometry::transformation::laws::translations_are_undone(
        pre_transf.compose(math),
        pre_transf.translation,
    );
    crate::geometry::transformation::laws::nothing_comes_before_a_motion(
        undone,
        Num::one(),
        Num::zero(),
        back,
    );
    crate::num::accuracy::finite_sums_have_finite_terms(to.0, ext_transf.translation.0);
    crate::num::accuracy::finite_sums_have_finite_terms(to.1, ext_transf.translation.1);
    crate::geometry::transformation::laws::rotations_turn_translations(
        Transformation::empty().transform(undone),
        back,
        ext_transf.rotation,
        math,
    );
    crate::geometry::transformation::laws::translations_are_added(
        Transformation::empty().transform(undone).rotate(ext_transf.rotation, math),
        cos,
        sin,
        to,
        ext_transf.translation,
    );
}

/// Where the origin of the internal shape comes to lie: the opposite of the translation that led
/// to it, turned and then moved.
pub open spec fn internal_translation<M: Fn(Elementary) -> Num>(
    ext_transf: DTransformation,
    pre_transf: DTransformation,
    math: &M,
) -> (Num, Num) {
    let to = crate::geometry::transformation::laws::turned(
        (pre_transf.translation.0.neg(), pre_transf.translation.1.neg()),
        evaluate(math, Elementary::Cos(ext_transf.rotation)),
        evaluate(math, Elementary::Sin(ext_transf.rotation)),
    );
    (to.0.add(ext_transf.translation.0), to.1.add(ext_transf.translation.1))
}

/// The cosine and the sine are numbers, and so is the translation that comes out.
pub open spec fn is_manageable<M: Fn(Elementary) -> Num>(
    ext_transf: DTransformation,
    pre_transf: DTransformation,
    math: &M,
) -> bool {
    let translation = internal_translation(ext_transf, pre_transf, math);
    &&& evaluate(math, Elementary::Cos(ext_transf.rotation)).is_finite()
    &&& evaluate(math, Elementary::Sin(ext_transf.rotation)).is_finite()
    &&& translation.0.is_finite()
    &&& translation.1.is_finite()
}

/// For a shape that was translated, as one that was centered is, the internal transformation has
/// the angle that the supplied arc tangent gives for the sine and the cosine of the external one,
/// and the opposite of the translation that led to the shape, turned and moved as the external
/// one says.
pub proof fn internal_transformations_undo_translations<M: Fn(Elementary) -> Num>(
    ext_transf: DTransformation,
    pre_transf: DTransformation,
    math: &M,
)
    requires
        start_at_one_and_zero(math),
        pre_transf.rotation == Num::zero(),
        pre_transf.translation.0.is_finite(),
        pre_transf.translation.1.is_finite(),
        is_manageable(ext_transf, pre_transf, math),
    ensures
        ({
            let r = ext_to_int_transformation(ext_transf, pre_transf, math);
            let expected = internal_translation(ext_transf, pre_transf, math);
            &&& r.translation.0.num_eq(expected.0)
            &&& r.translation.1.num_eq(expected.1)
            &&& exists|sin: Num, cos: Num| #[trigger]
                evaluate(math, Elementary::Atan2(sin, cos)) == r.rotation && sin.num_eq(
                    evaluate(math, Elementary::Sin(ext_transf.rotation)),
                ) && cos.num_eq(evaluate(math, Elementary::Cos(ext_transf.rotation)))
        }),
{
    lemma_undone_and_done(ext_transf, pre_transf, math);
    let t = undone_and_done(pre_transf, ext_transf, math);
    let r = ext_to_int_transformation(ext_transf, pre_transf, math);
    assert(evaluate(math, Elementary::Atan2(t.rows.1.0, t.rows.0.0)) == r.rotation);
}

/// The supplied arc tangent leads back: the angle that it gives for a sine and a cosine has this
/// sine and this cosine.
pub open spec fn leads_back_to<M: Fn(Elementary) -> Num>(sine: Num, cosine: Num, math: &M) -> bool {
    forall|sin: Num, cos: Num|
        sin.num_eq(sine) && cos.num_eq(cosine) ==> {
            let again = #[trigger] evaluate(math, Elementary::Atan2(sin, cos));
            &&& evaluate(math, Elementary::Sin(again)).num_eq(sin)
            &&& evaluate(math, Elementary::Cos(again)).num_eq(cos)
        }
}

/// The supplied arc tangent leads back to the sine and the cosine of an angle.
pub open spec fn leads_back<M: Fn(Elementary) -> Num>(angle: Num, math: &M) -> bool {
    leads_back_to(
        evaluate(math, Elementary::Sin(angle)),
        evaluate(math, Elementary::Cos(angle)),
        math,
    )
}

/// For a shape that stayed where it was, the internal transformation has the translation of the
/// external one and the angle that the supplied arc tangent gives for its sine and cosine. If
/// that leads back, it has the effect of the external one.
pub proof fn shapes_that_stayed_are_transformed_alike<M: Fn(Elementary) -> Num>(
    ext_transf: DTransformation,
    math: &M,
)
    requires
        start_at_one_and_zero(math),
        evaluate(math, Elementary::Cos(ext_transf.rotation)).is_finite(),
        evaluate(math, Elementary::Sin(ext_transf.rotation)).is_finite(),
        ext_transf.translation.0.is_finite(),
        ext_transf.translation.1.is_finite(),
    ensures
        ({
            let r = ext_to_int_transformation(ext_transf, DTransformation::empty(), math);
            &&& r.translation.0.num_eq(ext_transf.translation.0)
            &&& r.translation.1.num_eq(ext_transf.translation.1)
            &&& exists|sin: Num, cos: Num| #[trigger]
                evaluate(math, Elementary::Atan2(sin, cos)) == r.rotation && sin.num_eq(
                    evaluate(math, Elementary::Sin(ext_transf.rotation)),
                ) && cos.num_eq(evaluate(math, Elementary::Cos(ext_transf.rotation)))
            &&& leads_back(ext_transf.rotation, math) ==> same_effect(r, ext_transf, math)
        }),
{
    let cos = evaluate(math, Elementary::Cos(ext_transf.rotation));
    let sin = evaluate(math, Elementary::Sin(ext_transf.rotation));
    let pre_transf = DTransformation::empty();
    let zero = Num::zero();
    crate::geometry::transformation::laws::zero_stays_zero_when_turned(
        (zero.neg(), zero.neg()),
        cos,
        sin,
    );
    let to = crate::geometry::transformation::laws::turned((zero.neg(), zero.neg()), cos, sin);
    crate::geometry::transformation::laws::lemma_plus_zero(ext_transf.translation.0, to.0);
    crate::geometry::transformation::laws::lemma_plus_zero(ext_transf.translation.1, to.1);
    internal_transformations_undo_translations(ext_transf, pre_transf, math);
}

/// A transformation to the internal shape is undone by itself: the internal shape stays where it
/// is if the original one is moved to it.
pub proof fn what_led_to_a_shape_leaves_it<M: Fn(Elementary) -> Num>(
    pre_transf: DTransformation,
    math: &M,
)
    requires
        start_at_one_and_zero(math),
        pre_transf.rotation == Num::zero(),
        pre_transf.translation.0.is_finite(),
        pre_transf.translation.1.is_finite(),
        leads_back(pre_transf.rotation, math),
    ensures
        same_effect(
            ext_to_int_transformation(pre_transf, pre_transf, math),
            DTransformation::empty(),
            math,
        ),
{
    let cos = evaluate(math, Elementary::Cos(pre_transf.rotation));
    let sin = evaluate(math, Elementary::Sin(pre_transf.rotation));
    let back = (pre_transf.translation.0.neg(), pre_transf.translation.1.neg());
    crate::geometry::transformation::laws::nothing_turns_by_nothing(back, cos, sin);
    let to = crate::geometry::transformation::laws::turned(back, cos, sin);
    crate::geometry::transformation::laws::opposites_cancel(to.0, pre_transf.translation.0);
    crate::geometry::transformation::laws::opposites_cancel(to.1, pre_transf.translation.1);
    internal_transformations_undo_translations(pre_transf, pre_transf, math);
}

/// What undoing the one transformation and doing the other comes to, as a motion.
pub open spec fn internal_motion<M: Fn(Elementary) -> Num>(
    ext_transf: DTransformation,
    pre_transf: DTransformation,
    math: &M,
) -> Motion {
    crate::geometry::transformation::laws::motion_of(pre_transf, math).undone().followed_by(
        crate::geometry::transformation::laws::motion_of(ext_transf, math),
    )
}

/// One of the two coordinates of a motion.
pub open spec fn coordinate_of(m: Motion, horizontal: bool) -> Coordinate {
    if horizontal {
        Coordinate { k: m.cos, l: m.sin, translation: m.translation.0 }
    } else {
        Coordinate { k: m.sin, l: m.cos.neg(), translation: m.translation.1 }
    }
}

/// The internal transformation, whatever led to the shape, is what undoing that and doing the
/// external one comes to: it has its translation, and the angle that the supplied arc tangent gives
/// for its sine and cosine. If that leads back, it turns by them.
pub proof fn internal_transformations_undo_what_led_to_the_shape<M: Fn(Elementary) -> Num>(
    ext_transf: DTransformation,
    pre_transf: DTransformation,
    math: &M,
)
    requires
        crate::geometry::transformation::laws::motion_of(pre_transf, math).can_be_undone(),
        crate::geometry::transformation::laws::motion_of(ext_transf, math).is_finite(),
        internal_motion(ext_transf, pre_transf, math).is_finite(),
    ensures
        ({
            let r = ext_to_int_transformation(ext_transf, pre_transf, math);
            let m = internal_motion(ext_transf, pre_transf, math);
            &&& r.translation.0.num_eq(m.translation.0)
            &&& r.translation.1.num_eq(m.translation.1)
            &&& r.translation.0.is_finite()
            &&& r.translation.1.is_finite()
            &&& exists|sin: Num, cos: Num| #[trigger]
                evaluate(math, Elementary::Atan2(sin, cos)) == r.rotation && sin.num_eq(m.sin)
                    && cos.num_eq(m.cos)
            &&& leads_back_to(m.sin, m.cos, math) ==> evaluate(
                math,
                Elementary::Sin(r.rotation),
            ).num_eq(m.sin) && evaluate(math, Elementary::Cos(r.rotation)).num_eq(m.cos)
        }),
{
    let first = crate::geometry::transformation::laws::motion_of(pre_transf, math);
    let undone = pre_transf.compose(math).inverse();
    let back = first.undone();
    crate::geometry::transformation::laws::composed_transformations_are_motions(pre_transf, math);
    crate::geometry::transformation::laws::motions_are_undone(pre_transf.compose(math), first);
    crate::geometry::transformation::laws::nothing_comes_before_a_motion(
        undone,
        back.cos,
        back.sin,
        back.translation,
    );
    crate::geometry::transformation::laws::motions_follow_each_other(
        Transformation::empty().transform(undone),
        back,
        ext_transf,
        math,
    );
    let t = undone_and_done(pre_transf, ext_transf, math);
    let r = ext_to_int_transformation(ext_transf, pre_transf, math);
    assert(evaluate(math, Elementary::Atan2(t.rows.1.0, t.rows.0.0)) == r.rotation);
}

/// A point that is moved along with the shape, and then transformed as the internal transformation
/// says, comes to where the external transformation brings the point itself, but for the slack of
/// the computation.
pub proof fn internal_transformations_have_the_external_effect<M: Fn(Elementary) -> Num>(
    ext_transf: DTransformation,
    pre_transf: DTransformation,
    math: &M,
    point: Point,
)
    requires
        crate::geometry::transformation::laws::motion_of(pre_transf, math).can_be_undone(),
        internal_motion(ext_transf, pre_transf, math).is_finite(),
        forall|horizontal: bool|
            is_passable_way(ext_transf, pre_transf, math, point, horizontal),
    ensures
        ({
            let by_way = point.transformed(pre_transf.compose(math)).transformed(
                ext_to_int_transformation(ext_transf, pre_transf, math).compose(math),
            );
            let direct = point.transformed(ext_transf.compose(math));
            let big = Num::one_in_units()
                * crate::geometry::transformation::laws::motion_of(
                pre_transf,
                math,
            ).determinant().units();
            &&& 2 * big * (Num::one_in_units() * crate::num::accuracy::gap(
                by_way.0.value(),
                direct.0.value(),
            )) <= way_slack(ext_transf, pre_transf, math, point, true)
            &&& 2 * big * (Num::one_in_units() * crate::num::accuracy::gap(
                by_way.1.value(),
                direct.1.value(),
            )) <= way_slack(ext_transf, pre_transf, math, point, false)
        }),
{
    let first = crate::geometry::transformation::laws::motion_of(pre_transf, math);
    let second = crate::geometry::transformation::laws::motion_of(ext_transf, math);
    let r = ext_to_int_transformation(ext_transf, pre_transf, math);
    let used = crate::geometry::transformation::laws::motion_of(r, math);
    let image = crate::geometry::transformation::detours::image_under(first, point);
    assert(is_passable_way(ext_transf, pre_transf, math, point, true));
    assert(is_passable_way(ext_transf, pre_transf, math, point, false));
    assert(second.cos.neg().neg() == second.cos);
    assert(used.cos.neg().neg() == used.cos);
    internal_transformations_undo_what_led_to_the_shape(ext_transf, pre_transf, math);
    let m = internal_motion(ext_transf, pre_transf, math);
    crate::num::laws::order_agrees_with_value(r.translation.0, m.translation.0);
    crate::num::laws::order_agrees_with_value(r.translation.1, m.translation.1);
    crate::geometry::transformation::detours::detours_lead_to_the_same_place(
        first,
        coordinate_of(second, true),
        coordinate_of(used, true),
        point,
    );
    crate::geometry::transformation::detours::detours_lead_to_the_same_place(
        first,
        coordinate_of(second, false),
        coordinate_of(used, false),
        point,
    );
    crate::geometry::transformation::laws::composed_transformations_are_motions(pre_transf, math);
    crate::geometry::transformation::laws::composed_transformations_are_motions(ext_transf, math);
    crate::geometry::transformation::laws::composed_transformations_are_motions(r, math);
    let moved = point.transformed(pre_transf.compose(math));
    crate::geometry::transformation::laws::images_under_motions(
        pre_transf.compose(math),
        first.cos,
        first.sin,
        first.translation,
        point,
        point,
    );
    crate::geometry::transformation::laws::images_under_motions(
        ext_transf.compose(math),
        second.cos,
        second.sin,
        second.translation,
        point,
        point,
    );
    crate::geometry::transformation::laws::images_under_motions(
        r.compose(math),
        used.cos,
        used.sin,
        used.translation,
        image,
        moved,
    );
    let by_way = moved.transformed(r.compose(math));
    let direct = point.transformed(ext_transf.compose(math));
    crate::num::laws::order_agrees_with_value(by_way.0, coordinate_of(used, true).of(image));
    crate::num::laws::order_agrees_with_value(by_way.1, coordinate_of(used, false).of(image));
    crate::num::laws::order_agrees_with_value(direct.0, coordinate_of(second, true).of(point));
    crate::num::laws::order_agrees_with_value(direct.1, coordinate_of(second, false).of(point));
}

/// All that is computed on the two ways of a point, in one coordinate, is a number.
pub open spec fn is_passable_way<M: Fn(Elementary) -> Num>(
    ext_transf: DTransformation,
    pre_transf: DTransformation,
    math: &M,
    point: Point,
    horizontal: bool,
) -> bool {
    let r = ext_to_int_transformation(ext_transf, pre_transf, math);
    crate::geometry::transformation::detours::is_passable(
        crate::geometry::transformation::laws::motion_of(pre_transf, math),
        coordinate_of(
            crate::geometry::transformation::laws::motion_of(ext_transf, math),
            horizontal,
        ),
        coordinate_of(crate::geometry::transformation::laws::motion_of(r, math), horizontal),
        point,
    )
}

/// By how much, at most, the two ways of a point may lead to different places, in one coordinate.
pub open spec fn way_slack<M: Fn(Elementary) -> Num>(
    ext_transf: DTransformation,
    pre_transf: DTransformation,
    math: &M,
    point: Point,
    horizontal: bool,
) -> nat {
    let r = ext_to_int_transformation(ext_transf, pre_transf, math);
    crate::geometry::transformation::detours::detour_slack(
        crate::geometry::transformation::laws::motion_of(pre_transf, math),
        coordinate_of(
            crate::geometry::transformation::laws::motion_of(ext_transf, math),
            horizontal,
        ),
        coordinate_of(crate::geometry::transformation::laws::motion_of(r, math), horizontal),
        point,
    )
}

/// If the original shape is moved as it was to become the internal one, each point of the internal
/// shape stays where it is, but for the slack of the computation.
pub proof fn internal_shapes_stay_where_they_are<M: Fn(Elementary) -> Num>(
    pre_transf: DTransformation,
    math: &M,
    point: Point,
)
    requires
        crate::geometry::transformation::laws::motion_of(pre_transf, math).can_be_undone(),
        internal_motion(pre_transf, pre_transf, math).is_finite(),
        forall|horizontal: bool|
            is_passable_way(pre_transf, pre_transf, math, point, horizontal),
    ensures
        ({
            let internal = point.transformed(pre_transf.compose(math));
            let moved = internal.transformed(
                ext_to_int_transformation(pre_transf, pre_transf, math).compose(math),
            );
            let big = Num::one_in_units()
                * crate::geometry::transformation::laws::motion_of(
                pre_transf,
                math,
            ).determinant().units();
            &&& 2 * big * (Num::one_in_units() * crate::num::accuracy::gap(
                moved.0.value(),
                internal.0.value(),
            )) <= way_slack(pre_transf, pre_transf, math, point, true)
            &&& 2 * big * (Num::one_in_units() * crate::num::accuracy::gap(
                moved.1.value(),
                internal.1.value(),
            )) <= way_slack(pre_transf, pre_transf, math, point, false)
        }),
{
    internal_transformations_have_the_external_effect(pre_transf, pre_transf, math, point);
}

} // verus!
