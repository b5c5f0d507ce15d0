use vstd::prelude::*;

use crate::geometry::primitives::boundary_segment::BoundarySegment;
use crate::geometry::primitives::rect::Rect;
use crate::geometry::primitives::simple_polygon::SPolygon;
use crate::math::{evaluates, Elementary};
use crate::num::Num;

verus! {

/// A set of boundary segments of a hazard that is partially active in a quadtree node.
#[derive(Clone, Debug)]
pub struct QTHazPartial {
    /// The boundary segments that are active in the node.
    pub segments: Vec<BoundarySegment>,
    /// A bounding box of all the segments, to fail fast.
    pub ff_bbox: Rect,
}

/// The segments of the shapes, one shape after the other.
pub open spec fn all_segments<M: Fn(Elementary) -> Num>(
    shapes: Seq<std::sync::Arc<SPolygon>>,
    math: &M,
) -> Seq<BoundarySegment>
    decreases shapes.len(),
{
    if shapes.len() == 0 {
        Seq::empty()
    } else {
        all_segments(shapes.drop_last(), math) + shapes.last()@.segments(math)
    }
}

/// The bounds of the boxes of segments, moved out to each in turn.
pub open spec fn bounds_of(segments: Seq<BoundarySegment>) -> Rect
    decreases segments.len(),
{
    if segments.len() == 0 {
        Rect::unbounded_inside_out()
    } else {
        let before = bounds_of(segments.drop_last());
        let bbox = segments.last().bbox();
        Rect {
            x_min: before.x_min.min(bbox.x_min),
            y_min: before.y_min.min(bbox.y_min),
            x_max: before.x_max.max(bbox.x_max),
            y_max: before.y_max.max(bbox.y_max),
        }
    }
}

/// The fail-fast box of some of the segments of a hazard.
///
/// It is the box of the hazard if that has no more segments, or if the segments have no
/// extent along one of the axes.
pub open spec fn restricted_box(parent: QTHazPartial, segments: Seq<BoundarySegment>) -> Rect {
    let bounds = bounds_of(segments);
    if parent.segments@.len() == segments.len() || !(bounds.x_min.lt(bounds.x_max)
        && bounds.y_min.lt(bounds.y_max)) {
        parent.ff_bbox
    } else {
        bounds
    }
}

impl QTHazPartial {
    /// The hazard of a whole shape.
    pub fn from_entire_shape<M: Fn(Elementary) -> Num>(shape: &SPolygon, math: &M) -> (r:
        QTHazPartial)
        requires
            evaluates(math),
            shape.valid(math),
        ensures
            r.segments@ == shape@.segments(math),
            r.ff_bbox == shape.bbox,
    {
        QTHazPartial { segments: shape.segment_iter(math), ff_bbox: shape.bbox }
    }

    /// The hazard of a whole shape and the holes in it.
    ///
    /// The holes lie within the shape, so that its box is also theirs.
    pub fn from_entire_shape_with_holes<M: Fn(Elementary) -> Num>(
        shape: &SPolygon,
        holes: &[std::sync::Arc<SPolygon>],
        math: &M,
    ) -> (r: QTHazPartial)
        requires
            evaluates(math),
            shape.valid(math),
            forall|i: int| 0 <= i < holes@.len() ==> (#[trigger] holes@[i]).valid(math),
        ensures
            r.segments@ == shape@.segments(math) + all_segments(holes@, math),
            r.ff_bbox == shape.bbox,
    {
        let mut segments: Vec<BoundarySegment> = shape.segment_iter(math);
        let mut i: usize = 0;
        assert(holes@.take(0) =~= Seq::<std::sync::Arc<SPolygon>>::empty());
        assert(segments@ =~= shape@.segments(math) + all_segments(holes@.take(0), math));
        while i < holes.len()
            invariant
                i <= holes@.len(),
                evaluates(math),
                forall|j: int| 0 <= j < holes@.len() ==> (#[trigger] holes@[j]).valid(math),
                segments@ == shape@.segments(math) + all_segments(holes@.take(i as int), math),
            decreases holes.len() - i,
        {
            assert(holes@.take(i + 1).drop_last() =~= holes@.take(i as int));
            let hole: &SPolygon = &holes[i];
            let mut hole_segments: Vec<BoundarySegment> = hole.segment_iter(math);
            segments.append(&mut hole_segments);
            i = i + 1;
            assert(segments@ =~= shape@.segments(math) + all_segments(holes@.take(i as int), math));
        }
        assert(holes@.take(holes@.len() as int) =~= holes@);
        QTHazPartial { segments, ff_bbox: shape.bbox }
    }

    /// The hazard restricted to some of its segments.
    pub fn from_parent(parent: &QTHazPartial, restricted_segments: Vec<BoundarySegment>) -> (r:
        QTHazPartial)
        ensures
            r.segments@ == restricted_segments@,
            r.ff_bbox == restricted_box(*parent, restricted_segments@),
    {
        let mut ff_bbox: Rect = parent.ff_bbox;
        if parent.segments.len() != restricted_segments.len() {
            let mut bounds: Rect = Rect::unbounded_inside_out();
            let mut i: usize = 0;
            assert(restricted_segments@.take(0) =~= Seq::<BoundarySegment>::empty());
            while i < restricted_segments.len()
                invariant
                    i <= restricted_segments@.len(),
                    bounds == bounds_of(restricted_segments@.take(i as int)),
                decreases restricted_segments.len() - i,
            {
                assert(restricted_segments@.take(i + 1).drop_last() =~= restricted_segments@.take(
                    i as int,
                ));
                let bbox: Rect = restricted_segments[i].bbox();
                bounds = Rect {
                    x_min: bounds.x_min.min(bbox.x_min),
                    y_min: bounds.y_min.min(bbox.y_min),
                    x_max: bounds.x_max.max(bbox.x_max),
                    y_max: bounds.y_max.max(bbox.y_max),
                };
                i = i + 1;
            }
            assert(restricted_segments@.take(restricted_segments@.len() as int)
                =~= restricted_segments@);
            if bounds.x_min.lt(bounds.x_max) && bounds.y_min.lt(bounds.y_max) {
                ff_bbox = bounds;
            }
        }
        QTHazPartial { segments: restricted_segments, ff_bbox }
    }

    pub fn n_segments(&self) -> (r: usize)
        ensures
            r == self.segments@.len(),
    {
        self.segments.len()
    }

    /// Whether something collides with the hazard, given how it answers whether it collides
    /// with a rectangle and with a segment.
    ///
    /// What does not collide with the box is not asked about the segments.
    pub fn collides_with<R: Fn(&Rect) -> bool, S: Fn(&BoundarySegment) -> bool>(
        &self,
        meets_rect: &R,
        meets_segment: &S,
    ) -> (r: bool)
        requires
            call_requires(*meets_rect, (&self.ff_bbox,)),
            forall|i: int|
                0 <= i < self.segments@.len() ==> call_requires(
                    *meets_segment,
                    (#[trigger] &self.segments@[i],),
                ),
        ensures
            r ==> call_ensures(*meets_rect, (&self.ff_bbox,), true) && exists|i: int|
                0 <= i < self.segments@.len() && call_ensures(
                    *meets_segment,
                    (#[trigger] &self.segments@[i],),
                    true,
                ),
            !r ==> call_ensures(*meets_rect, (&self.ff_bbox,), false) || forall|i: int|
                0 <= i < self.segments@.len() ==> call_ensures(
                    *meets_segment,
                    (#[trigger] &self.segments@[i],),
                    false,
                ),
    {
        if !meets_rect(&self.ff_bbox) {
            return false;
        }
        let mut i: usize = 0;
        while i < self.segments.len()
            invariant
                i <= self.segments@.len(),
                call_ensures(*meets_rect, (&self.ff_bbox,), true),
                forall|j: int|
                    0 <= j < self.segments@.len() ==> call_requires(
                        *meets_segment,
                        (#[trigger] &self.segments@[j],),
                    ),
                forall|j: int|
                    0 <= j < i ==> call_ensures(
                        *meets_segment,
                        (#[trigger] &self.segments@[j],),
                        false,
                    ),
            decreases self.segments.len() - i,
        {
            let segment: &BoundarySegment = &self.segments[i];
            assert(call_requires(*meets_segment, (&self.segments@[i as int],)));
            if meets_segment(segment) {
                assert(call_ensures(*meets_segment, (&self.segments@[i as int],), true));
                return true;
            }
            i = i + 1;
        }
        false
    }
}

proof fn lemma_bounds_enclose(segments: Seq<BoundarySegment>)
    ensures
        crate::geometry::primitives::laws::has_numeric_bounds(bounds_of(segments)),
        forall|i: int|
            0 <= i < segments.len() && crate::geometry::primitives::laws::has_numeric_bounds(
                (#[trigger] segments[i]).bbox(),
            ) ==> crate::geometry::primitives::laws::is_within(
                segments[i].bbox(),
                bounds_of(segments),
            ),
    decreases segments.len(),
{
    if segments.len() > 0 {
        lemma_bounds_enclose(segments.drop_last());
        assert forall|i: int|
            0 <= i < segments.len() && crate::geometry::primitives::laws::has_numeric_bounds(
                (#[trigger] segments[i]).bbox(),
            ) implies crate::geometry::primitives::laws::is_within(
            segments[i].bbox(),
            bounds_of(segments),
        ) by {
            if i < segments.len() - 1 {
                assert(segments.drop_last()[i] == segments[i]);
            }
        }
    }
}

/// If the box of a hazard contains all its segments, so does the box of the hazard restricted
/// to some of them.
pub proof fn restricted_boxes_contain_the_segments(
    parent: QTHazPartial,
    segments: Seq<BoundarySegment>,
    i: int,
)
    requires
        forall|k: int|
            0 <= k < segments.len() ==> parent.segments@.contains(#[trigger] segments[k]),
        forall|k: int|
            0 <= k < parent.segments@.len() ==> crate::geometry::primitives::laws::is_within(
                (#[trigger] parent.segments@[k]).bbox(),
                parent.ff_bbox,
            ),
        0 <= i < segments.len(),
    ensures
        crate::geometry::primitives::laws::is_within(
            segments[i].bbox(),
            restricted_box(parent, segments),
        ),
{
    assert(parent.segments@.contains(segments[i]));
    let k = choose|k: int| 0 <= k < parent.segments@.len() && parent.segments@[k] == segments[i];
    assert(crate::geometry::primitives::laws::is_within(
        parent.segments@[k].bbox(),
        parent.ff_bbox,
    ));
    lemma_bounds_enclose(segments);
}

} // verus!
