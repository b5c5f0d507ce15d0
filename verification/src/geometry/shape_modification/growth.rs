//! Outlines that only grow, or only shrink, without rounding.
use vstd::prelude::*;

use crate::geometry::primitives::point::Point;
use crate::geometry::shape_modification::ShapeModifyMode;

verus! {

/// One outline contains another: its area is not less, and it winds about no place less often.
pub open spec fn contains(outer: Seq<Point>, inner: Seq<Point>) -> bool {
    &&& crate::geometry::primitives::exact_outlines::twice_the_area(outer)
        >= crate::geometry::primitives::exact_outlines::twice_the_area(inner)
    &&& forall|place: (int, int)|
        #[trigger] crate::geometry::primitives::exact_outlines::winding(outer, place)
            >= crate::geometry::primitives::exact_outlines::winding(inner, place)
}

/// The outline may only grow or only shrink, as the mode says, and it does.
pub open spec fn changes_as_it_may(
    before: Seq<Point>,
    after: Seq<Point>,
    mode: ShapeModifyMode,
) -> bool {
    match mode {
        ShapeModifyMode::Inflate => contains(after, before),
        ShapeModifyMode::Deflate => contains(before, after),
    }
}

/// Two changes in turn, each as the mode says, are one such change.
pub proof fn changes_add_up(
    before: Seq<Point>,
    between: Seq<Point>,
    after: Seq<Point>,
    mode: ShapeModifyMode,
)
    requires
        changes_as_it_may(before, between, mode),
        changes_as_it_may(between, after, mode),
    ensures
        changes_as_it_may(before, after, mode),
{
    assert forall|place: (int, int)|
        {
            let first = #[trigger] crate::geometry::primitives::exact_outlines::winding(
                before,
                place,
            );
            let last = #[trigger] crate::geometry::primitives::exact_outlines::winding(
                after,
                place,
            );
            match mode {
                ShapeModifyMode::Inflate => last >= first,
                ShapeModifyMode::Deflate => last <= first,
            }
        } by {
        let middle = crate::geometry::primitives::exact_outlines::winding(between, place);
        let first = crate::geometry::primitives::exact_outlines::winding(before, place);
        let last = crate::geometry::primitives::exact_outlines::winding(after, place);
    }
}

/// A measure of an outline that may only grow does not become less, and one of an outline that may
/// only shrink does not become more.
pub open spec fn measures_as_it_may(
    side: spec_fn(Point, Point) -> int,
    before: Seq<Point>,
    after: Seq<Point>,
    mode: ShapeModifyMode,
) -> bool {
    match mode {
        ShapeModifyMode::Inflate => crate::geometry::primitives::exact_outlines::around(
            side,
            after,
        ) >= crate::geometry::primitives::exact_outlines::around(side, before),
        ShapeModifyMode::Deflate => crate::geometry::primitives::exact_outlines::around(
            side,
            after,
        ) <= crate::geometry::primitives::exact_outlines::around(side, before),
    }
}

/// An outline changes as it may if its area and its winding about every place do.
pub proof fn outlines_change_as_their_measures_do(
    before: Seq<Point>,
    after: Seq<Point>,
    mode: ShapeModifyMode,
)
    requires
        measures_as_it_may(
            crate::geometry::primitives::exact_outlines::area_measure(),
            before,
            after,
            mode,
        ),
        forall|place: (int, int)|
            measures_as_it_may(
                #[trigger] crate::geometry::primitives::exact_outlines::winding_measure(place),
                before,
                after,
                mode,
            ),
    ensures
        changes_as_it_may(before, after, mode),
{
    assert forall|place: (int, int)|
        {
            let first = #[trigger] crate::geometry::primitives::exact_outlines::winding(
                before,
                place,
            );
            let last = #[trigger] crate::geometry::primitives::exact_outlines::winding(
                after,
                place,
            );
            match mode {
                ShapeModifyMode::Inflate => last >= first,
                ShapeModifyMode::Deflate => last <= first,
            }
        } by {
        assert(measures_as_it_may(
            crate::geometry::primitives::exact_outlines::winding_measure(place),
            before,
            after,
            mode,
        ));
    }
}

} // verus!
