//! Reducing the number of sides of a polygon.
use vstd::prelude::*;

use crate::error::GeometryError;
use crate::geometry::primitives::boundary::calculate_chord_area;
use crate::geometry::primitives::circle::Circle;
use crate::geometry::primitives::point::Point;
use crate::geometry::primitives::simple_polygon::{SPolygon, Toolkit};
use crate::geometry::shape_modification::candidates::{
    calculate_area_delta, candidate_is_valid, execute_candidate, Candidate,
};
use crate::geometry::shape_modification::corners::{
    list_corners, turn_of, Corner, CornerType,
};
use crate::geometry::shape_modification::ShapeModifyMode;
use crate::math::Elementary;
use crate::num::Num;

verus! {

/// The place of a candidate in the order of the changes in area; those whose change is
/// not known come after all others.
pub open spec fn rank(points: Seq<Point>, candidate: Candidate) -> int {
    match crate::geometry::shape_modification::candidates::area_delta(points, candidate) {
        Ok(delta) => delta.sort_key(),
        Err(_) => Num::infinity().sort_key(),
    }
}

/// Candidate `i` is valid, and of all the valid ones it changes the area least; of
/// several that do, it is the first.
pub open spec fn is_best(points: Seq<Point>, candidates: Seq<Candidate>, i: int) -> bool {
    &&& 0 <= i < candidates.len()
    &&& crate::geometry::shape_modification::candidates::is_valid(points, candidates[i])
    &&& forall|j: int|
        0 <= j < candidates.len() && crate::geometry::shape_modification::candidates::is_valid(
            points,
            #[trigger] candidates[j],
        ) ==> rank(points, candidates[i]) < rank(points, candidates[j]) || (rank(
            points,
            candidates[i],
        ) == rank(points, candidates[j]) && i <= j)
}

/// All the candidates of an outline.
pub open spec fn all_candidates(points: Seq<Point>, mode: ShapeModifyMode) -> Seq<Candidate> {
    let corners = crate::geometry::shape_modification::corners::corners_of(points.len(), mode);
    crate::geometry::shape_modification::candidates::candidates_among(
        points,
        corners,
        corners.len(),
    )
}

pub open spec fn spec_relative_change(area: Num, original_area: Num) -> Num {
    area.sub(original_area).abs().div(original_area)
}

/// The change of an area as a fraction of what it was.
#[verifier::when_used_as_spec(spec_relative_change)]
pub fn relative_change(area: Num, original_area: Num) -> (r: Num)
    ensures
        r == spec_relative_change(area, original_area),
{
    area.sub(original_area).abs().div(original_area)
}

/// The outline after the best candidate was executed, if there is one and the area stays
/// within the bounds.
pub open spec fn next_outline(
    points: Seq<Point>,
    mode: ShapeModifyMode,
    original_area: Num,
    max_area_change_ratio: Num,
) -> Option<Seq<Point>> {
    let candidates = all_candidates(points, mode);
    if exists|i: int| is_best(points, candidates, i) {
        let i = choose|i: int| is_best(points, candidates, i);
        let next = crate::geometry::shape_modification::candidates::executed(points, candidates[i]);
        if relative_change(
            crate::geometry::primitives::boundary::chord_area(next),
            original_area,
        ).le(max_area_change_ratio) {
            Some(next)
        } else {
            None
        }
    } else {
        None
    }
}

/// The outline after at most `steps` vertices were taken out one after the other.
pub open spec fn simplified(
    points: Seq<Point>,
    mode: ShapeModifyMode,
    original_area: Num,
    max_area_change_ratio: Num,
    steps: nat,
) -> Result<Seq<Point>, GeometryError>
    decreases steps,
{
    if steps == 0 || points.len() < 4 {
        Ok(points)
    } else if crate::geometry::shape_modification::candidates::has_undefined_turn(
        points,
        crate::geometry::shape_modification::corners::corners_of(points.len(), mode),
    ) {
        Err(GeometryError::UndefinedTurn)
    } else {
        match next_outline(points, mode, original_area, max_area_change_ratio) {
            None => Ok(points),
            Some(next) => simplified(
                next,
                mode,
                original_area,
                max_area_change_ratio,
                (steps - 1) as nat,
            ),
        }
    }
}

proof fn lemma_candidates_fit(points: Seq<Point>, mode: ShapeModifyMode, k: nat)
    requires
        points.len() >= 2,
        points.len() <= usize::MAX,
        k <= points.len(),
    ensures
        ({
            let candidates = crate::geometry::shape_modification::candidates::candidates_among(
                points,
                crate::geometry::shape_modification::corners::corners_of(points.len(), mode),
                k,
            );
            &&& candidates.len() <= k
            &&& forall|i: int|
                0 <= i < candidates.len() ==> (#[trigger] candidates[i]).fits(points.len())
        }),
    decreases k,
{
    if k > 0 {
        lemma_candidates_fit(points, mode, (k - 1) as nat);
    }
}

/// Simplifying never adds vertices, leaves at least three of an outline that has as many,
/// and changes the area by no more than the given fraction if it changes anything at all.
pub proof fn simplification_is_bounded(
    points: Seq<Point>,
    mode: ShapeModifyMode,
    original_area: Num,
    max_area_change_ratio: Num,
    steps: nat,
)
    requires
        3 <= points.len() <= usize::MAX,
    ensures
        simplified(points, mode, original_area, max_area_change_ratio, steps) matches Ok(r) ==> {
            &&& 3 <= r.len() <= points.len()
            &&& points.len() - r.len() <= steps
            &&& r.len() == points.len() ==> r == points
            &&& r == points || relative_change(
                crate::geometry::primitives::boundary::chord_area(r),
                original_area,
            ).le(max_area_change_ratio)
        },
    decreases steps,
{
    if steps > 0 && points.len() >= 4 {
        if let Some(next) = next_outline(points, mode, original_area, max_area_change_ratio) {
            lemma_candidates_fit(points, mode, points.len());
            let candidates = all_candidates(points, mode);
            let i = choose|i: int| is_best(points, candidates, i);
            assert(candidates[i].fits(points.len()));
            crate::geometry::shape_modification::candidates::execution_removes_one_vertex(
                points,
                candidates[i],
            );
            simplification_is_bounded(
                next,
                mode,
                original_area,
                max_area_change_ratio,
                (steps - 1) as nat,
            );
        }
    }
}

/// Lists the candidates at all the corners, unless one of the turns is undefined.
fn list_candidates(points: &[Point], mode: ShapeModifyMode) -> (r: Option<Vec<Candidate>>)
    requires
        points@.len() >= 2,
    ensures
        r is None <==> crate::geometry::shape_modification::candidates::has_undefined_turn(
            points@,
            crate::geometry::shape_modification::corners::corners_of(points@.len(), mode),
        ),
        r matches Some(candidates) ==> candidates@ == all_candidates(points@, mode),
{
    let corners: Vec<Corner> = list_corners(points.len(), mode);
    let mut candidates: Vec<Candidate> = Vec::new();
    let last: Corner = corners[corners.len() - 1];
    let last_turn: Num = turn_of(points[last.0], points[last.1], points[last.2]);
    if last_turn.is_nan() {
        assert(corners@[corners@.len() - 1].turn(points@).is_nan());
        return None;
    }
    let mut prev_corner: Corner = last;
    let mut prev_corner_type: CornerType = CornerType::from(last.to_points(points));
    let mut k: usize = 0;
    while k < corners.len()
        invariant
            k <= corners@.len() == points@.len(),
            corners@.len() >= 2,
            corners@ == crate::geometry::shape_modification::corners::corners_of(
                points@.len(),
                mode,
            ),
            candidates@ == crate::geometry::shape_modification::candidates::candidates_among(
                points@,
                corners@,
                k as nat,
            ),
            prev_corner == (if k == 0 {
                corners@.last()
            } else {
                corners@[k - 1]
            }),
            prev_corner_type == CornerType::of_turn(prev_corner.turn(points@)),
            forall|j: int| 0 <= j < k ==> !(#[trigger] corners@[j]).turn(points@).is_nan(),
        decreases corners.len() - k,
    {
        let corner: Corner = corners[k];
        assert(corner.fits(points@.len()));
        let turn: Num = turn_of(points[corner.0], points[corner.1], points[corner.2]);
        if turn.is_nan() {
            assert(corners@[k as int].turn(points@).is_nan());
            return None;
        }
        let corner_type: CornerType = CornerType::from(corner.to_points(points));
        match (corner_type, prev_corner_type) {
            (CornerType::Concave, _) => candidates.push(Candidate::Concave(corner)),
            (CornerType::Collinear, _) => candidates.push(Candidate::Collinear(corner)),
            (CornerType::Convex, CornerType::Convex) => candidates.push(
                Candidate::ConvexConvex(prev_corner, corner),
            ),
            _ => {},
        }
        prev_corner = corner;
        prev_corner_type = corner_type;
        k = k + 1;
    }
    Some(candidates)
}

/// Finds the valid candidate that changes the area least.
fn find_best(points: &[Point], candidates: &Vec<Candidate>) -> (r: Option<usize>)
    requires
        forall|i: int| 0 <= i < candidates@.len() ==> (#[trigger] candidates@[i]).fits(points@.len()),
    ensures
        match r {
            Some(i) => is_best(points@, candidates@, i as int),
            None => forall|i: int| !is_best(points@, candidates@, i),
        },
{
    let mut ranked: Vec<(i64, usize)> = Vec::new();
    let mut k: usize = 0;
    while k < candidates.len()
        invariant
            k <= candidates@.len(),
            forall|i: int|
                0 <= i < candidates@.len() ==> (#[trigger] candidates@[i]).fits(points@.len()),
            ranked@.len() == k,
            forall|i: int|
                0 <= i < k ==> (#[trigger] ranked@[i]).1 == i && ranked@[i].0 == rank(
                    points@,
                    candidates@[i],
                ),
        decreases candidates.len() - k,
    {
        let key: i64 = match calculate_area_delta(points, &candidates[k]) {
            Ok(delta) => delta.to_sort_key(),
            Err(_) => Num::infinity().to_sort_key(),
        };
        ranked.push((key, k));
        k = k + 1;
    }
    let ghost unsorted = ranked@;
    let sorted: Vec<(i64, usize)> = crate::outside::sorted_pairs(ranked);
    proof {
        unsorted.to_multiset_ensures();
        sorted@.to_multiset_ensures();
        assert forall|i: int| 0 <= i < sorted@.len() implies (#[trigger] sorted@[i]).1
            < candidates@.len() && sorted@[i].0 == rank(
            points@,
            candidates@[sorted@[i].1 as int],
        ) by {
            assert(sorted@.contains(sorted@[i]));
            assert(sorted@.to_multiset().count(sorted@[i]) > 0);
            assert(unsorted.contains(sorted@[i]));
        }
        assert forall|j: int| 0 <= j < candidates@.len() implies sorted@.contains(
            #[trigger] unsorted[j],
        ) by {
            assert(unsorted.contains(unsorted[j]));
            assert(unsorted.to_multiset().count(unsorted[j]) > 0);
        }
    }
    let mut m: usize = 0;
    while m < sorted.len()
        invariant
            m <= sorted@.len(),
            forall|i: int|
                0 <= i < candidates@.len() ==> (#[trigger] candidates@[i]).fits(points@.len()),
            unsorted.len() == candidates@.len(),
            forall|i: int|
                0 <= i < unsorted.len() ==> (#[trigger] unsorted[i]).1 == i && unsorted[i].0
                    == rank(points@, candidates@[i]),
            forall|i: int, j: int|
                0 <= i < j < sorted@.len() ==> crate::outside::in_order(sorted@[i], sorted@[j]),
            forall|i: int|
                0 <= i < sorted@.len() ==> (#[trigger] sorted@[i]).1 < candidates@.len()
                    && sorted@[i].0 == rank(points@, candidates@[sorted@[i].1 as int]),
            forall|j: int| 0 <= j < unsorted.len() ==> sorted@.contains(#[trigger] unsorted[j]),
            forall|i: int|
                0 <= i < m ==> !crate::geometry::shape_modification::candidates::is_valid(
                    points@,
                    candidates@[(#[trigger] sorted@[i]).1 as int],
                ),
        decreases sorted.len() - m,
    {
        let i: usize = sorted[m].1;
        if candidate_is_valid(points, &candidates[i]) {
            proof {
                assert forall|j: int|
                    0 <= j < candidates@.len()
                        && crate::geometry::shape_modification::candidates::is_valid(
                        points@,
                        #[trigger] candidates@[j],
                    ) implies rank(points@, candidates@[i as int]) < rank(points@, candidates@[j])
                    || (rank(points@, candidates@[i as int]) == rank(points@, candidates@[j]) && i
                    <= j) by {
                    assert(sorted@.contains(unsorted[j]));
                    let at = choose|at: int|
                        0 <= at < sorted@.len() && sorted@[at] == unsorted[j];
                    assert(sorted@[at].1 == j);
                    if at > m {
                        assert(crate::outside::in_order(sorted@[m as int], sorted@[at]));
                    }
                }
                assert(is_best(points@, candidates@, i as int));
            }
            return Some(i);
        }
        m = m + 1;
    }
    assert forall|i: int| !is_best(points@, candidates@, i) by {
        if is_best(points@, candidates@, i) {
            assert(sorted@.contains(unsorted[i]));
            let at = choose|at: int| 0 <= at < sorted@.len() && sorted@[at] == unsorted[i];
            assert(sorted@[at].1 == i);
        }
    }
    None
}

/// Takes vertices out of an outline one after the other, as long as the area allows it.
pub fn simplify_outline(
    points: &[Point],
    mode: ShapeModifyMode,
    original_area: Num,
    max_area_change_ratio: Num,
    steps: usize,
) -> (r: Result<Vec<Point>, GeometryError>)
    ensures
        match r {
            Ok(outline) => simplified(
                points@,
                mode,
                original_area,
                max_area_change_ratio,
                steps as nat,
            ) == Ok::<_, GeometryError>(outline@),
            Err(e) => simplified(points@, mode, original_area, max_area_change_ratio, steps as nat)
                == Err::<Seq<Point>, _>(e),
        },
{
    let mut ref_points: Vec<Point> = vstd::slice::slice_to_vec(points);
    let ghost goal = simplified(points@, mode, original_area, max_area_change_ratio, steps as nat);
    let mut left: usize = steps;
    while left > 0
        invariant_except_break
            goal == simplified(
                ref_points@,
                mode,
                original_area,
                max_area_change_ratio,
                left as nat,
            ),
        invariant
            goal == simplified(points@, mode, original_area, max_area_change_ratio, steps as nat),
        ensures
            goal == Ok::<_, GeometryError>(ref_points@),
        decreases left,
    {
        if ref_points.len() < 4 {
            break;
        }
        let candidates: Vec<Candidate> = match list_candidates(&ref_points, mode) {
            Some(candidates) => candidates,
            None => return Err(GeometryError::UndefinedTurn),
        };
        proof {
            lemma_candidates_fit(ref_points@, mode, ref_points@.len());
        }
        match find_best(&ref_points, &candidates) {
            Some(i) => {
                assert(is_best(ref_points@, candidates@, i as int));
                proof {
                    let chosen = choose|j: int| is_best(ref_points@, candidates@, j);
                    assert(is_best(ref_points@, candidates@, chosen));
                    assert(chosen == i);
                }
                let next: Vec<Point> = execute_candidate(&ref_points, &candidates[i]);
                let area: Num = calculate_chord_area(&next);
                if relative_change(area, original_area).le(max_area_change_ratio) {
                    assert(next_outline(
                        ref_points@,
                        mode,
                        original_area,
                        max_area_change_ratio,
                    ) == Some(next@));
                    ref_points = next;
                } else {
                    break;
                }
            },
            None => {
                break;
            },
        }
        left = left - 1;
    }
    Ok(ref_points)
}

/// `r` is a possible outcome when a polygon is simplified.
///
/// A polygon with arcs stays as it is.
pub open spec fn is_simplified<
    M: Fn(Elementary) -> Num,
    P: Fn(&SPolygon) -> Result<Circle, GeometryError>,
>(
    shape: &SPolygon,
    mode: ShapeModifyMode,
    max_area_change_ratio: Num,
    tools: &Toolkit<M, P>,
    r: Result<SPolygon, GeometryError>,
) -> bool {
    if shape.has_arcs() {
        r matches Ok(same) && same@ == shape@
    } else {
        match simplified(
            shape.vertices@,
            mode,
            shape.area,
            max_area_change_ratio,
            shape.vertices@.len(),
        ) {
            Err(e) => r == Err::<SPolygon, _>(e),
            Ok(outline) => crate::geometry::primitives::simple_polygon::is_built(
                outline,
                crate::geometry::primitives::simple_polygon::straight_bulges(outline.len()),
                tools,
                crate::geometry::primitives::simple_polygon::modelled(r),
            ),
        }
    }
}

/// Simplifies a polygon by reducing the number of its sides.
///
/// Vertices are taken out one after the other until the change in area, as a fraction of
/// the area, would exceed the given ratio, or no more than three vertices are left.
pub fn simplify_shape<
    M: Fn(Elementary) -> Num,
    P: Fn(&SPolygon) -> Result<Circle, GeometryError>,
>(
    shape: &SPolygon,
    mode: ShapeModifyMode,
    max_area_change_ratio: Num,
    tools: &Toolkit<M, P>,
) -> (r: Result<SPolygon, GeometryError>)
    requires
        tools.usable(),
    ensures
        is_simplified(shape, mode, max_area_change_ratio, tools, r),
        r matches Ok(s) ==> shape.valid(&tools.math) ==> s.valid(&tools.math),
{
    if shape.has_arcs() {
        return Ok(shape.duplicate());
    }
    match simplify_outline(
        &shape.vertices,
        mode,
        shape.area,
        max_area_change_ratio,
        shape.n_vertices(),
    ) {
        Ok(outline) => SPolygon::new(outline, tools),
        Err(e) => Err(e),
    }
}

/// A simplified polygon has arcs only if the polygon had; without, it has no more vertices,
/// and its area differs by no more than the given fraction unless nothing was changed.
pub proof fn simplified_shapes_are_bounded<
    M: Fn(Elementary) -> Num,
    P: Fn(&SPolygon) -> Result<Circle, GeometryError>,
>(
    shape: &SPolygon,
    mode: ShapeModifyMode,
    max_area_change_ratio: Num,
    tools: &Toolkit<M, P>,
    r: SPolygon,
)
    requires
        is_simplified(shape, mode, max_area_change_ratio, tools, Ok(r)),
        3 <= shape.vertices@.len() <= usize::MAX,
    ensures
        shape.has_arcs() ==> r@ == shape@,
        !shape.has_arcs() ==> {
            let outline = simplified(
                shape.vertices@,
                mode,
                shape.area,
                max_area_change_ratio,
                shape.vertices@.len(),
            )->Ok_0;
            &&& !r.has_arcs()
            &&& 3 <= r.vertices@.len() <= shape.vertices@.len()
            &&& r.vertices@ == outline || r.vertices@ == outline.reverse()
            &&& outline == shape.vertices@ || relative_change(
                crate::geometry::primitives::boundary::chord_area(outline),
                shape.area,
            ).le(max_area_change_ratio)
        },
{
    if !shape.has_arcs() {
        simplification_is_bounded(
            shape.vertices@,
            mode,
            shape.area,
            max_area_change_ratio,
            shape.vertices@.len(),
        );
        let outline = simplified(
            shape.vertices@,
            mode,
            shape.area,
            max_area_change_ratio,
            shape.vertices@.len(),
        )->Ok_0;
        let bulges = crate::geometry::primitives::simple_polygon::straight_bulges(outline.len());
        crate::geometry::primitives::laws::straight_sides_make_no_arcs(outline, bulges, tools, r);
        crate::geometry::primitives::laws::built_polygons_keep_the_vertices(
            outline,
            bulges,
            tools,
            r@,
        );
        assert(r@.vertices == outline || r@.vertices == outline.reverse());
    }
}

/// The corner at vertex `i` as it is looked at: from the inside to inflate the outline, and from
/// the outside to deflate it.
pub open spec fn corner_seen(n: nat, mode: ShapeModifyMode, i: int) -> Corner {
    let corner = crate::geometry::shape_modification::corners::corner_at(n, i);
    match mode {
        ShapeModifyMode::Inflate => corner,
        ShapeModifyMode::Deflate => corner.flipped(),
    }
}

/// A candidate changes the outline on the side on which it may change.
///
/// A vertex that is dropped lies, seen in the direction of its corner, on the left-hand side of
/// the edge that takes its place, or on neither side. Two vertices that are replaced by one are
/// both at corners that turn left, and the one that replaces them lies in front of both their
/// sides.
pub open spec fn is_on_its_side(points: Seq<Point>, mode: ShapeModifyMode, candidate: Candidate) -> bool {
    let n = points.len();
    match candidate {
        Candidate::Concave(c) => {
            &&& c.1 < n
            &&& c == corner_seen(n, mode, c.1 as int)
            &&& c.turn(points).lt(Num::zero())
        },
        Candidate::Collinear(c) => {
            &&& c.1 < n
            &&& c == corner_seen(n, mode, c.1 as int)
            &&& !c.turn(points).lt(Num::zero())
            &&& !c.turn(points).gt(Num::zero())
        },
        Candidate::ConvexConvex(c1, c2) => {
            &&& c1.1 < n
            &&& c2.1 < n
            &&& c1 == corner_seen(n, mode, c1.1 as int)
            &&& c2 == corner_seen(n, mode, c2.1 as int)
            &&& c1.2 == c2.1
            &&& c1.turn(points).gt(Num::zero())
            &&& c2.turn(points).gt(Num::zero())
            &&& crate::geometry::shape_modification::candidates::calculate_intersection_in_front(
                crate::geometry::primitives::edge::Edge {
                    start: points[c1.0 as int],
                    end: points[c1.1 as int],
                },
                crate::geometry::primitives::edge::Edge {
                    start: points[c2.2 as int],
                    end: points[c2.1 as int],
                },
            ) is Some
        },
    }
}

/// The next outline is the result of a candidate on the side on which the outline may change.
pub open spec fn is_step_on_its_side(
    points: Seq<Point>,
    mode: ShapeModifyMode,
    candidate: Candidate,
    next: Seq<Point>,
) -> bool {
    &&& is_on_its_side(points, mode, candidate)
    &&& crate::geometry::shape_modification::candidates::is_valid(points, candidate)
    &&& next == crate::geometry::shape_modification::candidates::executed(points, candidate)
}

/// The corner at place `k` of the list and the one before it, as they are looked at.
proof fn lemma_listed_corners(n: nat, mode: ShapeModifyMode, k: int)
    requires
        2 <= n <= usize::MAX,
        0 <= k < n,
    ensures
        ({
            let corners = crate::geometry::shape_modification::corners::corners_of(n, mode);
            let corner = corners[k];
            let prev = if k == 0 {
                corners.last()
            } else {
                corners[k - 1]
            };
            &&& corner.1 < n
            &&& prev.1 < n
            &&& corner == corner_seen(n, mode, corner.1 as int)
            &&& prev == corner_seen(n, mode, prev.1 as int)
            &&& prev.2 == corner.1
        }),
{
}

proof fn lemma_candidates_know_their_corners(points: Seq<Point>, mode: ShapeModifyMode, k: nat)
    requires
        2 <= points.len() <= usize::MAX,
        k <= points.len(),
    ensures
        ({
            let candidates = crate::geometry::shape_modification::candidates::candidates_among(
                points,
                crate::geometry::shape_modification::corners::corners_of(points.len(), mode),
                k,
            );
            forall|i: int|
                0 <= i < candidates.len()
                    && crate::geometry::shape_modification::candidates::is_valid(
                    points,
                    #[trigger] candidates[i],
                ) ==> is_on_its_side(points, mode, candidates[i])
        }),
    decreases k,
{
    if k > 0 {
        lemma_candidates_know_their_corners(points, mode, (k - 1) as nat);
        let n = points.len();
        let corners = crate::geometry::shape_modification::corners::corners_of(n, mode);
        let before = crate::geometry::shape_modification::candidates::candidates_among(
            points,
            corners,
            (k - 1) as nat,
        );
        let candidates = crate::geometry::shape_modification::candidates::candidates_among(
            points,
            corners,
            k,
        );
        assert forall|i: int|
            0 <= i < candidates.len() && crate::geometry::shape_modification::candidates::is_valid(
                points,
                #[trigger] candidates[i],
            ) implies is_on_its_side(points, mode, candidates[i]) by {
            if i < before.len() {
                assert(candidates[i] == before[i]);
            } else {
                lemma_listed_corners(n, mode, k - 1);
                lemma_listed_candidate(points, mode, k, candidates[i]);
            }
        }
    }
}

/// The candidate at place `k` of the corners, if there is one.
proof fn lemma_listed_candidate(
    points: Seq<Point>,
    mode: ShapeModifyMode,
    k: nat,
    candidate: Candidate,
)
    requires
        2 <= points.len() <= usize::MAX,
        0 < k <= points.len(),
        crate::geometry::shape_modification::candidates::is_valid(points, candidate),
        ({
            let corners = crate::geometry::shape_modification::corners::corners_of(
                points.len(),
                mode,
            );
            let corner = corners[k - 1];
            let prev = if k == 1 {
                corners.last()
            } else {
                corners[k - 2]
            };
            match candidate {
                Candidate::Concave(c) => c == corner && corner.turn(points).lt(Num::zero()),
                Candidate::Collinear(c) => c == corner && !corner.turn(points).lt(Num::zero())
                    && !corner.turn(points).gt(Num::zero()),
                Candidate::ConvexConvex(c1, c2) => c1 == prev && c2 == corner && prev.turn(
                    points,
                ).gt(Num::zero()) && corner.turn(points).gt(Num::zero()),
            }
        }),
    ensures
        is_on_its_side(points, mode, candidate),
{
    lemma_listed_corners(points.len(), mode, k - 1);
}

/// Each step of a simplification changes the outline on the side on which it may change: to
/// inflate it, vertices inside of the new edges are dropped, and to deflate it, those outside.
pub proof fn each_step_keeps_to_its_side(
    points: Seq<Point>,
    mode: ShapeModifyMode,
    original_area: Num,
    max_area_change_ratio: Num,
    next: Seq<Point>,
)
    requires
        2 <= points.len() <= usize::MAX,
        next_outline(points, mode, original_area, max_area_change_ratio) == Some(next),
    ensures
        exists|candidate: Candidate| #[trigger] is_step_on_its_side(points, mode, candidate, next),
{
    let candidates = all_candidates(points, mode);
    let i = choose|i: int| is_best(points, candidates, i);
    lemma_candidates_know_their_corners(points, mode, points.len());
    assert(crate::geometry::shape_modification::candidates::is_valid(points, candidates[i]));
    assert(is_step_on_its_side(points, mode, candidates[i], next));
}

proof fn lemma_dropped_corner(
    side: spec_fn(Point, Point) -> int,
    points: Seq<Point>,
    i: int,
)
    requires
        crate::geometry::primitives::exact_outlines::is_signed(side),
        3 <= points.len() <= usize::MAX,
        0 <= i < points.len(),
    ensures
        ({
            let c = crate::geometry::shape_modification::corners::corner_at(points.len(), i);
            crate::geometry::primitives::exact_outlines::around(side, points)
                == crate::geometry::primitives::exact_outlines::around(side, points.remove(i))
                + crate::geometry::primitives::exact_outlines::around(
                side,
                seq![points[c.0 as int], points[c.1 as int], points[c.2 as int]],
            )
        }),
{
    let c = crate::geometry::shape_modification::corners::corner_at(points.len(), i);
    let (from, to) = (c.0 as int, c.2 as int);
    crate::geometry::shape_modification::concavities::what_is_enclosed_accounts_for_the_rest(
        side,
        points,
        from,
        to,
    );
    assert(crate::geometry::shape_modification::concavities::vertices_from(points, from, to)
        =~= seq![points[c.0 as int], points[c.1 as int], points[c.2 as int]]);
    assert(crate::geometry::shape_modification::concavities::without_between(points, from, to)
        =~= points.remove(i));
}

/// Without rounding, an outline from which a vertex is dropped loses the area of the triangle at
/// the corner, which is negative at a concave one, and its winding about any place.
pub proof fn dropped_corners_account_for_the_area(points: Seq<Point>, i: int, place: (int, int))
    requires
        3 <= points.len() <= usize::MAX,
        0 <= i < points.len(),
    ensures
        ({
            let c = crate::geometry::shape_modification::corners::corner_at(points.len(), i);
            let corner = seq![points[c.0 as int], points[c.1 as int], points[c.2 as int]];
            &&& crate::geometry::primitives::exact_outlines::twice_the_area(points)
                == crate::geometry::primitives::exact_outlines::twice_the_area(points.remove(i))
                + crate::geometry::primitives::exact_outlines::twice_the_area(corner)
            &&& crate::geometry::primitives::exact_outlines::winding(points, place)
                == crate::geometry::primitives::exact_outlines::winding(points.remove(i), place)
                + crate::geometry::primitives::exact_outlines::winding(corner, place)
        }),
{
    crate::geometry::primitives::exact_outlines::areas_and_windings_are_signed(place);
    lemma_dropped_corner(
        crate::geometry::primitives::exact_outlines::area_measure(),
        points,
        i,
    );
    lemma_dropped_corner(
        crate::geometry::primitives::exact_outlines::winding_measure(place),
        points,
        i,
    );
}

/// What an outline gains of a measure when a candidate is executed, seen in the direction of its
/// corners: the opposite of the triangle at a corner that is dropped, or the triangles that the
/// vertex which replaces two others makes with them and their neighbours.
pub open spec fn gained(
    side: spec_fn(Point, Point) -> int,
    points: Seq<Point>,
    candidate: Candidate,
) -> int {
    match candidate {
        Candidate::Concave(c) => -crate::geometry::primitives::exact_outlines::around(
            side,
            corner_points(points, c),
        ),
        Candidate::Collinear(c) => -crate::geometry::primitives::exact_outlines::around(
            side,
            corner_points(points, c),
        ),
        Candidate::ConvexConvex(c1, c2) => {
            let vertex = crate::geometry::shape_modification::candidates::replacing_vertex(
                points,
                c1,
                c2,
            )->Ok_0;
            let (p, q) = (points[c1.0 as int], points[c1.1 as int]);
            let (r, s) = (points[c2.1 as int], points[c2.2 as int]);
            crate::geometry::primitives::exact_outlines::around(side, seq![p, vertex, q])
                + crate::geometry::primitives::exact_outlines::around(side, seq![q, vertex, r])
                + crate::geometry::primitives::exact_outlines::around(side, seq![r, vertex, s])
        },
    }
}

/// The three points of a corner.
pub open spec fn corner_points(points: Seq<Point>, c: Corner) -> Seq<Point> {
    seq![points[c.0 as int], points[c.1 as int], points[c.2 as int]]
}

proof fn lemma_flipped_corner(side: spec_fn(Point, Point) -> int, points: Seq<Point>, c: Corner)
    requires
        crate::geometry::primitives::exact_outlines::is_signed(side),
    ensures
        crate::geometry::primitives::exact_outlines::around(
            side,
            corner_points(points, c.flipped()),
        ) == -crate::geometry::primitives::exact_outlines::around(side, corner_points(points, c)),
{
    let (p, q, r) = (points[c.0 as int], points[c.1 as int], points[c.2 as int]);
    crate::geometry::primitives::exact_outlines::around_triangles(side, p, q, r);
    crate::geometry::primitives::exact_outlines::around_triangles(side, r, q, p);
    assert(side(q, p) == -side(p, q));
    assert(side(r, q) == -side(q, r));
    assert(side(p, r) == -side(r, p));
}

/// The neighbours of a vertex after the one next to it was dropped.
proof fn lemma_neighbours_after_dropping(
    points: Seq<Point>,
    mode: ShapeModifyMode,
    c1: Corner,
    c2: Corner,
    k: int,
)
    requires
        4 <= points.len() <= usize::MAX,
        c1.1 < points.len(),
        c2.1 < points.len(),
        c1 == corner_seen(points.len(), mode, c1.1 as int),
        c2 == corner_seen(points.len(), mode, c2.1 as int),
        c1.2 == c2.1,
        k == (if c1.1 < c2.1 {
            c2.1 - 1
        } else {
            c2.1 as int
        }),
    ensures
        ({
            let rest = points.remove(c1.1 as int);
            let c = crate::geometry::shape_modification::corners::corner_at(rest.len(), k);
            let (from, to) = match mode {
                ShapeModifyMode::Inflate => (c.0 as int, c.2 as int),
                ShapeModifyMode::Deflate => (c.2 as int, c.0 as int),
            };
            &&& 0 <= k < rest.len()
            &&& c.1 == k
            &&& rest[k] == points[c2.1 as int]
            &&& from != k && to != k
            &&& 0 <= from < rest.len()
            &&& 0 <= to < rest.len()
            &&& rest[from] == points[c1.0 as int]
            &&& rest[to] == points[c2.2 as int]
        }),
{
}

proof fn lemma_replaced_vertex(side: spec_fn(Point, Point) -> int, points: Seq<Point>, k: int, v: Point)
    requires
        crate::geometry::primitives::exact_outlines::is_signed(side),
        3 <= points.len() <= usize::MAX,
        0 <= k < points.len(),
    ensures
        ({
            let c = crate::geometry::shape_modification::corners::corner_at(points.len(), k);
            let (p, q) = (points[c.0 as int], points[c.2 as int]);
            crate::geometry::primitives::exact_outlines::around(side, points.update(k, v))
                == crate::geometry::primitives::exact_outlines::around(side, points)
                + crate::geometry::primitives::exact_outlines::around(side, seq![p, v, q])
                - crate::geometry::primitives::exact_outlines::around(side, seq![p, points[k], q])
        }),
{
    let replaced = points.update(k, v);
    lemma_dropped_corner(side, points, k);
    lemma_dropped_corner(side, replaced, k);
    assert(replaced.remove(k) =~= points.remove(k));
}

/// What executing a candidate does to a measure of the outline.
proof fn lemma_gained(
    side: spec_fn(Point, Point) -> int,
    points: Seq<Point>,
    mode: ShapeModifyMode,
    candidate: Candidate,
)
    requires
        crate::geometry::primitives::exact_outlines::is_signed(side),
        4 <= points.len() <= usize::MAX,
        is_on_its_side(points, mode, candidate),
    ensures
        ({
            let before = crate::geometry::primitives::exact_outlines::around(side, points);
            let after = crate::geometry::primitives::exact_outlines::around(
                side,
                crate::geometry::shape_modification::candidates::executed(points, candidate),
            );
            match mode {
                ShapeModifyMode::Inflate => after == before + gained(side, points, candidate),
                ShapeModifyMode::Deflate => after == before - gained(side, points, candidate),
            }
        }),
{
    match candidate {
        Candidate::Concave(c) => {
            lemma_dropped_corner(side, points, c.1 as int);
            lemma_flipped_corner(side, points, c);
        },
        Candidate::Collinear(c) => {
            lemma_dropped_corner(side, points, c.1 as int);
            lemma_flipped_corner(side, points, c);
        },
        Candidate::ConvexConvex(c1, c2) => {
            lemma_gained_by_replacing(side, points, mode, c1, c2);
        },
    }
}

proof fn lemma_gained_by_replacing(
    side: spec_fn(Point, Point) -> int,
    points: Seq<Point>,
    mode: ShapeModifyMode,
    c1: Corner,
    c2: Corner,
)
    requires
        crate::geometry::primitives::exact_outlines::is_signed(side),
        4 <= points.len() <= usize::MAX,
        is_on_its_side(points, mode, Candidate::ConvexConvex(c1, c2)),
    ensures
        ({
            let candidate = Candidate::ConvexConvex(c1, c2);
            let before = crate::geometry::primitives::exact_outlines::around(side, points);
            let after = crate::geometry::primitives::exact_outlines::around(
                side,
                crate::geometry::shape_modification::candidates::executed(points, candidate),
            );
            match mode {
                ShapeModifyMode::Inflate => after == before + gained(side, points, candidate),
                ShapeModifyMode::Deflate => after == before - gained(side, points, candidate),
            }
        }),
{
    let v = crate::geometry::shape_modification::candidates::replacing_vertex(
        points,
        c1,
        c2,
    )->Ok_0;
    let k = if c1.1 < c2.1 {
        c2.1 - 1
    } else {
        c2.1 as int
    };
    let rest = points.remove(c1.1 as int);
    let (p, q) = (points[c1.0 as int], points[c1.1 as int]);
    let (r, s) = (points[c2.1 as int], points[c2.2 as int]);
    lemma_dropped_corner(side, points, c1.1 as int);
    lemma_flipped_corner(side, points, c1);
    lemma_neighbours_after_dropping(points, mode, c1, c2, k);
    lemma_replaced_vertex(side, rest, k, v);
    crate::geometry::primitives::exact_outlines::around_triangles(side, p, q, r);
    crate::geometry::primitives::exact_outlines::around_triangles(side, p, v, s);
    crate::geometry::primitives::exact_outlines::around_triangles(side, s, v, p);
    crate::geometry::primitives::exact_outlines::around_triangles(side, p, r, s);
    crate::geometry::primitives::exact_outlines::around_triangles(side, s, r, p);
    crate::geometry::primitives::exact_outlines::around_triangles(side, p, v, q);
    crate::geometry::primitives::exact_outlines::around_triangles(side, q, v, r);
    crate::geometry::primitives::exact_outlines::around_triangles(side, r, v, s);
    assert(side(q, p) == -side(p, q));
    assert(side(r, q) == -side(q, r));
    assert(side(s, r) == -side(r, s));
    assert(side(r, p) == -side(p, r));
    assert(side(s, p) == -side(p, s));
    assert(side(v, p) == -side(p, v));
    assert(side(v, q) == -side(q, v));
    assert(side(v, r) == -side(r, v));
    assert(side(v, s) == -side(s, v));
}

/// Without rounding, too, a candidate changes the outline on its side: at a corner that is dropped,
/// the way does not turn left, and it does not turn right where the vertex that replaces two others
/// makes triangles with them and their neighbours.
pub open spec fn turns_exactly(points: Seq<Point>, candidate: Candidate) -> bool {
    match candidate {
        Candidate::Concave(c) => crate::geometry::primitives::exact_outlines::twice_the_area(
            corner_points(points, c),
        ) <= 0,
        Candidate::Collinear(c) => crate::geometry::primitives::exact_outlines::twice_the_area(
            corner_points(points, c),
        ) <= 0,
        Candidate::ConvexConvex(c1, c2) => {
            let vertex = crate::geometry::shape_modification::candidates::replacing_vertex(
                points,
                c1,
                c2,
            )->Ok_0;
            let (p, q) = (points[c1.0 as int], points[c1.1 as int]);
            let (r, s) = (points[c2.1 as int], points[c2.2 as int]);
            &&& crate::geometry::primitives::exact_outlines::twice_the_area(seq![p, vertex, q])
                >= 0
            &&& crate::geometry::primitives::exact_outlines::twice_the_area(seq![q, vertex, r])
                >= 0
            &&& crate::geometry::primitives::exact_outlines::twice_the_area(seq![r, vertex, s])
                >= 0
        },
    }
}

/// A corner that clearly turns right, by more than the steps on the way to its turn, does so without
/// rounding.
pub proof fn clear_corners_turn_exactly(points: Seq<Point>, c: Corner)
    requires
        c.turn(points).is_finite(),
        -2 * (c.turn(points).value() * Num::one_in_units())
            > crate::geometry::primitives::exact_signs::turn_steps(
            points[c.0 as int],
            points[c.1 as int],
            points[c.2 as int],
        ),
    ensures
        turns_exactly(points, Candidate::Concave(c)),
{
    crate::geometry::primitives::exact_signs::clear_turns_have_the_right_sign(
        points[c.0 as int],
        points[c.1 as int],
        points[c.2 as int],
    );
}

/// The candidate that is executed next.
pub open spec fn next_candidate(points: Seq<Point>, mode: ShapeModifyMode) -> Candidate {
    let candidates = all_candidates(points, mode);
    candidates[choose|i: int| is_best(points, candidates, i)]
}

/// Every candidate that is executed on the way turns without rounding as it was computed to.
pub open spec fn all_turn_exactly(
    points: Seq<Point>,
    mode: ShapeModifyMode,
    original_area: Num,
    max_area_change_ratio: Num,
    steps: nat,
) -> bool
    decreases steps,
{
    if steps == 0 || points.len() < 4
        || crate::geometry::shape_modification::candidates::has_undefined_turn(
        points,
        crate::geometry::shape_modification::corners::corners_of(points.len(), mode),
    ) {
        true
    } else {
        match next_outline(points, mode, original_area, max_area_change_ratio) {
            None => true,
            Some(next) => turns_exactly(points, next_candidate(points, mode)) && all_turn_exactly(
                next,
                mode,
                original_area,
                max_area_change_ratio,
                (steps - 1) as nat,
            ),
        }
    }
}

proof fn lemma_gained_exactly(points: Seq<Point>, candidate: Candidate, place: (int, int))
    requires
        turns_exactly(points, candidate),
    ensures
        gained(crate::geometry::primitives::exact_outlines::area_measure(), points, candidate)
            >= 0,
        gained(
            crate::geometry::primitives::exact_outlines::winding_measure(place),
            points,
            candidate,
        ) >= 0,
{
    match candidate {
        Candidate::Concave(c) => {
            crate::geometry::primitives::exact_outlines::triangles_wind_as_they_turn(
                points[c.0 as int],
                points[c.1 as int],
                points[c.2 as int],
                place,
            );
        },
        Candidate::Collinear(c) => {
            crate::geometry::primitives::exact_outlines::triangles_wind_as_they_turn(
                points[c.0 as int],
                points[c.1 as int],
                points[c.2 as int],
                place,
            );
        },
        Candidate::ConvexConvex(c1, c2) => {
            let v = crate::geometry::shape_modification::candidates::replacing_vertex(
                points,
                c1,
                c2,
            )->Ok_0;
            let (p, q) = (points[c1.0 as int], points[c1.1 as int]);
            let (r, s) = (points[c2.1 as int], points[c2.2 as int]);
            crate::geometry::primitives::exact_outlines::triangles_wind_as_they_turn(
                p,
                v,
                q,
                place,
            );
            crate::geometry::primitives::exact_outlines::triangles_wind_as_they_turn(
                q,
                v,
                r,
                place,
            );
            crate::geometry::primitives::exact_outlines::triangles_wind_as_they_turn(
                r,
                v,
                s,
                place,
            );
        },
    }
}

/// A candidate on its side, executed where the turns are exact, lets the outline grow or shrink as
/// it may.
pub proof fn candidates_change_the_outline_as_it_may(
    points: Seq<Point>,
    mode: ShapeModifyMode,
    candidate: Candidate,
)
    requires
        4 <= points.len() <= usize::MAX,
        is_on_its_side(points, mode, candidate),
        turns_exactly(points, candidate),
    ensures
        crate::geometry::shape_modification::growth::changes_as_it_may(
            points,
            crate::geometry::shape_modification::candidates::executed(points, candidate),
            mode,
        ),
{
    let next = crate::geometry::shape_modification::candidates::executed(points, candidate);
    crate::geometry::primitives::exact_outlines::areas_and_windings_are_signed((0, 0));
    lemma_gained(
        crate::geometry::primitives::exact_outlines::area_measure(),
        points,
        mode,
        candidate,
    );
    lemma_gained_exactly(points, candidate, (0, 0));
    assert forall|place: (int, int)|
        {
            let before = #[trigger] crate::geometry::primitives::exact_outlines::winding(
                points,
                place,
            );
            let after = #[trigger] crate::geometry::primitives::exact_outlines::winding(
                next,
                place,
            );
            match mode {
                ShapeModifyMode::Inflate => after >= before,
                ShapeModifyMode::Deflate => after <= before,
            }
        } by {
        crate::geometry::primitives::exact_outlines::areas_and_windings_are_signed(place);
        lemma_gained(
            crate::geometry::primitives::exact_outlines::winding_measure(place),
            points,
            mode,
            candidate,
        );
        lemma_gained_exactly(points, candidate, place);
    }
}

/// A simplified outline contains the given one if it may only grow, and is contained in it if it
/// may only shrink, provided that every candidate that is executed turns without rounding as it
/// was computed to.
pub proof fn simplified_outlines_grow_or_shrink_as_they_may(
    points: Seq<Point>,
    mode: ShapeModifyMode,
    original_area: Num,
    max_area_change_ratio: Num,
    steps: nat,
    r: Seq<Point>,
)
    requires
        3 <= points.len() <= usize::MAX,
        simplified(points, mode, original_area, max_area_change_ratio, steps) == Ok::<
            _,
            GeometryError,
        >(r),
        all_turn_exactly(points, mode, original_area, max_area_change_ratio, steps),
    ensures
        crate::geometry::shape_modification::growth::changes_as_it_may(points, r, mode),
    decreases steps,
{
    if steps > 0 && points.len() >= 4 {
        if let Some(next) = next_outline(points, mode, original_area, max_area_change_ratio) {
            let candidates = all_candidates(points, mode);
            let i = choose|i: int| is_best(points, candidates, i);
            let candidate = next_candidate(points, mode);
            lemma_candidates_know_their_corners(points, mode, points.len());
            lemma_candidates_fit(points, mode, points.len());
            assert(crate::geometry::shape_modification::candidates::is_valid(
                points,
                candidates[i],
            ));
            assert(candidate == candidates[i]);
            assert(is_on_its_side(points, mode, candidate));
            candidates_change_the_outline_as_it_may(points, mode, candidate);
            crate::geometry::shape_modification::candidates::execution_removes_one_vertex(
                points,
                candidate,
            );
            simplified_outlines_grow_or_shrink_as_they_may(
                next,
                mode,
                original_area,
                max_area_change_ratio,
                (steps - 1) as nat,
                r,
            );
            crate::geometry::shape_modification::growth::changes_add_up(points, next, r, mode);
        }
    }
}

/// A polygon without arcs that is built of its simplified outline as it stands contains the given
/// polygon if it may only grow, and is contained in it if it may only shrink, provided that every
/// candidate that is executed turns without rounding as it was computed to.
pub proof fn simplified_shapes_grow_or_shrink_as_they_may<
    M: Fn(Elementary) -> Num,
    P: Fn(&SPolygon) -> Result<Circle, GeometryError>,
>(
    shape: &SPolygon,
    mode: ShapeModifyMode,
    max_area_change_ratio: Num,
    tools: &Toolkit<M, P>,
    r: SPolygon,
)
    requires
        is_simplified(shape, mode, max_area_change_ratio, tools, Ok(r)),
        3 <= shape.vertices@.len() <= usize::MAX,
        !shape.has_arcs() ==> {
            let n = shape.vertices@.len();
            &&& all_turn_exactly(shape.vertices@, mode, shape.area, max_area_change_ratio, n)
            &&& simplified(shape.vertices@, mode, shape.area, max_area_change_ratio, n) == Ok::<
                _,
                GeometryError,
            >(r.vertices@)
        },
    ensures
        crate::geometry::shape_modification::growth::changes_as_it_may(
            shape.vertices@,
            r.vertices@,
            mode,
        ),
{
    if shape.has_arcs() {
        assert(r@.vertices == shape@.vertices);
    } else {
        simplified_outlines_grow_or_shrink_as_they_may(
            shape.vertices@,
            mode,
            shape.area,
            max_area_change_ratio,
            shape.vertices@.len(),
            r.vertices@,
        );
    }
}

/// How far a change of an area may exceed the allowed fraction: by half a step of the fraction for
/// what it is taken of, and by half a step of the difference of the areas.
pub open spec fn change_slack(area: Num, original_area: Num, max_area_change_ratio: Num) -> real {
    crate::num::estimate::half_step(max_area_change_ratio) * crate::num::estimate::exact(
        original_area,
    ) + crate::num::estimate::half_step(area.sub(original_area))
}

/// An area that changed by no more than the allowed fraction: what it gained or lost is at most that
/// fraction of what it was.
proof fn lemma_allowed_change(area: Num, original_area: Num, max_area_change_ratio: Num)
    requires
        original_area.is_finite(),
        original_area.gt(Num::zero()),
        max_area_change_ratio.is_finite(),
        relative_change(area, original_area).le(max_area_change_ratio),
    ensures
        area.is_finite(),
        crate::num::estimate::size(
            crate::num::estimate::exact(area) - crate::num::estimate::exact(original_area),
        ) <= crate::num::estimate::exact(max_area_change_ratio) * crate::num::estimate::exact(
            original_area,
        ) + change_slack(area, original_area, max_area_change_ratio),
{
    let d = area.sub(original_area);
    let q = d.abs().div(original_area);
    crate::num::estimate::exact_constants();
    crate::num::estimate::exact_values_compare(Num::zero(), original_area);
    assert(q.is_finite() && !q.is_negative() && d.is_finite()) by {
        reveal(Num::spec_div);
        reveal(Num::spec_add);
        crate::num::laws::rounded_numbers_are_numbers(
            d.units() * Num::one_in_units(),
            original_area.units(),
        );
    }
    crate::num::estimate::differences_are_near(area, original_area);
    crate::num::estimate::absolute_values_are_exact(d);
    crate::num::estimate::quotients_are_near(d.abs(), original_area);
    crate::num::estimate::exact_values_compare(q, max_area_change_ratio);
    crate::num::estimate::lemma_sign(q);
    crate::num::estimate::smaller_numbers_have_smaller_steps(q, max_area_change_ratio);
    let (o, m) = (
        crate::num::estimate::exact(original_area),
        crate::num::estimate::size(crate::num::estimate::exact(d)),
    );
    let (e, r, h) = (
        crate::num::estimate::exact(q),
        crate::num::estimate::exact(max_area_change_ratio),
        crate::num::estimate::half_step(max_area_change_ratio),
    );
    assert(m / o <= r + h);
    assert(m <= r * o + h * o) by (nonlinear_arith)
        requires
            m / o <= r + h,
            o > 0real,
    ;
}

/// If a simplified outline differs from the given one, its area differs from the original area by no
/// more than the allowed fraction of it, be it more or less, up to rounding.
pub proof fn simplified_outlines_stay_within_the_allowed_change(
    points: Seq<Point>,
    mode: ShapeModifyMode,
    original_area: Num,
    max_area_change_ratio: Num,
    steps: nat,
    r: Seq<Point>,
)
    requires
        3 <= points.len() <= usize::MAX,
        original_area.is_finite(),
        original_area.gt(Num::zero()),
        max_area_change_ratio.is_finite(),
        simplified(points, mode, original_area, max_area_change_ratio, steps) == Ok::<
            _,
            GeometryError,
        >(r),
        r != points,
    ensures
        ({
            let area = crate::geometry::primitives::boundary::chord_area(r);
            &&& area.is_finite()
            &&& crate::num::estimate::size(
                crate::num::estimate::exact(area) - crate::num::estimate::exact(original_area),
            ) <= crate::num::estimate::exact(max_area_change_ratio) * crate::num::estimate::exact(
                original_area,
            ) + change_slack(area, original_area, max_area_change_ratio)
        }),
{
    simplification_is_bounded(points, mode, original_area, max_area_change_ratio, steps);
    lemma_allowed_change(
        crate::geometry::primitives::boundary::chord_area(r),
        original_area,
        max_area_change_ratio,
    );
}

/// A simplified polygon that does not have the vertices of the given one, in one direction or the
/// other, has an area that differs from that of the given one by no more than the allowed fraction
/// of it, be it more or less, up to rounding.
pub proof fn simplified_shapes_stay_within_the_allowed_change<
    M: Fn(Elementary) -> Num,
    P: Fn(&SPolygon) -> Result<Circle, GeometryError>,
>(
    shape: &SPolygon,
    mode: ShapeModifyMode,
    max_area_change_ratio: Num,
    tools: &Toolkit<M, P>,
    r: SPolygon,
    outline: Seq<Point>,
)
    requires
        is_simplified(shape, mode, max_area_change_ratio, tools, Ok(r)),
        3 <= shape.vertices@.len() <= usize::MAX,
        shape.area.is_finite(),
        shape.area.gt(Num::zero()),
        max_area_change_ratio.is_finite(),
        outline == r.vertices@ || outline == r.vertices@.reverse(),
        simplified(
            shape.vertices@,
            mode,
            shape.area,
            max_area_change_ratio,
            shape.vertices@.len(),
        ) == Ok::<_, GeometryError>(outline),
        outline != shape.vertices@,
    ensures
        !shape.has_arcs() ==> {
            let slack = change_slack(
                crate::geometry::primitives::boundary::chord_area(outline),
                shape.area,
                max_area_change_ratio,
            );
            &&& r.area.is_finite()
            &&& crate::num::estimate::size(
                crate::num::estimate::exact(r.area) - crate::num::estimate::exact(shape.area),
            ) <= crate::num::estimate::exact(max_area_change_ratio) * crate::num::estimate::exact(
                shape.area,
            ) + slack
        },
{
    if !shape.has_arcs() {
        simplified_outlines_stay_within_the_allowed_change(
            shape.vertices@,
            mode,
            shape.area,
            max_area_change_ratio,
            shape.vertices@.len(),
            outline,
        );
        let bulges = crate::geometry::primitives::simple_polygon::straight_bulges(outline.len());
        lemma_no_arcs_among(outline, bulges, outline.len(), &tools.math);
        let chords = crate::geometry::primitives::boundary::chord_area(outline);
        let area = chords.add(Num::zero());
        crate::num::laws::differences_and_zeros(chords, Num::zero());
        crate::num::estimate::exact_constants();
        crate::num::estimate::exact_values_compare(area, chords);
        crate::num::estimate::exact_values_compare(area, Num::zero());
        crate::num::estimate::exact_values_compare(shape.area, Num::zero());
        crate::num::estimate::negations_are_exact(area);
        assert(crate::geometry::primitives::boundary::segment_area_sum(
            Seq::<crate::geometry::primitives::arc::Arc>::empty(),
            &tools.math,
        ) == Num::zero());
        assert(crate::geometry::primitives::boundary::boundary_area(outline, bulges, &tools.math)
            == Ok::<_, GeometryError>(area));
        assert(r.area == r@.area);
        assert(r.area == area || r.area == area.neg());
    }
}

proof fn lemma_no_arcs_among<M: Fn(Elementary) -> Num>(
    points: Seq<Point>,
    bulges: Seq<Num>,
    n: nat,
    math: &M,
)
    requires
        n <= bulges.len(),
        forall|i: int| 0 <= i < bulges.len() ==> #[trigger] bulges[i] == Num::zero(),
    ensures
        crate::geometry::primitives::boundary::arcs_among(points, bulges, n, math) == Ok::<
            _,
            GeometryError,
        >(Seq::<crate::geometry::primitives::arc::Arc>::empty()),
    decreases n,
{
    if n > 0 {
        lemma_no_arcs_among(points, bulges, (n - 1) as nat, math);
        assert(bulges[n - 1] == Num::zero());
    }
}

/// An outline that was simplified as far as it may: it has too few vertices to go on, or there is no
/// next one.
proof fn lemma_nothing_left(
    points: Seq<Point>,
    mode: ShapeModifyMode,
    original_area: Num,
    max_area_change_ratio: Num,
    steps: nat,
    r: Seq<Point>,
)
    requires
        points.len() <= usize::MAX,
        points.len() <= steps,
        simplified(points, mode, original_area, max_area_change_ratio, steps) == Ok::<
            _,
            GeometryError,
        >(r),
        r.len() >= 4,
    ensures
        next_outline(r, mode, original_area, max_area_change_ratio) is None,
    decreases steps,
{
    if points.len() >= 4 {
        match next_outline(points, mode, original_area, max_area_change_ratio) {
            None => {},
            Some(next) => {
                let candidates = all_candidates(points, mode);
                let i = choose|i: int| is_best(points, candidates, i);
                lemma_candidates_fit(points, mode, points.len());
                crate::geometry::shape_modification::candidates::execution_removes_one_vertex(
                    points,
                    candidates[i],
                );
                lemma_nothing_left(
                    next,
                    mode,
                    original_area,
                    max_area_change_ratio,
                    (steps - 1) as nat,
                    r,
                );
            },
        }
    }
}

/// An area that changed by more than the allowed fraction.
proof fn lemma_forbidden_change(area: Num, original_area: Num, max_area_change_ratio: Num)
    requires
        original_area.is_finite(),
        original_area.gt(Num::zero()),
        max_area_change_ratio.is_finite(),
        relative_change(area, original_area).is_finite(),
        !relative_change(area, original_area).le(max_area_change_ratio),
    ensures
        crate::num::estimate::size(
            crate::num::estimate::exact(area) - crate::num::estimate::exact(original_area),
        ) + change_slack(area, original_area, relative_change(area, original_area))
            >= crate::num::estimate::exact(max_area_change_ratio) * crate::num::estimate::exact(
            original_area,
        ),
{
    let d = area.sub(original_area);
    let q = d.abs().div(original_area);
    crate::num::estimate::exact_constants();
    crate::num::estimate::exact_values_compare(Num::zero(), original_area);
    crate::num::estimate::finite_quotients_have_finite_dividends(d.abs(), original_area);
    crate::num::estimate::absolute_values_are_exact(d);
    crate::num::estimate::differences_are_near(area, original_area);
    crate::num::estimate::quotients_are_near(d.abs(), original_area);
    crate::num::estimate::exact_values_compare(q, max_area_change_ratio);
    let (o, m) = (
        crate::num::estimate::exact(original_area),
        crate::num::estimate::size(crate::num::estimate::exact(d)),
    );
    let (r, h) = (
        crate::num::estimate::exact(max_area_change_ratio),
        crate::num::estimate::half_step(q),
    );
    let p = m / o;
    crate::num::estimate::lemma_divided(m, o);
    let k = p + h - r;
    assert(k * o >= 0real) by (nonlinear_arith)
        requires
            k >= 0real,
            o > 0real,
    ;
    crate::geometry::primitives::real_algebra::lemma_difference_times(p + h, r, o);
    assert((p + h) * o == p * o + h * o) by (nonlinear_arith);
}

/// Simplification goes on for as long as it may: if the result still has more than three vertices and
/// a candidate is valid, the one of the valid candidates that changes the area least would bring it as
/// far from the original area as allowed, or farther, up to rounding.
pub proof fn simplification_goes_on_while_it_may(
    points: Seq<Point>,
    mode: ShapeModifyMode,
    original_area: Num,
    max_area_change_ratio: Num,
    steps: nat,
    r: Seq<Point>,
    i: int,
)
    requires
        points.len() <= usize::MAX,
        points.len() <= steps,
        original_area.is_finite(),
        original_area.gt(Num::zero()),
        max_area_change_ratio.is_finite(),
        simplified(points, mode, original_area, max_area_change_ratio, steps) == Ok::<
            _,
            GeometryError,
        >(r),
        r.len() >= 4,
        is_best(r, all_candidates(r, mode), i),
        ({
            let next = crate::geometry::shape_modification::candidates::executed(
                r,
                all_candidates(r, mode)[i],
            );
            relative_change(
                crate::geometry::primitives::boundary::chord_area(next),
                original_area,
            ).is_finite()
        }),
    ensures
        ({
            let next = crate::geometry::shape_modification::candidates::executed(
                r,
                all_candidates(r, mode)[i],
            );
            let area = crate::geometry::primitives::boundary::chord_area(next);
            crate::num::estimate::size(
                crate::num::estimate::exact(area) - crate::num::estimate::exact(original_area),
            ) + change_slack(area, original_area, relative_change(area, original_area))
                >= crate::num::estimate::exact(max_area_change_ratio) * crate::num::estimate::exact(
                original_area,
            )
        }),
{
    lemma_nothing_left(points, mode, original_area, max_area_change_ratio, steps, r);
    let candidates = all_candidates(r, mode);
    let j = choose|j: int| is_best(r, candidates, j);
    assert(is_best(r, candidates, j));
    assert(i == j);
    let next = crate::geometry::shape_modification::candidates::executed(r, candidates[i]);
    lemma_forbidden_change(
        crate::geometry::primitives::boundary::chord_area(next),
        original_area,
        max_area_change_ratio,
    );
}

} // verus!
