//! Cleaning up boundaries and making polygons of them.
use vstd::prelude::*;

use crate::error::GeometryError;
use crate::geometry::primitives::arc::Arc;
use crate::geometry::primitives::boundary::{bulge_epsilon, contains_duplicates, next_index};
use crate::geometry::primitives::boundary_segment::BoundarySegment;
use crate::geometry::primitives::circle::Circle;
use crate::geometry::primitives::point::Point;
use crate::geometry::primitives::simple_polygon::{SPolygon, Toolkit};
use crate::math::{evaluate, evaluates, Elementary};
use crate::num::Num;

verus! {

pub open spec fn spec_points_match(a: Point, b: Point) -> bool {
    a.0.approx_eq(b.0, Num::e_minus_4(), 0) && a.1.approx_eq(b.1, Num::e_minus_4(), 0)
}

/// Whether the coordinates of two points differ by no more than 0.0001.
#[verifier::when_used_as_spec(spec_points_match)]
pub fn points_match(a: Point, b: Point) -> (r: bool)
    ensures
        r == spec_points_match(a, b),
{
    a.0.approx_eq(b.0, Num::e_minus_4(), 0) && a.1.approx_eq(b.1, Num::e_minus_4(), 0)
}

/// Of one value for each of the first `n` vertices, those whose vertices do not match the
/// next one.
pub open spec fn kept<T>(points: Seq<Point>, values: Seq<T>, n: nat) -> Seq<T>
    decreases n,
{
    if n == 0 {
        Seq::empty()
    } else {
        let i = n - 1;
        let before = kept(points, values, i as nat);
        if points_match(
            points[i],
            crate::geometry::primitives::boundary::successor(points, i),
        ) {
            before
        } else {
            before.push(values[i])
        }
    }
}

/// Drops the vertices that match the next one.
pub fn eliminate_degenerate_vertices(points: &mut Vec<Point>)
    ensures
        final(points)@ == kept(old(points)@, old(points)@, old(points)@.len()),
{
    let mut bulges: Vec<Num> = crate::geometry::primitives::simple_polygon::no_bulges(points.len());
    eliminate_degenerate_boundary_vertices(points, &mut bulges);
}

/// Drops the vertices that match the next one, and their bulges.
pub fn eliminate_degenerate_boundary_vertices(points: &mut Vec<Point>, bulges: &mut Vec<Num>)
    requires
        old(points)@.len() == old(bulges)@.len(),
    ensures
        final(points)@ == kept(old(points)@, old(points)@, old(points)@.len()),
        final(bulges)@ == kept(old(points)@, old(bulges)@, old(points)@.len()),
{
    let mut kept_points: Vec<Point> = Vec::new();
    let mut kept_bulges: Vec<Num> = Vec::new();
    let mut i: usize = 0;
    while i < points.len()
        invariant
            i <= points@.len() == bulges@.len(),
            kept_points@ == kept(points@, points@, i as nat),
            kept_bulges@ == kept(points@, bulges@, i as nat),
        decreases points.len() - i,
    {
        let j: usize = next_index(i, points.len());
        if !points_match(points[i], points[j]) {
            kept_points.push(points[i]);
            kept_bulges.push(bulges[i]);
        }
        i = i + 1;
    }
    *points = kept_points;
    *bulges = kept_bulges;
}

/// As many bulges are kept as vertices, and no more than there were.
pub proof fn cleaning_keeps_bulges_with_vertices(points: Seq<Point>, bulges: Seq<Num>, n: nat)
    requires
        n <= points.len() == bulges.len(),
    ensures
        kept(points, points, n).len() == kept(points, bulges, n).len(),
        kept(points, points, n).len() <= n,
    decreases n,
{
    if n > 0 {
        cleaning_keeps_bulges_with_vertices(points, bulges, (n - 1) as nat);
    }
}

/// A boundary in which no vertex matches the next one stays as it is.
pub proof fn clean_boundaries_are_kept<T>(points: Seq<Point>, values: Seq<T>, n: nat)
    requires
        n <= points.len() == values.len(),
        forall|i: int|
            0 <= i < points.len() ==> !points_match(
                #[trigger] points[i],
                crate::geometry::primitives::boundary::successor(points, i),
            ),
    ensures
        kept(points, values, n) == values.take(n as int),
    decreases n,
{
    if n > 0 {
        clean_boundaries_are_kept(points, values, (n - 1) as nat);
        assert(kept(points, values, n) =~= values.take(n as int));
    } else {
        assert(kept(points, values, n) =~= values.take(0));
    }
}

pub open spec fn spec_split_count_for_sweep(sweep: Num, max_sweep: Num) -> usize {
    let n = sweep.abs().div(max_sweep).ceil_to_usize();
    if n > 1 {
        n
    } else {
        1
    }
}

/// In how many parts a sweep is cut so that none exceeds the greatest one.
#[verifier::when_used_as_spec(spec_split_count_for_sweep)]
pub fn split_count_for_sweep(sweep: Num, max_sweep: Num) -> (r: usize)
    ensures
        r == spec_split_count_for_sweep(sweep, max_sweep),
{
    let n: usize = sweep.abs().div(max_sweep).ceil_to_usize();
    if n > 1 {
        n
    } else {
        1
    }
}

pub open spec fn spec_needs_no_split<M: Fn(Elementary) -> Num>(
    bulge: Num,
    max_sweep: Num,
    math: &M,
) -> bool {
    bulge.abs().le(
        evaluate(math, Elementary::Tan(max_sweep.div(Num::four()))).add(bulge_epsilon()),
    )
}

/// Whether a segment of this bulge sweeps no more than the greatest angle.
#[verifier::when_used_as_spec(spec_needs_no_split)]
pub fn needs_no_split<M: Fn(Elementary) -> Num>(bulge: Num, max_sweep: Num, math: &M) -> (r: bool)
    requires
        evaluates(math),
    ensures
        r == spec_needs_no_split(bulge, max_sweep, math),
{
    bulge.abs().le(
        evaluate(math, Elementary::Tan(max_sweep.div(Num::four()))).add(bulge_epsilon()),
    )
}

/// A part of a boundary: vertices, and the bulges of the segments that leave them.
pub struct BoundaryModel {
    pub points: Seq<Point>,
    pub bulges: Seq<Num>,
}

/// The parts of an arc that is cut into equal ones.
pub open spec fn arc_parts<M: Fn(Elementary) -> Num>(
    arc: &Arc,
    max_sweep: Num,
    math: &M,
) -> BoundaryModel {
    let n = split_count_for_sweep(arc.sweep, max_sweep);
    let step = arc.sweep.div(Num::from_usize(n));
    BoundaryModel {
        points: Seq::new(
            n as nat,
            |part: int|
                if part == 0 {
                    arc.start
                } else {
                    arc.point_at_angle(
                        arc.start_angle(math).add(step.mul(Num::from_usize(part as usize))),
                        math,
                    )
                },
        ),
        bulges: Seq::new(
            n as nat,
            |part: int| evaluate(math, Elementary::Tan(step.div(Num::four()))),
        ),
    }
}

/// What becomes of the segment that leaves vertex `i`: it stays as it is unless it sweeps
/// too much.
pub open spec fn split_segment<M: Fn(Elementary) -> Num>(
    points: Seq<Point>,
    bulges: Seq<Num>,
    max_sweep: Num,
    i: int,
    math: &M,
) -> Result<BoundaryModel, GeometryError> {
    let start = points[i];
    let end = crate::geometry::primitives::boundary::successor(points, i);
    if !start.is_finite() {
        Err(GeometryError::InvalidVertex)
    } else if !bulges[i].is_finite() {
        Err(GeometryError::InvalidBulge)
    } else if needs_no_split(bulges[i], max_sweep, math) {
        Ok(BoundaryModel { points: seq![start], bulges: seq![bulges[i]] })
    } else {
        match Arc::try_from_bulge(start, end, bulges[i], math) {
            Err(e) => Err(e),
            Ok(arc) => Ok(arc_parts(&arc, max_sweep, math)),
        }
    }
}

/// What becomes of the first `n` segments, one after the other.
pub open spec fn split_among<M: Fn(Elementary) -> Num>(
    points: Seq<Point>,
    bulges: Seq<Num>,
    max_sweep: Num,
    n: nat,
    math: &M,
) -> Result<BoundaryModel, GeometryError>
    decreases n,
{
    if n == 0 {
        Ok(BoundaryModel { points: Seq::empty(), bulges: Seq::empty() })
    } else {
        match split_among(points, bulges, max_sweep, (n - 1) as nat, math) {
            Err(e) => Err(e),
            Ok(before) => match split_segment(points, bulges, max_sweep, n - 1, math) {
                Err(e) => Err(e),
                Ok(part) => Ok(
                    BoundaryModel {
                        points: before.points + part.points,
                        bulges: before.bulges + part.bulges,
                    },
                ),
            },
        }
    }
}

/// The boundary with every segment cut that sweeps more than the greatest angle.
pub open spec fn split_boundary<M: Fn(Elementary) -> Num>(
    points: Seq<Point>,
    bulges: Seq<Num>,
    max_sweep: Num,
    math: &M,
) -> Result<BoundaryModel, GeometryError> {
    if points.len() != bulges.len() {
        Err(GeometryError::BulgeCountMismatch)
    } else {
        split_among(points, bulges, max_sweep, points.len(), math)
    }
}

proof fn lemma_split_failure_is_final<M: Fn(Elementary) -> Num>(
    points: Seq<Point>,
    bulges: Seq<Num>,
    max_sweep: Num,
    n: nat,
    m: nat,
    math: &M,
)
    requires
        n <= m,
        split_among(points, bulges, max_sweep, n, math) is Err,
    ensures
        split_among(points, bulges, max_sweep, m, math) == split_among(
            points,
            bulges,
            max_sweep,
            n,
            math,
        ),
    decreases m,
{
    if n < m {
        lemma_split_failure_is_final(points, bulges, max_sweep, n, (m - 1) as nat, math);
    }
}

fn push_arc_parts<M: Fn(Elementary) -> Num>(
    points: &mut Vec<Point>,
    bulges: &mut Vec<Num>,
    arc: &Arc,
    max_sweep: Num,
    math: &M,
)
    requires
        evaluates(math),
    ensures
        final(points)@ == old(points)@ + arc_parts(arc, max_sweep, math).points,
        final(bulges)@ == old(bulges)@ + arc_parts(arc, max_sweep, math).bulges,
{
    let n: usize = split_count_for_sweep(arc.sweep, max_sweep);
    let step: Num = arc.sweep.div(Num::from_usize(n));
    let bulge: Num = evaluate(math, Elementary::Tan(step.div(Num::four())));
    let ghost parts = arc_parts(arc, max_sweep, math);
    let ghost before = (points@, bulges@);
    let mut part: usize = 0;
    assert(points@ =~= before.0 + parts.points.take(0));
    assert(bulges@ =~= before.1 + parts.bulges.take(0));
    while part < n
        invariant
            part <= n,
            n == split_count_for_sweep(arc.sweep, max_sweep),
            step == arc.sweep.div(Num::from_usize(n)),
            bulge == evaluate(math, Elementary::Tan(step.div(Num::four()))),
            evaluates(math),
            parts == arc_parts(arc, max_sweep, math),
            points@ == before.0 + parts.points.take(part as int),
            bulges@ == before.1 + parts.bulges.take(part as int),
        decreases n - part,
    {
        let point: Point = if part == 0 {
            arc.start
        } else {
            arc.point_at_angle(arc.start_angle(math).add(step.mul(Num::from_usize(part))), math)
        };
        points.push(point);
        bulges.push(bulge);
        part = part + 1;
        assert(points@ =~= before.0 + parts.points.take(part as int));
        assert(bulges@ =~= before.1 + parts.bulges.take(part as int));
    }
    assert(parts.points.take(n as int) =~= parts.points);
    assert(parts.bulges.take(n as int) =~= parts.bulges);
}

/// Cuts every segment that sweeps more than the greatest angle into equal parts.
pub fn split_large_bulges<M: Fn(Elementary) -> Num>(
    points: &[Point],
    bulges: &[Num],
    max_sweep: Num,
    math: &M,
) -> (r: Result<(Vec<Point>, Vec<Num>), GeometryError>)
    requires
        evaluates(math),
    ensures
        match r {
            Ok((split_points, split_bulges)) => split_boundary(points@, bulges@, max_sweep, math)
                == Ok::<_, GeometryError>(
                BoundaryModel { points: split_points@, bulges: split_bulges@ },
            ),
            Err(e) => split_boundary(points@, bulges@, max_sweep, math) == Err::<
                BoundaryModel,
                _,
            >(e),
        },
{
    if points.len() != bulges.len() {
        return Err(GeometryError::BulgeCountMismatch);
    }
    let mut split_points: Vec<Point> = Vec::new();
    let mut split_bulges: Vec<Num> = Vec::new();
    let mut i: usize = 0;
    while i < points.len()
        invariant
            i <= points@.len() == bulges@.len(),
            evaluates(math),
            split_among(points@, bulges@, max_sweep, i as nat, math) == Ok::<_, GeometryError>(
                BoundaryModel { points: split_points@, bulges: split_bulges@ },
            ),
        decreases points.len() - i,
    {
        let j: usize = next_index(i, points.len());
        let start: Point = points[i];
        let bulge: Num = bulges[i];
        proof {
            if split_segment(points@, bulges@, max_sweep, i as int, math) is Err {
                lemma_split_failure_is_final(
                    points@,
                    bulges@,
                    max_sweep,
                    (i + 1) as nat,
                    points@.len(),
                    math,
                );
            }
        }
        if !start.is_finite() {
            return Err(GeometryError::InvalidVertex);
        }
        if !bulge.is_finite() {
            return Err(GeometryError::InvalidBulge);
        }
        if needs_no_split(bulge, max_sweep, math) {
            proof {
                assert(split_points@.push(start) =~= split_points@ + seq![start]);
                assert(split_bulges@.push(bulge) =~= split_bulges@ + seq![bulge]);
            }
            split_points.push(start);
            split_bulges.push(bulge);
        } else {
            match Arc::try_from_bulge(start, points[j], bulge, math) {
                Ok(arc) => push_arc_parts(
                    &mut split_points,
                    &mut split_bulges,
                    &arc,
                    max_sweep,
                    math,
                ),
                Err(e) => return Err(e),
            }
        }
        i = i + 1;
    }
    Ok((split_points, split_bulges))
}

/// A split boundary has as many bulges as vertices, and no fewer than before.
pub proof fn splitting_keeps_bulges_with_vertices<M: Fn(Elementary) -> Num>(
    points: Seq<Point>,
    bulges: Seq<Num>,
    max_sweep: Num,
    n: nat,
    math: &M,
)
    requires
        n <= points.len() == bulges.len(),
    ensures
        split_among(points, bulges, max_sweep, n, math) matches Ok(r) ==> r.points.len()
            == r.bulges.len() && r.points.len() >= n,
    decreases n,
{
    if n > 0 {
        splitting_keeps_bulges_with_vertices(points, bulges, max_sweep, (n - 1) as nat, math);
    }
}

/// A boundary of finite vertices and bulges, none of which sweeps too much, stays as it is.
pub proof fn small_bulges_are_not_split<M: Fn(Elementary) -> Num>(
    points: Seq<Point>,
    bulges: Seq<Num>,
    max_sweep: Num,
    n: nat,
    math: &M,
)
    requires
        n <= points.len() == bulges.len(),
        forall|i: int| 0 <= i < points.len() ==> (#[trigger] points[i]).is_finite(),
        forall|i: int|
            0 <= i < bulges.len() ==> (#[trigger] bulges[i]).is_finite() && needs_no_split(
                bulges[i],
                max_sweep,
                math,
            ),
    ensures
        split_among(points, bulges, max_sweep, n, math) == Ok::<_, GeometryError>(
            BoundaryModel { points: points.take(n as int), bulges: bulges.take(n as int) },
        ),
    decreases n,
{
    if n > 0 {
        small_bulges_are_not_split(points, bulges, max_sweep, (n - 1) as nat, math);
        assert(points[n - 1].is_finite());
        assert(bulges[n - 1].is_finite());
        assert(points.take(n - 1) + seq![points[n - 1]] =~= points.take(n as int));
        assert(bulges.take(n - 1) + seq![bulges[n - 1]] =~= bulges.take(n as int));
    } else {
        assert(points.take(0) =~= Seq::<Point>::empty());
        assert(bulges.take(0) =~= Seq::<Num>::empty());
    }
}

pub open spec fn spec_segments_are_adjacent(i: usize, j: usize, n_segments: usize) -> bool {
    next_index(i, n_segments) == j || next_index(j, n_segments) == i
}

/// Whether one of the two segments follows the other on a closed boundary.
#[verifier::when_used_as_spec(spec_segments_are_adjacent)]
pub fn segments_are_adjacent(i: usize, j: usize, n_segments: usize) -> (r: bool)
    requires
        i < n_segments,
        j < n_segments,
    ensures
        r == spec_segments_are_adjacent(i, j, n_segments),
{
    next_index(i, n_segments) == j || next_index(j, n_segments) == i
}

/// Segments `i` and `j`, the first before the second, are not adjacent and collide.
pub open spec fn crosses<M: Fn(Elementary) -> Num>(
    segments: Seq<BoundarySegment>,
    i: usize,
    j: usize,
    math: &M,
) -> bool {
    &&& i < j < segments.len()
    &&& !segments_are_adjacent(i, j, segments.len() as usize)
    &&& segments[i as int].collides_with_segment(&segments[j as int], math)
}

/// Two segments cross, and none of the pairs before them do.
pub open spec fn is_first_crossing<M: Fn(Elementary) -> Num>(
    segments: Seq<BoundarySegment>,
    i: usize,
    j: usize,
    math: &M,
) -> bool {
    &&& crosses(segments, i, j, math)
    &&& forall|k: usize, l: usize| #[trigger]
        crosses(segments, k, l, math) ==> i < k || (i == k && j <= l)
}

/// What `ensure_no_self_intersections` says about a boundary.
pub open spec fn intersection_check<M: Fn(Elementary) -> Num>(
    segments: Seq<BoundarySegment>,
    r: Result<(), GeometryError>,
    math: &M,
) -> bool {
    match r {
        Ok(_) => forall|k: usize, l: usize| !#[trigger] crosses(segments, k, l, math),
        Err(GeometryError::SelfIntersection(i, j)) => is_first_crossing(segments, i, j, math),
        Err(_) => false,
    }
}

/// Fails at the first two segments that collide although they are not adjacent.
pub fn ensure_no_self_intersections<M: Fn(Elementary) -> Num>(shape: &SPolygon, math: &M) -> (r:
    Result<(), GeometryError>)
    requires
        evaluates(math),
        shape.valid(math),
    ensures
        intersection_check(shape@.segments(math), r, math),
{
    let segments: Vec<BoundarySegment> = shape.segment_iter(math);
    let n: usize = segments.len();
    let mut i: usize = 0;
    while i < n
        invariant
            i <= n == segments@.len(),
            evaluates(math),
            segments@ == shape@.segments(math),
            forall|k: usize, l: usize| k < i ==> !#[trigger] crosses(segments@, k, l, math),
        decreases n - i,
    {
        let mut j: usize = i + 1;
        while j < n
            invariant
                i < j <= n == segments@.len(),
                evaluates(math),
                segments@ == shape@.segments(math),
                forall|k: usize, l: usize|
                    k < i || (k == i && l < j) ==> !#[trigger] crosses(segments@, k, l, math),
            decreases n - j,
        {
            if !segments_are_adjacent(i, j, n) && segments[i].collides_with_segment(
                &segments[j],
                math,
            ) {
                assert(crosses(segments@, i, j, math));
                return Err(GeometryError::SelfIntersection(i, j));
            }
            j = j + 1;
        }
        i = i + 1;
    }
    Ok(())
}

/// `r` is a possible outcome when a polygon is built of a boundary that must not cross itself.
pub open spec fn is_built_simple<
    M: Fn(Elementary) -> Num,
    P: Fn(&SPolygon) -> Result<Circle, GeometryError>,
>(
    points: Seq<Point>,
    bulges: Seq<Num>,
    tools: &Toolkit<M, P>,
    r: Result<SPolygon, GeometryError>,
) -> bool {
    match r {
        Ok(shape) => {
            &&& crate::geometry::primitives::simple_polygon::is_built(
                points,
                bulges,
                tools,
                Ok(shape@),
            )
            &&& intersection_check(shape@.segments(&tools.math), Ok(()), &tools.math)
        },
        Err(e) => {
            ||| crate::geometry::primitives::simple_polygon::is_built(
                points,
                bulges,
                tools,
                Err(e),
            )
            ||| exists|shape: SPolygon|
                {
                    &&& crate::geometry::primitives::simple_polygon::is_built(
                        points,
                        bulges,
                        tools,
                        Ok(#[trigger] shape@),
                    )
                    &&& intersection_check(shape@.segments(&tools.math), Err(e), &tools.math)
                }
        },
    }
}

pub fn build_simple<
    M: Fn(Elementary) -> Num,
    P: Fn(&SPolygon) -> Result<Circle, GeometryError>,
>(points: Vec<Point>, bulges: Vec<Num>, tools: &Toolkit<M, P>) -> (r: Result<
    SPolygon,
    GeometryError,
>)
    requires
        tools.usable(),
    ensures
        is_built_simple(points@, bulges@, tools, r),
        r matches Ok(shape) ==> shape.valid(&tools.math),
{
    match SPolygon::new_with_bulges(points, bulges, tools) {
        Err(e) => Err(e),
        Ok(shape) => {
            let ghost content = shape@;
            match ensure_no_self_intersections(&shape, &tools.math) {
                Ok(_) => Ok(shape),
                Err(e) => Err(e),
            }
        },
    }
}

/// The greatest sweep of a segment that an imported boundary keeps: half a turn.
#[verifier::allow_in_spec]
pub fn max_cavalier_sweep() -> Num
    returns
        Num::pi(),
{
    Num::pi()
}

/// `r` is a possible outcome when a boundary is imported: large bulges are split, and a
/// polygon is built of what comes out.
pub open spec fn is_imported_boundary<
    M: Fn(Elementary) -> Num,
    P: Fn(&SPolygon) -> Result<Circle, GeometryError>,
>(
    points: Seq<Point>,
    bulges: Seq<Num>,
    tools: &Toolkit<M, P>,
    r: Result<SPolygon, GeometryError>,
) -> bool {
    match split_boundary(points, bulges, max_cavalier_sweep(), &tools.math) {
        Err(e) => r == Err::<SPolygon, _>(e),
        Ok(split) => is_built_simple(split.points, split.bulges, tools, r),
    }
}

pub fn import_boundary_parts<
    M: Fn(Elementary) -> Num,
    P: Fn(&SPolygon) -> Result<Circle, GeometryError>,
>(points: Vec<Point>, bulges: Vec<Num>, tools: &Toolkit<M, P>) -> (r: Result<
    SPolygon,
    GeometryError,
>)
    requires
        tools.usable(),
    ensures
        is_imported_boundary(points@, bulges@, tools, r),
        r matches Ok(shape) ==> shape.valid(&tools.math),
{
    match split_large_bulges(&points, &bulges, max_cavalier_sweep(), &tools.math) {
        Err(e) => Err(e),
        Ok((split_points, split_bulges)) => build_simple(split_points, split_bulges, tools),
    }
}

/// The boundary without a last vertex that matches the first one.
pub open spec fn opened<T>(points: Seq<Point>, values: Seq<T>) -> Seq<T> {
    if points.len() > 1 && points_match(points[0], points.last()) {
        values.drop_last()
    } else {
        values
    }
}

/// The boundary without a closing vertex and without vertices that match the next one.
pub open spec fn cleaned(points: Seq<Point>, bulges: Seq<Num>) -> BoundaryModel {
    let open_points = opened(points, points);
    BoundaryModel {
        points: kept(open_points, open_points, open_points.len()),
        bulges: kept(open_points, opened(points, bulges), open_points.len()),
    }
}

/// `r` is a possible outcome when vertices with bulges are imported.
pub open spec fn is_imported<
    M: Fn(Elementary) -> Num,
    P: Fn(&SPolygon) -> Result<Circle, GeometryError>,
>(
    points: Seq<Point>,
    bulges: Seq<Num>,
    tools: &Toolkit<M, P>,
    r: Result<SPolygon, GeometryError>,
) -> bool {
    let clean = cleaned(points, bulges);
    if crate::geometry::primitives::boundary::has_duplicates(clean.points) {
        r == Err::<SPolygon, _>(GeometryError::NonConsecutiveDuplicates)
    } else {
        is_imported_boundary(clean.points, clean.bulges, tools, r)
    }
}

/// The places of vertices with bulges.
pub open spec fn places(vertices: Seq<(Num, Num, Num)>) -> Seq<Point> {
    vertices.map_values(|v: (Num, Num, Num)| Point(v.0, v.1))
}

/// The bulges of vertices with bulges.
pub open spec fn bulges_of(vertices: Seq<(Num, Num, Num)>) -> Seq<Num> {
    vertices.map_values(|v: (Num, Num, Num)| v.2)
}

/// Makes a polygon of vertices with bulges.
///
/// A last vertex that matches the first one is dropped, and so are vertices that match the
/// next one; then no two may be equal.
pub fn import_bulged_vertices<
    M: Fn(Elementary) -> Num,
    P: Fn(&SPolygon) -> Result<Circle, GeometryError>,
>(vertices: &[(Num, Num, Num)], tools: &Toolkit<M, P>) -> (r: Result<SPolygon, GeometryError>)
    requires
        tools.usable(),
    ensures
        is_imported(places(vertices@), bulges_of(vertices@), tools, r),
        r matches Ok(shape) ==> shape.valid(&tools.math),
{
    let mut points: Vec<Point> = Vec::new();
    let mut bulges: Vec<Num> = Vec::new();
    let mut i: usize = 0;
    while i < vertices.len()
        invariant
            i <= vertices@.len(),
            points@ == places(vertices@).take(i as int),
            bulges@ == bulges_of(vertices@).take(i as int),
        decreases vertices.len() - i,
    {
        let (x, y, bulge): (Num, Num, Num) = vertices[i];
        points.push(Point(x, y));
        bulges.push(bulge);
        i = i + 1;
        assert(points@ =~= places(vertices@).take(i as int));
        assert(bulges@ =~= bulges_of(vertices@).take(i as int));
    }
    assert(points@ =~= places(vertices@));
    assert(bulges@ =~= bulges_of(vertices@));
    if points.len() > 1 && points_match(points[0], points[points.len() - 1]) {
        points.pop();
        bulges.pop();
        assert(points@ =~= places(vertices@).drop_last());
        assert(bulges@ =~= bulges_of(vertices@).drop_last());
    }
    assert(points@ == opened(places(vertices@), places(vertices@)));
    assert(bulges@ == opened(places(vertices@), bulges_of(vertices@)));
    eliminate_degenerate_boundary_vertices(&mut points, &mut bulges);
    if contains_duplicates(&points) {
        return Err(GeometryError::NonConsecutiveDuplicates);
    }
    import_boundary_parts(points, bulges, tools)
}

} // verus!
