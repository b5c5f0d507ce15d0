//! Closed boundaries: vertices, and one bulge for the segment that leaves each of them.
use vstd::prelude::*;

use crate::error::GeometryError;
use crate::geometry::primitives::arc::Arc;
use crate::geometry::primitives::boundary_segment::BoundarySegment;
use crate::geometry::primitives::edge::Edge;
use crate::geometry::primitives::point::Point;
use crate::geometry::primitives::rect::Rect;
use crate::math::{evaluate, evaluates, Elementary};
use crate::num::Num;

verus! {

/// A bulge of at most this size counts as straight.
#[verifier::allow_in_spec]
pub fn bulge_epsilon() -> Num
    returns
        Num::e_minus_6(),
{
    Num::e_minus_6()
}

/// An area of at most this size counts as none.
#[verifier::allow_in_spec]
pub fn area_epsilon() -> Num
    returns
        Num::e_minus_6(),
{
    Num::e_minus_6()
}

/// Points at most this far apart count as one.
#[verifier::allow_in_spec]
pub fn point_epsilon() -> Num
    returns
        Num::e_minus_5(),
{
    Num::e_minus_5()
}

/// The place that follows `i` in a cycle.
#[verifier::allow_in_spec]
pub fn next_index(i: usize, len: usize) -> usize
    requires
        i < len,
    returns
        (if i == len - 1 {
            0
        } else {
            (i + 1) as usize
        }),
{
    if i == len - 1 {
        0
    } else {
        i + 1
    }
}

/// The vertex that follows vertex `i` on a closed boundary.
pub open spec fn successor(points: Seq<Point>, i: int) -> Point {
    if i == points.len() - 1 {
        points[0]
    } else {
        points[i + 1]
    }
}

/// Twice the signed area swept by the first `n` chords of a boundary.
pub open spec fn shoelace(points: Seq<Point>, n: nat) -> Num
    decreases n,
{
    if n == 0 {
        Num::zero()
    } else {
        let i = n - 1;
        let Point(x_i, y_i) = points[i];
        let Point(x_j, y_j) = successor(points, i);
        shoelace(points, i as nat).add(y_i.add(y_j).mul(x_i.sub(x_j)))
    }
}

/// The signed area within the chords of a boundary; counterclockwise boundaries count positive.
pub open spec fn chord_area(points: Seq<Point>) -> Num {
    Num::half().mul(shoelace(points, points.len()))
}

pub fn calculate_chord_area(points: &[Point]) -> (r: Num)
    ensures
        r == chord_area(points@),
{
    let mut sigma: Num = Num::zero();
    let mut i: usize = 0;
    while i < points.len()
        invariant
            i <= points.len(),
            sigma == shoelace(points@, i as nat),
        decreases points.len() - i,
    {
        let j: usize = next_index(i, points.len());
        let Point(x_i, y_i) = points[i];
        let Point(x_j, y_j) = points[j];
        sigma = sigma.add(y_i.add(y_j).mul(x_i.sub(x_j)));
        i = i + 1;
    }
    Num::half().mul(sigma)
}

/// The arcs among the first `n` segments of a boundary, or what is wrong with the first bad one.
pub open spec fn arcs_among<M: Fn(Elementary) -> Num>(
    points: Seq<Point>,
    bulges: Seq<Num>,
    n: nat,
    math: &M,
) -> Result<Seq<Arc>, GeometryError>
    decreases n,
{
    if n == 0 {
        Ok(Seq::empty())
    } else {
        let i = n - 1;
        match arcs_among(points, bulges, i as nat, math) {
            Err(e) => Err(e),
            Ok(arcs) => if bulges[i].abs().gt(bulge_epsilon()) {
                match Arc::try_from_bulge(points[i], successor(points, i), bulges[i], math) {
                    Err(e) => Err(e),
                    Ok(arc) => Ok(arcs.push(arc)),
                }
            } else {
                Ok(arcs)
            },
        }
    }
}

/// The arcs of a boundary.
pub open spec fn boundary_arcs<M: Fn(Elementary) -> Num>(
    points: Seq<Point>,
    bulges: Seq<Num>,
    math: &M,
) -> Result<Seq<Arc>, GeometryError> {
    if points.len() != bulges.len() {
        Err(GeometryError::BulgeCountMismatch)
    } else {
        arcs_among(points, bulges, points.len(), math)
    }
}

pub fn arc_segments<M: Fn(Elementary) -> Num>(points: &[Point], bulges: &[Num], math: &M) -> (r: Result<
    Vec<Arc>,
    GeometryError,
>)
    requires
        evaluates(math),
    ensures
        match r {
            Ok(arcs) => boundary_arcs(points@, bulges@, math) == Ok::<_, GeometryError>(arcs@),
            Err(e) => boundary_arcs(points@, bulges@, math) == Err::<Seq<Arc>, _>(e),
        },
{
    if points.len() != bulges.len() {
        return Err(GeometryError::BulgeCountMismatch);
    }
    let mut arcs: Vec<Arc> = Vec::new();
    let mut i: usize = 0;
    while i < points.len()
        invariant
            i <= points.len(),
            points@.len() == bulges@.len(),
            evaluates(math),
            arcs_among(points@, bulges@, i as nat, math) == Ok::<_, GeometryError>(arcs@),
        decreases points.len() - i,
    {
        if bulges[i].abs().gt(bulge_epsilon()) {
            let j: usize = next_index(i, points.len());
            match Arc::try_from_bulge(points[i], points[j], bulges[i], math) {
                Ok(arc) => arcs.push(arc),
                Err(e) => {
                    proof {
                        lemma_arc_failure_is_final(
                            points@,
                            bulges@,
                            (i + 1) as nat,
                            points@.len(),
                            math,
                        );
                    }
                    return Err(e);
                },
            }
        }
        i = i + 1;
    }
    Ok(arcs)
}

proof fn lemma_arc_failure_is_final<M: Fn(Elementary) -> Num>(
    points: Seq<Point>,
    bulges: Seq<Num>,
    n: nat,
    m: nat,
    math: &M,
)
    requires
        n <= m,
        arcs_among(points, bulges, n, math) is Err,
    ensures
        arcs_among(points, bulges, m, math) == arcs_among(points, bulges, n, math),
    decreases m,
{
    if n < m {
        lemma_arc_failure_is_final(points, bulges, n, (m - 1) as nat, math);
    }
}

/// The area between an arc and its chord, signed as the sweep.
pub open spec fn spec_segment_area<M: Fn(Elementary) -> Num>(arc: &Arc, math: &M) -> Num {
    Num::half().mul(arc.radius.mul(arc.radius)).mul(
        arc.sweep.sub(evaluate(math, Elementary::Sin(arc.sweep))),
    )
}

#[verifier::when_used_as_spec(spec_segment_area)]
pub fn segment_area<M: Fn(Elementary) -> Num>(arc: &Arc, math: &M) -> (r: Num)
    requires
        evaluates(math),
    ensures
        r == spec_segment_area(arc, math),
{
    Num::half().mul(arc.radius.mul(arc.radius)).mul(
        arc.sweep.sub(evaluate(math, Elementary::Sin(arc.sweep))),
    )
}

pub open spec fn segment_area_sum<M: Fn(Elementary) -> Num>(arcs: Seq<Arc>, math: &M) -> Num
    decreases arcs.len(),
{
    if arcs.len() == 0 {
        Num::zero()
    } else {
        segment_area_sum(arcs.drop_last(), math).add(segment_area(&arcs.last(), math))
    }
}

/// The signed area within a boundary.
pub open spec fn boundary_area<M: Fn(Elementary) -> Num>(
    points: Seq<Point>,
    bulges: Seq<Num>,
    math: &M,
) -> Result<Num, GeometryError> {
    match boundary_arcs(points, bulges, math) {
        Ok(arcs) => Ok(chord_area(points).add(segment_area_sum(arcs, math))),
        Err(e) => Err(e),
    }
}

pub fn area_within<M: Fn(Elementary) -> Num>(points: &[Point], bulges: &[Num], math: &M) -> (r:
    Result<Num, GeometryError>)
    requires
        evaluates(math),
    ensures
        r == boundary_area(points@, bulges@, math),
{
    let arcs: Vec<Arc> = match arc_segments(points, bulges, math) {
        Ok(arcs) => arcs,
        Err(e) => return Err(e),
    };
    let mut sum: Num = Num::zero();
    let mut i: usize = 0;
    assert(arcs@.take(0) =~= Seq::<Arc>::empty());
    while i < arcs.len()
        invariant
            i <= arcs.len(),
            evaluates(math),
            sum == segment_area_sum(arcs@.take(i as int), math),
        decreases arcs.len() - i,
    {
        assert(arcs@.take(i + 1).drop_last() =~= arcs@.take(i as int));
        sum = sum.add(segment_area(&arcs[i], math));
        i = i + 1;
    }
    assert(arcs@.take(arcs@.len() as int) =~= arcs@);
    Ok(calculate_chord_area(points).add(sum))
}

/// The axis extrema of all the arcs, in order.
pub open spec fn arc_extrema<M: Fn(Elementary) -> Num>(arcs: Seq<Arc>, math: &M) -> Seq<Point>
    decreases arcs.len(),
{
    if arcs.len() == 0 {
        Seq::empty()
    } else {
        arc_extrema(arcs.drop_last(), math) + arcs.last().extreme_points(math)
    }
}

/// The vertices of a boundary, followed by the axis extrema of its arcs.
pub open spec fn extreme_boundary_points<M: Fn(Elementary) -> Num>(
    points: Seq<Point>,
    bulges: Seq<Num>,
    math: &M,
) -> Result<Seq<Point>, GeometryError> {
    match boundary_arcs(points, bulges, math) {
        Ok(arcs) => Ok(points + arc_extrema(arcs, math)),
        Err(e) => Err(e),
    }
}

pub fn boundary_points_from_parts<M: Fn(Elementary) -> Num>(
    points: &[Point],
    bulges: &[Num],
    math: &M,
) -> (r: Result<Vec<Point>, GeometryError>)
    requires
        evaluates(math),
    ensures
        match r {
            Ok(found) => extreme_boundary_points(points@, bulges@, math) == Ok::<_, GeometryError>(
                found@,
            ),
            Err(e) => extreme_boundary_points(points@, bulges@, math) == Err::<Seq<Point>, _>(e),
        },
{
    let arcs: Vec<Arc> = match arc_segments(points, bulges, math) {
        Ok(arcs) => arcs,
        Err(e) => return Err(e),
    };
    let mut found: Vec<Point> = Vec::new();
    let mut i: usize = 0;
    while i < points.len()
        invariant
            i <= points.len(),
            found@ == points@.take(i as int),
        decreases points.len() - i,
    {
        found.push(points[i]);
        i = i + 1;
        assert(found@ =~= points@.take(i as int));
    }
    let mut k: usize = 0;
    assert(arcs@.take(0) =~= Seq::<Arc>::empty());
    assert(found@ =~= points@ + arc_extrema(arcs@.take(0), math));
    while k < arcs.len()
        invariant
            k <= arcs.len(),
            evaluates(math),
            found@ == points@ + arc_extrema(arcs@.take(k as int), math),
        decreases arcs.len() - k,
    {
        let mut extrema: Vec<Point> = arcs[k].cardinal_extrema(math);
        found.append(&mut extrema);
        assert(arcs@.take(k + 1).drop_last() =~= arcs@.take(k as int));
        k = k + 1;
        assert(found@ =~= points@ + arc_extrema(arcs@.take(k as int), math));
    }
    assert(arcs@.take(arcs@.len() as int) =~= arcs@);
    Ok(found)
}

/// The kind of a boundary segment and its course, or what is wrong with its arc.
pub open spec fn segment_at<M: Fn(Elementary) -> Num>(
    points: Seq<Point>,
    bulges: Seq<Num>,
    i: int,
    math: &M,
) -> Result<BoundarySegment, GeometryError> {
    if bulges[i].abs().le(bulge_epsilon()) {
        Ok(BoundarySegment::Line(Edge { start: points[i], end: successor(points, i) }))
    } else {
        match Arc::try_from_bulge(points[i], successor(points, i), bulges[i], math) {
            Ok(arc) => Ok(BoundarySegment::Arc(arc)),
            Err(e) => Err(e),
        }
    }
}

/// Every vertex has a bulge, every bulge is a number, and every bulge that is not straight makes an arc.
pub open spec fn boundary_defined<M: Fn(Elementary) -> Num>(
    points: Seq<Point>,
    bulges: Seq<Num>,
    math: &M,
) -> bool {
    &&& points.len() == bulges.len()
    &&& forall|i: int|
        0 <= i < points.len() ==> (#[trigger] segment_at(points, bulges, i, math)) is Ok
}

/// The segments of a boundary, in order.
pub open spec fn boundary_segments<M: Fn(Elementary) -> Num>(
    points: Seq<Point>,
    bulges: Seq<Num>,
    math: &M,
) -> Seq<BoundarySegment> {
    Seq::new(points.len(), |i: int| segment_at(points, bulges, i, math)->Ok_0)
}

/// A boundary whose bulges are numbers and whose arcs can be made has all its segments.
pub proof fn lemma_arcs_make_segments<M: Fn(Elementary) -> Num>(
    points: Seq<Point>,
    bulges: Seq<Num>,
    math: &M,
)
    requires
        boundary_arcs(points, bulges, math) is Ok,
        forall|i: int| 0 <= i < bulges.len() ==> !(#[trigger] bulges[i]).is_nan(),
    ensures
        boundary_defined(points, bulges, math),
{
    assert forall|i: int| 0 <= i < points.len() implies (#[trigger] segment_at(
        points,
        bulges,
        i,
        math,
    )) is Ok by {
        lemma_arcs_among_prefix(points, bulges, (i + 1) as nat, points.len(), math);
        assert(!bulges[i].is_nan());
    }
}

proof fn lemma_arcs_among_prefix<M: Fn(Elementary) -> Num>(
    points: Seq<Point>,
    bulges: Seq<Num>,
    n: nat,
    m: nat,
    math: &M,
)
    requires
        n <= m,
        arcs_among(points, bulges, m, math) is Ok,
    ensures
        arcs_among(points, bulges, n, math) is Ok,
    decreases m,
{
    if n < m {
        lemma_arcs_among_prefix(points, bulges, n, (m - 1) as nat, math);
    }
}

/// If all the arcs of a boundary can be made, so can each of them.
pub proof fn lemma_arcs_are_made<M: Fn(Elementary) -> Num>(
    points: Seq<Point>,
    bulges: Seq<Num>,
    i: int,
    math: &M,
)
    requires
        boundary_arcs(points, bulges, math) is Ok,
        0 <= i < points.len(),
        bulges[i].abs().gt(bulge_epsilon()),
    ensures
        Arc::try_from_bulge(points[i], successor(points, i), bulges[i], math) is Ok,
{
    lemma_arcs_among_prefix(points, bulges, (i + 1) as nat, points.len(), math);
}

/// The arcs of a boundary that has all its segments can be made.
pub proof fn lemma_segments_have_arcs<M: Fn(Elementary) -> Num>(
    points: Seq<Point>,
    bulges: Seq<Num>,
    math: &M,
)
    requires
        boundary_defined(points, bulges, math),
    ensures
        boundary_arcs(points, bulges, math) is Ok,
        forall|i: int| 0 <= i < bulges.len() ==> !(#[trigger] bulges[i]).is_nan(),
{
    lemma_defined_arcs_among(points, bulges, points.len(), math);
    assert forall|i: int| 0 <= i < bulges.len() implies !(#[trigger] bulges[i]).is_nan() by {
        assert(segment_at(points, bulges, i, math) is Ok);
    }
}

proof fn lemma_defined_arcs_among<M: Fn(Elementary) -> Num>(
    points: Seq<Point>,
    bulges: Seq<Num>,
    n: nat,
    math: &M,
)
    requires
        boundary_defined(points, bulges, math),
        n <= points.len(),
    ensures
        arcs_among(points, bulges, n, math) is Ok,
    decreases n,
{
    if n > 0 {
        lemma_defined_arcs_among(points, bulges, (n - 1) as nat, math);
        assert(segment_at(points, bulges, n - 1, math) is Ok);
    }
}

/// The course of a boundary in the opposite direction: the vertices in reverse
/// order, and for each the opposite of the bulge of the segment that led to it.
pub open spec fn reversed_bulges(bulges: Seq<Num>) -> Seq<Num> {
    Seq::new(
        bulges.len(),
        |i: int|
            if i == bulges.len() - 1 {
                bulges[i].neg()
            } else {
                bulges[bulges.len() - 2 - i].neg()
            },
    )
}

pub fn reverse_boundary(points: &mut Vec<Point>, bulges: &mut Vec<Num>)
    requires
        old(points).len() == old(bulges).len(),
    ensures
        final(points)@ == old(points)@.reverse(),
        final(bulges)@ == reversed_bulges(old(bulges)@),
{
    let n: usize = points.len();
    let mut reversed_points: Vec<Point> = Vec::new();
    let mut reversed: Vec<Num> = Vec::new();
    let mut i: usize = 0;
    while i < n
        invariant
            i <= n,
            n == points.len(),
            n == bulges.len(),
            reversed_points@ == points@.reverse().take(i as int),
            reversed@ == reversed_bulges(bulges@).take(i as int),
        decreases n - i,
    {
        reversed_points.push(points[n - 1 - i]);
        let j: usize = if i == n - 1 {
            i
        } else {
            n - 2 - i
        };
        reversed.push(bulges[j].neg());
        i = i + 1;
        assert(reversed_points@ =~= points@.reverse().take(i as int));
        assert(reversed@ =~= reversed_bulges(bulges@).take(i as int));
    }
    *points = reversed_points;
    *bulges = reversed;
    assert(points@ =~= old(points)@.reverse());
    assert(bulges@ =~= reversed_bulges(old(bulges)@));
}

/// Reversing a boundary twice gives the boundary back.
pub proof fn reversal_is_an_involution(points: Seq<Point>, bulges: Seq<Num>)
    ensures
        points.reverse().reverse() == points,
        reversed_bulges(reversed_bulges(bulges)) == bulges,
{
    assert(points.reverse().reverse() =~= points);
    assert(reversed_bulges(reversed_bulges(bulges)) =~= bulges);
}

/// The reversed boundary has the same chords, each in the opposite direction
/// and with the opposite bulge.
pub proof fn reversal_keeps_chords(points: Seq<Point>, bulges: Seq<Num>, i: int)
    requires
        points.len() == bulges.len(),
        0 <= i < points.len(),
    ensures
        ({
            let j = if i == points.len() - 1 {
                i
            } else {
                points.len() - 2 - i
            };
            &&& points.reverse()[i] == successor(points, j)
            &&& successor(points.reverse(), i) == points[j]
            &&& reversed_bulges(bulges)[i] == bulges[j].neg()
        }),
{
}

/// Two vertices of a boundary are equal.
pub open spec fn has_duplicates(points: Seq<Point>) -> bool {
    exists|i: int, j: int|
        0 <= i < j < points.len() && place_of(#[trigger] points[i]) == place_of(
            #[trigger] points[j],
        )
}

/// The places of the coordinates of a point in the order of the numbers.
pub open spec fn place_of(point: Point) -> (int, int) {
    (point.0.sort_key(), point.1.sort_key())
}

/// No two vertices of a reversed boundary are equal if none were before.
pub proof fn lemma_reversal_keeps_duplicates(points: Seq<Point>)
    requires
        !has_duplicates(points),
    ensures
        !has_duplicates(points.reverse()),
{
    let back = points.reverse();
    assert forall|i: int, j: int| 0 <= i < j < back.len() implies place_of(
        #[trigger] back[i],
    ) != place_of(#[trigger] back[j]) by {
        let n = points.len();
        assert(back[i] == points[n - 1 - i]);
        assert(back[j] == points[n - 1 - j]);
    }
}

pub fn contains_duplicates(points: &[Point]) -> (r: bool)
    ensures
        r == has_duplicates(points@),
{
    let mut keys: Vec<(i64, i64)> = Vec::new();
    let mut i: usize = 0;
    while i < points.len()
        invariant
            i <= points.len(),
            keys.len() == i,
            forall|j: int|
                0 <= j < i ==> (#[trigger] keys[j]).0 == points[j].0.sort_key() && keys[j].1
                    == points[j].1.sort_key(),
        decreases points.len() - i,
    {
        keys.push((points[i].0.to_sort_key(), points[i].1.to_sort_key()));
        i = i + 1;
    }
    let distinct: usize = crate::outside::count_unique(&keys);
    proof {
        assert(forall|j: int|
            0 <= j < points@.len() ==> place_of(#[trigger] points@[j]) == (
                keys@[j].0 as int,
                keys@[j].1 as int,
            ));
        if keys@.no_duplicates() {
            keys@.unique_seq_to_set();
            assert forall|a: int, b: int| 0 <= a < b < points@.len() implies place_of(
                #[trigger] points@[a],
            ) != place_of(#[trigger] points@[b]) by {
                assert(keys@[a] != keys@[b]);
            }
        } else {
            if keys@.to_set().len() == keys@.len() {
                keys@.lemma_no_dup_set_cardinality();
            }
            let (a, b) = choose|a: int, b: int|
                0 <= a < keys@.len() && 0 <= b < keys@.len() && a != b && keys@[a] == keys@[b];
            if a < b {
                assert(place_of(points@[a]) == place_of(points@[b]));
            } else {
                assert(place_of(points@[b]) == place_of(points@[a]));
            }
        }
    }
    distinct != points.len()
}

/// The box around points, if they have extent along both axes.
pub open spec fn enclosing_box(points: Seq<Point>) -> Result<Rect, GeometryError> {
    let b = Rect::finite_inside_out().including_all(points);
    Rect::try_new(b.x_min, b.y_min, b.x_max, b.y_max)
}

pub fn box_around(points: &[Point]) -> (r: Result<Rect, GeometryError>)
    ensures
        r == enclosing_box(points@),
{
    let b: Rect = Rect::finite_inside_out().extended_over(points);
    Rect::try_new(b.x_min, b.y_min, b.x_max, b.y_max)
}

/// The box around a boundary.
pub open spec fn boundary_box<M: Fn(Elementary) -> Num>(
    points: Seq<Point>,
    bulges: Seq<Num>,
    math: &M,
) -> Result<Rect, GeometryError> {
    match extreme_boundary_points(points, bulges, math) {
        Ok(extremes) => enclosing_box(extremes),
        Err(e) => Err(e),
    }
}

pub fn box_around_boundary<M: Fn(Elementary) -> Num>(
    points: &[Point],
    bulges: &[Num],
    math: &M,
) -> (r: Result<Rect, GeometryError>)
    requires
        evaluates(math),
    ensures
        r == boundary_box(points@, bulges@, math),
{
    match boundary_points_from_parts(points, bulges, math) {
        Ok(extremes) => box_around(&extremes),
        Err(e) => Err(e),
    }
}

/// There are two points, and every two of them have a distance.
pub open spec fn has_diameter(points: Seq<Point>) -> bool {
    &&& points.len() >= 2
    &&& forall|i: int, j: int|
        0 <= i < j < points.len() ==> !(#[trigger] points[i].sq_distance_to(points[j])).is_nan()
}

/// `d` is the distance of two of the points, and no two of them are farther apart.
pub open spec fn is_diameter(points: Seq<Point>, d: Num) -> bool {
    exists|a: int, b: int|
        {
            &&& 0 <= a < b < points.len()
            &&& d == (#[trigger] points[a].sq_distance_to(points[b])).sqrt()
            &&& forall|i: int, j: int|
                0 <= i < j < points.len() ==> (#[trigger] points[i].sq_distance_to(points[j])).le(
                    points[a].sq_distance_to(points[b]),
                )
        }
}

/// The greatest distance between two of the points.
#[verifier::loop_isolation(false)]
pub fn greatest_distance(points: &[Point]) -> (r: Option<Num>)
    ensures
        r is Some <==> has_diameter(points@),
        r matches Some(d) ==> is_diameter(points@, d),
{
    if points.len() < 2 {
        return None;
    }
    let mut best: Num = points[0].sq_distance_to(points[1]);
    let ghost mut a: int = 0;
    let ghost mut b: int = 1;
    let mut i: usize = 0;
    while i < points.len()
        invariant
            i <= points.len(),
            0 <= a < b < points.len(),
            best == points@[a].sq_distance_to(points@[b]),
            i > 0 ==> !best.is_nan(),
            i == 0 ==> a == 0 && b == 1,
            forall|k: int, l: int|
                0 <= k < l < points.len() && k < i ==> (#[trigger] points@[k].sq_distance_to(
                    points@[l],
                )).le(best),
        decreases points.len() - i,
    {
        let mut j: usize = i + 1;
        while j < points.len()
            invariant
                i < j <= points.len(),
                0 <= a < b < points.len(),
                best == points@[a].sq_distance_to(points@[b]),
                i > 0 || j > 1 ==> !best.is_nan(),
                i == 0 && j == 1 ==> a == 0 && b == 1,
                forall|k: int, l: int|
                    0 <= k < l < points.len() && (k < i || (k == i && l < j)) ==> (
                    #[trigger] points@[k].sq_distance_to(points@[l])).le(best),
            decreases points.len() - j,
        {
            let d: Num = points[i].sq_distance_to(points[j]);
            if d.is_nan() {
                assert(points@[i as int].sq_distance_to(points@[j as int]).is_nan());
                return None;
            }
            if d.ge(best) {
                best = d;
                proof {
                    a = i as int;
                    b = j as int;
                }
            }
            j = j + 1;
        }
        i = i + 1;
    }
    assert forall|k: int, l: int| 0 <= k < l < points.len() implies !(
    #[trigger] points@[k].sq_distance_to(points@[l])).is_nan() by {
        assert(points@[k].sq_distance_to(points@[l]).le(best));
    }
    Some(best.sqrt())
}

} // verus!
