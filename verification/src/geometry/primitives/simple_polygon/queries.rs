//! What can be asked about a simple polygon.
use vstd::prelude::*;

use crate::error::GeometryError;
use crate::geometry::fail_fast::sp_surrogate::SPSurrogate;
use crate::geometry::geo_enums::GeoPosition;
use crate::geometry::primitives::arc::{Arc, PlineVertex};
use crate::geometry::primitives::boundary::{
    arc_segments, boundary_points_from_parts, bulge_epsilon, next_index,
};
use crate::geometry::primitives::boundary_segment::BoundarySegment;
use crate::geometry::primitives::centroid::calculate_boundary_centroid;
use crate::geometry::primitives::edge::Edge;
use crate::geometry::primitives::point::Point;
use crate::geometry::primitives::ray_casting::{horizontal_ray_from_point, Crossings};
use crate::geometry::primitives::simple_polygon::SPolygon;
use crate::geometry::primitives::tessellation::tessellate_segment;
use crate::math::{evaluates, Elementary};
use crate::num::Num;

verus! {

/// `r` is the first of the values that none precedes in the order of the numbers.
pub open spec fn is_least(values: Seq<Num>, r: Num) -> bool {
    exists|i: int|
        {
            &&& 0 <= i < values.len()
            &&& #[trigger] values[i] == r
            &&& forall|j: int|
                0 <= j < values.len() ==> r.sort_key() <= (#[trigger] values[j]).sort_key()
            &&& forall|j: int| 0 <= j < i ==> r.sort_key() < (#[trigger] values[j]).sort_key()
        }
}

/// The squared distances of a point from segments.
pub open spec fn sq_distances<M: Fn(Elementary) -> Num>(
    segments: Seq<BoundarySegment>,
    point: Point,
    math: &M,
) -> Seq<Num> {
    segments.map_values(|segment: BoundarySegment| segment.sq_distance_to(point, math))
}

/// The edges that stand for all the segments, in order.
pub open spec fn all_tessellated<M: Fn(Elementary) -> Num>(
    segments: Seq<BoundarySegment>,
    tolerance: Num,
    math: &M,
) -> Seq<Edge>
    decreases segments.len(),
{
    if segments.len() == 0 {
        Seq::empty()
    } else {
        all_tessellated(segments.drop_last(), tolerance, math)
            + crate::geometry::primitives::tessellation::tessellated(
            segments.last(),
            tolerance,
            math,
        )
    }
}

/// No arc among the segments is cut into a chord without length.
pub open spec fn can_be_tessellated<M: Fn(Elementary) -> Num>(
    segments: Seq<BoundarySegment>,
    tolerance: Num,
    math: &M,
) -> bool {
    forall|i: int|
        0 <= i < segments.len()
            ==> !crate::geometry::primitives::tessellation::has_degenerate_chord(
            #[trigger] segments[i],
            tolerance,
            math,
        )
}

impl SPolygon {
    pub fn vertex(&self, i: usize) -> (r: Point)
        requires
            i < self.vertices.len(),
        ensures
            r == self.vertices@[i as int],
    {
        self.vertices[i]
    }

    /// The chord from a vertex to the next one.
    pub fn edge(&self, i: usize) -> (r: Edge)
        requires
            i < self.vertices.len(),
        ensures
            r.start == self.vertices@[i as int],
            r.end == crate::geometry::primitives::boundary::successor(self.vertices@, i as int),
    {
        let j: usize = next_index(i, self.n_vertices());
        Edge { start: self.vertices[i], end: self.vertices[j] }
    }

    /// The boundary segment from a vertex to the next one.
    pub fn segment<M: Fn(Elementary) -> Num>(&self, i: usize, math: &M) -> (r: BoundarySegment)
        requires
            evaluates(math),
            i < self.vertices.len(),
            i < self.bulges.len(),
            crate::geometry::primitives::boundary::segment_at(
                self.vertices@,
                self.bulges@,
                i as int,
                math,
            ) is Ok,
        ensures
            crate::geometry::primitives::boundary::segment_at(
                self.vertices@,
                self.bulges@,
                i as int,
                math,
            ) == Ok::<_, GeometryError>(r),
    {
        let edge: Edge = self.edge(i);
        let bulge: Num = self.bulges[i];
        if bulge.abs().le(bulge_epsilon()) {
            BoundarySegment::Line(edge)
        } else {
            match Arc::try_from_bulge(edge.start, edge.end, bulge, math) {
                Ok(arc) => BoundarySegment::Arc(arc),
                Err(_) => BoundarySegment::Line(edge),
            }
        }
    }

    /// The chords between the vertices, in order.
    pub fn edge_iter(&self) -> (r: Vec<Edge>)
        ensures
            r@ == Seq::new(
                self.vertices@.len(),
                |i: int|
                    Edge {
                        start: self.vertices@[i],
                        end: crate::geometry::primitives::boundary::successor(self.vertices@, i),
                    },
            ),
    {
        let mut edges: Vec<Edge> = Vec::new();
        let mut i: usize = 0;
        while i < self.n_vertices()
            invariant
                i <= self.vertices.len(),
                edges.len() == i,
                forall|j: int|
                    0 <= j < i ==> (#[trigger] edges@[j]) == (Edge {
                        start: self.vertices@[j],
                        end: crate::geometry::primitives::boundary::successor(self.vertices@, j),
                    }),
            decreases self.vertices.len() - i,
        {
            edges.push(self.edge(i));
            i = i + 1;
        }
        edges
    }

    /// The boundary segments, in order.
    pub fn segment_iter<M: Fn(Elementary) -> Num>(&self, math: &M) -> (r: Vec<BoundarySegment>)
        requires
            evaluates(math),
            self.valid(math),
        ensures
            r@ == self@.segments(math),
    {
        let mut segments: Vec<BoundarySegment> = Vec::new();
        let mut i: usize = 0;
        while i < self.n_segments()
            invariant
                i <= self.bulges.len(),
                evaluates(math),
                self.valid(math),
                segments@ == self@.segments(math).take(i as int),
            decreases self.bulges.len() - i,
        {
            segments.push(self.segment(i, math));
            i = i + 1;
            assert(segments@ =~= self@.segments(math).take(i as int));
        }
        assert(segments@ =~= self@.segments(math));
        segments
    }

    /// Straight edges that stand for the boundary, in order.
    pub fn tessellated_edge_iter<M: Fn(Elementary) -> Num>(&self, tolerance: Num, math: &M) -> (r:
        Result<Vec<Edge>, GeometryError>)
        requires
            evaluates(math),
            self.valid(math),
        ensures
            match r {
                Ok(edges) => can_be_tessellated(self@.segments(math), tolerance, math) && edges@
                    == all_tessellated(self@.segments(math), tolerance, math),
                Err(e) => !can_be_tessellated(self@.segments(math), tolerance, math) && e
                    == GeometryError::DegenerateEdge,
            },
    {
        let segments: Vec<BoundarySegment> = self.segment_iter(math);
        let mut edges: Vec<Edge> = Vec::new();
        let mut i: usize = 0;
        assert(segments@.take(0) =~= Seq::<BoundarySegment>::empty());
        while i < segments.len()
            invariant
                i <= segments.len(),
                evaluates(math),
                segments@ == self@.segments(math),
                edges@ == all_tessellated(segments@.take(i as int), tolerance, math),
                forall|j: int|
                    0 <= j < i ==> !crate::geometry::primitives::tessellation::has_degenerate_chord(
                        #[trigger] segments@[j],
                        tolerance,
                        math,
                    ),
            decreases segments.len() - i,
        {
            assert(segments@.take(i + 1).drop_last() =~= segments@.take(i as int));
            match tessellate_segment(segments[i], tolerance, math) {
                Ok(chords) => {
                    let mut chords: Vec<Edge> = chords;
                    edges.append(&mut chords);
                },
                Err(e) => {
                    assert(crate::geometry::primitives::tessellation::has_degenerate_chord(
                        segments@[i as int],
                        tolerance,
                        math,
                    ));
                    return Err(e);
                },
            }
            i = i + 1;
        }
        assert(segments@.take(segments@.len() as int) =~= segments@);
        Ok(edges)
    }

    pub fn n_vertices(&self) -> (r: usize)
        ensures
            r == self.vertices@.len(),
    {
        self.vertices.len()
    }

    pub fn n_segments(&self) -> (r: usize)
        ensures
            r == self.bulges@.len(),
    {
        self.bulges.len()
    }

    pub open spec fn spec_has_arcs(&self) -> bool {
        exists|i: int|
            0 <= i < self.bulges@.len() && (#[trigger] self.bulges@[i]).abs().gt(bulge_epsilon())
    }

    /// Whether one of the boundary segments is not straight.
    #[verifier::when_used_as_spec(spec_has_arcs)]
    pub fn has_arcs(&self) -> (r: bool)
        ensures
            r == self.spec_has_arcs(),
    {
        let mut i: usize = 0;
        while i < self.bulges.len()
            invariant
                i <= self.bulges.len(),
                forall|j: int|
                    0 <= j < i ==> !(#[trigger] self.bulges@[j]).abs().gt(bulge_epsilon()),
            decreases self.bulges.len() - i,
        {
            if self.bulges[i].abs().gt(bulge_epsilon()) {
                assert(self.bulges@[i as int].abs().gt(bulge_epsilon()));
                return true;
            }
            i = i + 1;
        }
        false
    }

    /// The vertices, followed by the axis extrema of the arcs.
    pub fn boundary_points<M: Fn(Elementary) -> Num>(&self, math: &M) -> (r: Vec<Point>)
        requires
            evaluates(math),
            self.valid(math),
        ensures
            crate::geometry::primitives::boundary::extreme_boundary_points(
                self.vertices@,
                self.bulges@,
                math,
            ) == Ok::<_, GeometryError>(r@),
    {
        proof {
            crate::geometry::primitives::boundary::lemma_segments_have_arcs(
                self.vertices@,
                self.bulges@,
                math,
            );
        }
        match boundary_points_from_parts(&self.vertices, &self.bulges, math) {
            Ok(points) => points,
            Err(_) => Vec::new(),
        }
    }

    /// The surrogate that was generated.
    pub fn surrogate(&self) -> (r: &SPSurrogate)
        requires
            self.surrogate is Some,
        ensures
            self.surrogate == Some(*r),
    {
        self.surrogate.as_ref().unwrap()
    }

    /// The center of mass.
    pub fn centroid<M: Fn(Elementary) -> Num>(&self, math: &M) -> (r: Point)
        requires
            evaluates(math),
            self.valid(math),
        ensures
            r == crate::geometry::primitives::centroid::boundary_centroid(
                self.vertices@,
                crate::geometry::primitives::boundary::boundary_arcs(
                    self.vertices@,
                    self.bulges@,
                    math,
                )->Ok_0,
                self.area,
                math,
            ),
    {
        proof {
            crate::geometry::primitives::boundary::lemma_segments_have_arcs(
                self.vertices@,
                self.bulges@,
                math,
            );
        }
        let arcs: Vec<Arc> = match arc_segments(&self.vertices, &self.bulges, math) {
            Ok(arcs) => arcs,
            Err(_) => Vec::new(),
        };
        calculate_boundary_centroid(&self.vertices, &arcs, self.area, math)
    }

    /// The vertices as a polyline.
    pub fn to_cavalier_vertices(&self) -> (r: Vec<PlineVertex>)
        ensures
            r@.len() == (if self.vertices@.len() <= self.bulges@.len() {
                self.vertices@.len()
            } else {
                self.bulges@.len()
            }),
            forall|i: int|
                0 <= i < r@.len() ==> (#[trigger] r@[i]) == (PlineVertex {
                    x: self.vertices@[i].0,
                    y: self.vertices@[i].1,
                    bulge: self.bulges@[i],
                }),
    {
        let mut polyline: Vec<PlineVertex> = Vec::new();
        let mut i: usize = 0;
        while i < self.vertices.len() && i < self.bulges.len()
            invariant
                i <= self.vertices.len(),
                i <= self.bulges.len(),
                polyline.len() == i,
                forall|j: int|
                    0 <= j < i ==> (#[trigger] polyline@[j]) == (PlineVertex {
                        x: self.vertices@[j].0,
                        y: self.vertices@[j].1,
                        bulge: self.bulges@[j],
                    }),
            decreases self.vertices.len() - i,
        {
            let Point(x, y) = self.vertices[i];
            polyline.push(PlineVertex { x, y, bulge: self.bulges[i] });
            i = i + 1;
        }
        polyline
    }

    pub open spec fn spec_collides_with<M: Fn(Elementary) -> Num>(
        &self,
        point: Point,
        math: &M,
    ) -> bool {
        let segments = self@.segments(math);
        let ray = horizontal_ray_from_point(point, self.bbox);
        &&& self.bbox.collides_with_point(point)
        &&& {
            ||| exists|i: int|
                0 <= i < segments.len() && (#[trigger] segments[i]).collides_with_point(point, math)
            ||| crate::geometry::primitives::ray_casting::crossings(
                point,
                ray,
                segments,
                math,
            ).count() % 2 == 1
        }
    }

    /// Whether a point lies within the polygon or on its boundary.
    ///
    /// A point within the bounding box and off the boundary lies inside if the
    /// horizontal ray that leaves it crosses the boundary an odd number of times.
    #[verifier::when_used_as_spec(spec_collides_with)]
    pub fn collides_with<M: Fn(Elementary) -> Num>(&self, point: Point, math: &M) -> (r: bool)
        requires
            evaluates(math),
            self.valid(math),
        ensures
            r == self.spec_collides_with(point, math),
    {
        if !self.bbox.collides_with_point(point) {
            return false;
        }
        let ray: Edge = horizontal_ray_from_point(point, self.bbox);
        let segments: Vec<BoundarySegment> = self.segment_iter(math);
        let mut intersections: Crossings = Crossings::none();
        let mut i: usize = 0;
        assert(segments@.take(0) =~= Seq::<BoundarySegment>::empty());
        while i < segments.len()
            invariant
                i <= segments.len(),
                evaluates(math),
                segments@ == self@.segments(math),
                self.bbox.collides_with_point(point),
                intersections@ == crate::geometry::primitives::ray_casting::crossings(
                    point,
                    ray,
                    segments@.take(i as int),
                    math,
                ),
                forall|j: int|
                    0 <= j < i ==> !(#[trigger] segments@[j]).collides_with_point(point, math),
            decreases segments.len() - i,
        {
            assert(segments@.take(i + 1).drop_last() =~= segments@.take(i as int));
            if segments[i].collides_with_point(point, math) {
                assert(segments@[i as int].collides_with_point(point, math));
                return true;
            }
            intersections.push_crossings(point, ray, &segments[i], math);
            i = i + 1;
        }
        assert(segments@.take(segments@.len() as int) =~= segments@);
        intersections.is_odd()
    }

    /// The least of the squared distances of a point from the boundary segments.
    pub fn sq_distance_to_boundary<M: Fn(Elementary) -> Num>(&self, point: Point, math: &M) -> (r:
        Num)
        requires
            evaluates(math),
            self.valid(math),
        ensures
            is_least(sq_distances(self@.segments(math), point, math), r),
    {
        let segments: Vec<BoundarySegment> = self.segment_iter(math);
        let ghost values = sq_distances(segments@, point, math);
        let mut best: Num = segments[0].sq_distance_to(point, math);
        let mut best_key: i64 = best.to_sort_key();
        let ghost mut at: int = 0;
        let mut i: usize = 1;
        while i < segments.len()
            invariant
                1 <= i <= segments.len(),
                evaluates(math),
                values == sq_distances(segments@, point, math),
                0 <= at < i,
                values[at] == best,
                best_key == best.sort_key(),
                forall|j: int| 0 <= j < i ==> best.sort_key() <= (#[trigger] values[j]).sort_key(),
                forall|j: int| 0 <= j < at ==> best.sort_key() < (#[trigger] values[j]).sort_key(),
            decreases segments.len() - i,
        {
            let d: Num = segments[i].sq_distance_to(point, math);
            assert(values[i as int] == d);
            let key: i64 = d.to_sort_key();
            if key < best_key {
                best = d;
                best_key = key;
                proof {
                    at = i as int;
                }
            }
            i = i + 1;
        }
        assert(values[at] == best);
        best
    }

    /// The squared distance to a point; none if the point is within the polygon.
    ///
    /// Every segment of the boundary needs a distance to the point.
    pub fn sq_distance_to<M: Fn(Elementary) -> Num>(&self, point: Point, math: &M) -> (r: Num)
        requires
            evaluates(math),
            self.valid(math),
            !self.collides_with(point, math) ==> forall|i: int|
                0 <= i < self@.segments(math).len() ==> !(#[trigger] self@.segments(
                    math,
                )[i]).sq_distance_to(point, math).is_nan(),
        ensures
            if self.collides_with(point, math) {
                r == Num::zero()
            } else {
                is_least(sq_distances(self@.segments(math), point, math), r)
            },
    {
        if self.collides_with(point, math) {
            Num::zero()
        } else {
            self.sq_distance_to_boundary(point, math)
        }
    }

    /// The distance to a point; none if the point is within the polygon.
    pub fn distance_to<M: Fn(Elementary) -> Num>(&self, point: Point, math: &M) -> (r: Num)
        requires
            evaluates(math),
            self.valid(math),
            !self.collides_with(point, math) ==> forall|i: int|
                0 <= i < self@.segments(math).len() ==> !(#[trigger] self@.segments(
                    math,
                )[i]).sq_distance_to(point, math).is_nan(),
        ensures
            if self.collides_with(point, math) {
                r == Num::zero().sqrt()
            } else {
                exists|sq: Num| #[trigger]
                    is_least(sq_distances(self@.segments(math), point, math), sq) && r == sq.sqrt()
            },
    {
        self.sq_distance_to(point, math).sqrt()
    }

    /// On which side of the boundary a point lies, and its squared distance from the boundary.
    pub fn sq_separation_distance<M: Fn(Elementary) -> Num>(&self, point: Point, math: &M) -> (r: (
        GeoPosition,
        Num,
    ))
        requires
            evaluates(math),
            self.valid(math),
        ensures
            r.0 == (if self.collides_with(point, math) {
                GeoPosition::Interior
            } else {
                GeoPosition::Exterior
            }),
            is_least(sq_distances(self@.segments(math), point, math), r.1),
    {
        let sq_distance: Num = self.sq_distance_to_boundary(point, math);
        if self.collides_with(point, math) {
            (GeoPosition::Interior, sq_distance)
        } else {
            (GeoPosition::Exterior, sq_distance)
        }
    }

    /// On which side of the boundary a point lies, and its distance from the boundary.
    pub fn separation_distance<M: Fn(Elementary) -> Num>(&self, point: Point, math: &M) -> (r: (
        GeoPosition,
        Num,
    ))
        requires
            evaluates(math),
            self.valid(math),
        ensures
            r.0 == (if self.collides_with(point, math) {
                GeoPosition::Interior
            } else {
                GeoPosition::Exterior
            }),
            exists|sq: Num| #[trigger]
                is_least(sq_distances(self@.segments(math), point, math), sq) && r.1 == sq.sqrt(),
    {
        let (position, sq_distance): (GeoPosition, Num) = self.sq_separation_distance(point, math);
        (position, sq_distance.sqrt())
    }
}

} // verus!
