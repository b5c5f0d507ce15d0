use vstd::prelude::*;

use crate::error::GeometryError;
use crate::geometry::fail_fast::sp_surrogate::SPSurrogate;
use crate::geometry::primitives::boundary::{
    area_epsilon, area_within, boundary_points_from_parts, box_around, box_around_boundary,
    calculate_chord_area, contains_duplicates, greatest_distance, reverse_boundary,
};
use crate::geometry::primitives::boundary_segment::BoundarySegment;
use crate::geometry::primitives::circle::Circle;
use crate::geometry::primitives::point::Point;
use crate::geometry::primitives::rect::Rect;
use crate::math::{evaluates, Elementary};
use crate::num::Num;

pub mod motion;
pub mod queries;

verus! {

/// A simple polygon: a closed shape that does not intersect itself and contains no holes.
///
/// Its boundary consists of straight lines and circular arcs.
#[derive(Clone, Debug)]
pub struct SPolygon {
    /// Set of points that form the polygon.
    pub vertices: Vec<Point>,
    /// Bulge values for each boundary segment. `bulges[i]` describes the segment from
    /// `vertices[i]` to the next vertex.
    pub bulges: Vec<Num>,
    /// Bounding box.
    pub bbox: Rect,
    /// Area of its interior.
    pub area: Num,
    /// Maximum distance between any two points in the polygon.
    pub diameter: Num,
    /// Pole of inaccessibility represented as a circle.
    pub poi: Circle,
    /// Optional surrogate representation of the polygon.
    pub surrogate: Option<SPSurrogate>,
}

/// The content of a simple polygon.
pub struct PolygonModel {
    pub vertices: Seq<Point>,
    pub bulges: Seq<Num>,
    pub bbox: Rect,
    pub area: Num,
    pub diameter: Num,
    pub poi: Circle,
    pub surrogate: Option<crate::geometry::fail_fast::sp_surrogate::SurrogateModel>,
}

impl View for SPolygon {
    type V = PolygonModel;

    open spec fn view(&self) -> PolygonModel {
        PolygonModel {
            vertices: self.vertices@,
            bulges: self.bulges@,
            bbox: self.bbox,
            area: self.area,
            diameter: self.diameter,
            poi: self.poi,
            surrogate: match self.surrogate {
                Some(surrogate) => Some(surrogate@),
                None => None,
            },
        }
    }
}

/// What the construction of a polygon needs from its caller.
pub struct Toolkit<M, P> {
    /// Evaluates elementary functions.
    pub math: M,
    /// Finds the pole of inaccessibility of a polygon.
    pub pole: P,
}

impl<M: Fn(Elementary) -> Num, P: Fn(&SPolygon) -> Result<Circle, GeometryError>> Toolkit<M, P> {
    /// Elementary functions can be evaluated, and a pole can be asked for on any polygon.
    pub open spec fn usable(&self) -> bool {
        &&& evaluates(&self.math)
        &&& forall|shape: &SPolygon| #[trigger] call_requires(self.pole, (shape,))
    }

    /// `answer` is a possible answer when the pole of a polygon with this content is asked for.
    pub open spec fn answers(
        &self,
        content: PolygonModel,
        answer: Result<Circle, GeometryError>,
    ) -> bool {
        exists|shape: SPolygon| #[trigger]
            call_ensures(self.pole, (&shape,), answer) && shape@ == content
    }
}

/// The result of a construction, with the content of the polygon in its place.
pub open spec fn modelled(r: Result<SPolygon, GeometryError>) -> Result<
    PolygonModel,
    GeometryError,
> {
    match r {
        Ok(shape) => Ok(shape@),
        Err(e) => Err(e),
    }
}

/// The given boundary in counterclockwise direction and the area within it, or
/// what is wrong with it.
pub open spec fn normalized_boundary<M: Fn(Elementary) -> Num>(
    points: Seq<Point>,
    bulges: Seq<Num>,
    math: &M,
) -> Result<(Seq<Point>, Seq<Num>, Num), GeometryError> {
    if points.len() < 3 {
        Err(GeometryError::TooFewPoints)
    } else if bulges.len() != points.len() {
        Err(GeometryError::BulgeCountMismatch)
    } else if exists|i: int| 0 <= i < bulges.len() && !(#[trigger] bulges[i]).is_finite() {
        Err(GeometryError::InvalidBulge)
    } else if crate::geometry::primitives::boundary::has_duplicates(points) {
        Err(GeometryError::DuplicatePoints)
    } else {
        match crate::geometry::primitives::boundary::boundary_area(points, bulges, math) {
            Err(e) => Err(e),
            Ok(area) => if area.abs().le(area_epsilon()) {
                Err(GeometryError::NoArea)
            } else if area.lt(Num::zero()) {
                Ok(
                    (
                        points.reverse(),
                        crate::geometry::primitives::boundary::reversed_bulges(bulges),
                        area.neg(),
                    ),
                )
            } else {
                Ok((points, bulges, area))
            },
        }
    }
}

/// The circle that stands for a pole that is not known yet.
#[verifier::allow_in_spec]
pub fn unknown_pole() -> Circle
    returns
        (Circle {
            center: Point(Num::max_value(), Num::max_value()),
            radius: Num::max_value(),
        }),
{
    Circle { center: Point(Num::max_value(), Num::max_value()), radius: Num::max_value() }
}

/// `answer` is a possible outcome of a search for the pole within a boundary.
pub open spec fn is_pole<
    M: Fn(Elementary) -> Num,
    P: Fn(&SPolygon) -> Result<Circle, GeometryError>,
>(
    points: Seq<Point>,
    bulges: Seq<Num>,
    diameter: Num,
    tools: &Toolkit<M, P>,
    answer: Result<Circle, GeometryError>,
) -> bool {
    match crate::geometry::primitives::boundary::boundary_box(points, bulges, &tools.math) {
        Err(e) => answer == Err::<Circle, _>(e),
        Ok(bbox) => {
            let area = crate::geometry::primitives::boundary::boundary_area(
                points,
                bulges,
                &tools.math,
            )->Ok_0;
            tools.answers(
                PolygonModel {
                    vertices: points,
                    bulges,
                    bbox,
                    area,
                    diameter,
                    poi: unknown_pole(),
                    surrogate: None,
                },
                answer,
            )
        },
    }
}

/// `r` is a possible outcome when a polygon is made of the given vertices and bulges.
pub open spec fn is_built<
    M: Fn(Elementary) -> Num,
    P: Fn(&SPolygon) -> Result<Circle, GeometryError>,
>(
    points: Seq<Point>,
    bulges: Seq<Num>,
    tools: &Toolkit<M, P>,
    r: Result<PolygonModel, GeometryError>,
) -> bool {
    match normalized_boundary(points, bulges, &tools.math) {
        Err(e) => r == Err::<PolygonModel, _>(e),
        Ok((vertices, bulges, area)) => match crate::geometry::primitives::boundary::extreme_boundary_points(
            vertices,
            bulges,
            &tools.math,
        ) {
            Err(e) => r == Err::<PolygonModel, _>(e),
            Ok(extremes) => if !crate::geometry::primitives::boundary::has_diameter(extremes) {
                r == Err::<PolygonModel, _>(GeometryError::NoDiameter)
            } else {
                match crate::geometry::primitives::boundary::enclosing_box(extremes) {
                    Err(e) => r == Err::<PolygonModel, _>(e),
                    Ok(bbox) => match r {
                        Err(e) => exists|diameter: Num| #[trigger]
                            crate::geometry::primitives::boundary::is_diameter(extremes, diameter)
                                && is_pole(vertices, bulges, diameter, tools, Err(e)),
                        Ok(shape) => {
                            &&& shape.vertices == vertices
                            &&& shape.bulges == bulges
                            &&& shape.bbox == bbox
                            &&& shape.area == area
                            &&& crate::geometry::primitives::boundary::is_diameter(
                                extremes,
                                shape.diameter,
                            )
                            &&& is_pole(vertices, bulges, shape.diameter, tools, Ok(shape.poi))
                            &&& shape.surrogate is None
                        },
                    },
                }
            },
        },
    }
}

impl PolygonModel {
    /// There are at least three vertices, and every segment of the boundary is defined.
    pub open spec fn valid<M: Fn(Elementary) -> Num>(self, math: &M) -> bool {
        &&& self.vertices.len() >= 3
        &&& crate::geometry::primitives::boundary::boundary_defined(
            self.vertices,
            self.bulges,
            math,
        )
    }

    /// The segments of the boundary, in order.
    pub open spec fn segments<M: Fn(Elementary) -> Num>(self, math: &M) -> Seq<BoundarySegment> {
        crate::geometry::primitives::boundary::boundary_segments(self.vertices, self.bulges, math)
    }
}

/// A polygon that was built is valid.
pub proof fn built_polygons_are_valid<
    M: Fn(Elementary) -> Num,
    P: Fn(&SPolygon) -> Result<Circle, GeometryError>,
>(points: Seq<Point>, bulges: Seq<Num>, tools: &Toolkit<M, P>, shape: PolygonModel)
    requires
        is_built(points, bulges, tools, Ok(shape)),
    ensures
        shape.valid(&tools.math),
{
    assert forall|i: int| 0 <= i < shape.bulges.len() implies !(
    #[trigger] shape.bulges[i]).is_nan() by {
        let n = bulges.len();
        if i == n - 1 {
            assert(bulges[i].is_finite());
        } else {
            assert(bulges[i].is_finite());
            assert(bulges[n - 2 - i].is_finite());
        }
    }
    crate::geometry::primitives::boundary::lemma_arcs_make_segments(
        shape.vertices,
        shape.bulges,
        &tools.math,
    );
}

impl SPolygon {
    /// Whether the boundary is complete.
    pub open spec fn valid<M: Fn(Elementary) -> Num>(&self, math: &M) -> bool {
        self@.valid(math)
    }

    /// A polygon with straight sides between the given points.
    pub fn new<M: Fn(Elementary) -> Num, P: Fn(&SPolygon) -> Result<Circle, GeometryError>>(
        points: Vec<Point>,
        tools: &Toolkit<M, P>,
    ) -> (r: Result<SPolygon, GeometryError>)
        requires
            tools.usable(),
        ensures
            is_built(points@, straight_bulges(points@.len()), tools, modelled(r)),
            r matches Ok(shape) ==> shape.valid(&tools.math),
    {
        let bulges: Vec<Num> = no_bulges(points.len());
        SPolygon::new_with_bulges(points, bulges, tools)
    }

    /// A polygon of vertices and one bulge value per outgoing boundary segment.
    pub fn new_with_bulges<
        M: Fn(Elementary) -> Num,
        P: Fn(&SPolygon) -> Result<Circle, GeometryError>,
    >(points: Vec<Point>, bulges: Vec<Num>, tools: &Toolkit<M, P>) -> (r: Result<
        SPolygon,
        GeometryError,
    >)
        requires
            tools.usable(),
        ensures
            is_built(points@, bulges@, tools, modelled(r)),
            r matches Ok(shape) ==> shape.valid(&tools.math),
    {
        let mut points: Vec<Point> = points;
        let mut bulges: Vec<Num> = bulges;
        if points.len() < 3 {
            return Err(GeometryError::TooFewPoints);
        }
        if bulges.len() != points.len() {
            return Err(GeometryError::BulgeCountMismatch);
        }
        if !all_finite(&bulges) {
            return Err(GeometryError::InvalidBulge);
        }
        if contains_duplicates(&points) {
            return Err(GeometryError::DuplicatePoints);
        }
        let ghost given = (points@, bulges@);
        let mut area: Num = match SPolygon::calculate_boundary_area(&points, &bulges, &tools.math) {
            Ok(area) => area,
            Err(e) => return Err(e),
        };
        if area.abs().le(area_epsilon()) {
            return Err(GeometryError::NoArea);
        }
        if area.lt(Num::zero()) {
            reverse_boundary(&mut points, &mut bulges);
            area = area.neg();
        }
        assert(normalized_boundary(given.0, given.1, &tools.math) == Ok::<_, GeometryError>(
            (points@, bulges@, area),
        ));
        let diameter: Num = match SPolygon::calculate_boundary_diameter(
            &points,
            &bulges,
            &tools.math,
        ) {
            Ok(diameter) => diameter,
            Err(e) => return Err(e),
        };
        let bbox: Rect = match SPolygon::generate_boundary_bounding_box(
            &points,
            &bulges,
            &tools.math,
        ) {
            Ok(bbox) => bbox,
            Err(e) => return Err(e),
        };
        let poi: Circle = match SPolygon::calculate_poi_with_bulges(
            &points,
            &bulges,
            diameter,
            tools,
        ) {
            Ok(poi) => poi,
            Err(e) => return Err(e),
        };
        let shape: SPolygon = SPolygon {
            vertices: points,
            bulges,
            bbox,
            area,
            diameter,
            poi,
            surrogate: None,
        };
        proof {
            built_polygons_are_valid(given.0, given.1, tools, shape@);
        }
        Ok(shape)
    }

    /// The greatest distance between two of the points.
    pub fn calculate_diameter(points: Vec<Point>) -> (r: Num)
        requires
            crate::geometry::primitives::boundary::has_diameter(points@),
        ensures
            crate::geometry::primitives::boundary::is_diameter(points@, r),
    {
        match greatest_distance(&points) {
            Some(d) => d,
            None => Num::zero(),
        }
    }

    /// The greatest distance between two vertices or arc extrema of a boundary.
    pub fn calculate_boundary_diameter<M: Fn(Elementary) -> Num>(
        points: &[Point],
        bulges: &[Num],
        math: &M,
    ) -> (r: Result<Num, GeometryError>)
        requires
            evaluates(math),
        ensures
            match crate::geometry::primitives::boundary::extreme_boundary_points(
                points@,
                bulges@,
                math,
            ) {
                Err(e) => r == Err::<Num, _>(e),
                Ok(extremes) => if crate::geometry::primitives::boundary::has_diameter(extremes) {
                    r matches Ok(d) && crate::geometry::primitives::boundary::is_diameter(
                        extremes,
                        d,
                    )
                } else {
                    r == Err::<Num, _>(GeometryError::NoDiameter)
                },
            },
    {
        match boundary_points_from_parts(points, bulges, math) {
            Err(e) => Err(e),
            Ok(extremes) => match greatest_distance(&extremes) {
                Some(d) => Ok(d),
                None => Err(GeometryError::NoDiameter),
            },
        }
    }

    /// The box around points that have extent along both axes.
    pub fn generate_bounding_box(points: &[Point]) -> (r: Rect)
        requires
            crate::geometry::primitives::boundary::enclosing_box(points@) is Ok,
        ensures
            crate::geometry::primitives::boundary::enclosing_box(points@) == Ok::<_, GeometryError>(
                r,
            ),
    {
        match box_around(points) {
            Ok(bbox) => bbox,
            Err(_) => Rect::finite_inside_out(),
        }
    }

    /// The box around a boundary, arcs included.
    pub fn generate_boundary_bounding_box<M: Fn(Elementary) -> Num>(
        points: &[Point],
        bulges: &[Num],
        math: &M,
    ) -> (r: Result<Rect, GeometryError>)
        requires
            evaluates(math),
        ensures
            r == crate::geometry::primitives::boundary::boundary_box(points@, bulges@, math),
    {
        box_around_boundary(points, bulges, math)
    }

    /// The signed area within the chords; counterclockwise boundaries count positive.
    pub fn calculate_area(points: &[Point]) -> (r: Num)
        ensures
            r == crate::geometry::primitives::boundary::chord_area(points@),
    {
        calculate_chord_area(points)
    }

    /// The signed area within a boundary, arcs included.
    pub fn calculate_boundary_area<M: Fn(Elementary) -> Num>(
        points: &[Point],
        bulges: &[Num],
        math: &M,
    ) -> (r: Result<Num, GeometryError>)
        requires
            evaluates(math),
        ensures
            r == crate::geometry::primitives::boundary::boundary_area(points@, bulges@, math),
    {
        area_within(points, bulges, math)
    }

    /// The pole of inaccessibility within straight sides.
    pub fn calculate_poi<
        M: Fn(Elementary) -> Num,
        P: Fn(&SPolygon) -> Result<Circle, GeometryError>,
    >(points: &[Point], diameter: Num, tools: &Toolkit<M, P>) -> (r: Result<Circle, GeometryError>)
        requires
            tools.usable(),
        ensures
            is_pole(points@, straight_bulges(points@.len()), diameter, tools, r),
    {
        let bulges: Vec<Num> = no_bulges(points.len());
        SPolygon::calculate_poi_with_bulges(points, &bulges, diameter, tools)
    }

    /// The pole of inaccessibility within a boundary.
    pub fn calculate_poi_with_bulges<
        M: Fn(Elementary) -> Num,
        P: Fn(&SPolygon) -> Result<Circle, GeometryError>,
    >(points: &[Point], bulges: &[Num], diameter: Num, tools: &Toolkit<M, P>) -> (r: Result<
        Circle,
        GeometryError,
    >)
        requires
            tools.usable(),
        ensures
            is_pole(points@, bulges@, diameter, tools, r),
    {
        let bbox: Rect = match SPolygon::generate_boundary_bounding_box(
            points,
            bulges,
            &tools.math,
        ) {
            Ok(bbox) => bbox,
            Err(e) => return Err(e),
        };
        let area: Num = match SPolygon::calculate_boundary_area(points, bulges, &tools.math) {
            Ok(area) => area,
            Err(e) => return Err(e),
        };
        let provisional: SPolygon = SPolygon {
            vertices: vstd::slice::slice_to_vec(points),
            bulges: vstd::slice::slice_to_vec(bulges),
            bbox,
            area,
            diameter,
            poi: unknown_pole(),
            surrogate: None,
        };
        assert(provisional.vertices@ =~= points@);
        assert(provisional.bulges@ =~= bulges@);
        let pole: &P = &tools.pole;
        pole(&provisional)
    }
}

/// As many bulges of straight segments.
pub open spec fn straight_bulges(n: nat) -> Seq<Num> {
    Seq::new(n, |i: int| Num::zero())
}

pub fn no_bulges(n: usize) -> (r: Vec<Num>)
    ensures
        r@ == straight_bulges(n as nat),
{
    let mut bulges: Vec<Num> = Vec::new();
    let mut i: usize = 0;
    while i < n
        invariant
            i <= n,
            bulges@ == straight_bulges(i as nat),
        decreases n - i,
    {
        bulges.push(Num::zero());
        i = i + 1;
        assert(bulges@ =~= straight_bulges(i as nat));
    }
    assert(bulges@ =~= straight_bulges(n as nat));
    bulges
}

pub fn all_finite(values: &[Num]) -> (r: bool)
    ensures
        r == forall|i: int| 0 <= i < values@.len() ==> (#[trigger] values@[i]).is_finite(),
{
    let mut i: usize = 0;
    while i < values.len()
        invariant
            i <= values.len(),
            forall|j: int| 0 <= j < i ==> (#[trigger] values@[j]).is_finite(),
        decreases values.len() - i,
    {
        if !values[i].is_finite() {
            assert(!values@[i as int].is_finite());
            return false;
        }
        i = i + 1;
    }
    true
}

} // verus!
