//! Moving and copying a simple polygon, and what is generated for it.
use vstd::prelude::*;

use crate::error::GeometryError;
use crate::geometry::fail_fast::sp_surrogate::{
    transform_points_from, SPSurrogate, SPSurrogateConfig, SurrogateTools,
};
use crate::geometry::primitives::circle::Circle;
use crate::geometry::primitives::edge::Edge;
use crate::geometry::primitives::point::Point;
use crate::geometry::primitives::rect::Rect;
use crate::geometry::primitives::simple_polygon::{SPolygon, Toolkit};
use crate::geometry::transformation::Transformation;
use crate::math::{evaluates, Elementary};
use crate::num::Num;

verus! {

/// The vertices that follow from moving those of `reference` over `stale` ones.
pub open spec fn moved_vertices(stale: Seq<Point>, reference: Seq<Point>, t: Transformation) -> Seq<
    Point,
> {
    crate::geometry::fail_fast::sp_surrogate::overlaid(
        stale,
        crate::geometry::fail_fast::sp_surrogate::transformed_points(reference, t),
    )
}

impl SPolygon {
    /// A polygon with the sides of a rectangle.
    pub fn from_rect<
        M: Fn(Elementary) -> Num,
        P: Fn(&SPolygon) -> Result<Circle, GeometryError>,
    >(r: Rect, tools: &Toolkit<M, P>) -> (shape: Result<SPolygon, GeometryError>)
        requires
            tools.usable(),
        ensures
            crate::geometry::primitives::simple_polygon::is_built(
                seq![
                    Point(r.x_min, r.y_min),
                    Point(r.x_max, r.y_min),
                    Point(r.x_max, r.y_max),
                    Point(r.x_min, r.y_max),
                ],
                crate::geometry::primitives::simple_polygon::straight_bulges(4),
                tools,
                crate::geometry::primitives::simple_polygon::modelled(shape),
            ),
            shape matches Ok(s) ==> s.valid(&tools.math),
    {
        let points: Vec<Point> = vec![
            Point(r.x_min, r.y_min),
            Point(r.x_max, r.y_min),
            Point(r.x_max, r.y_max),
            Point(r.x_min, r.y_max),
        ];
        assert(points@ =~= seq![
            Point(r.x_min, r.y_min),
            Point(r.x_max, r.y_min),
            Point(r.x_max, r.y_max),
            Point(r.x_min, r.y_max),
        ]);
        SPolygon::new(points, tools)
    }

    /// Generates the surrogate, unless there is one with the same configuration.
    pub fn generate_surrogate<
        I: Fn(&SPolygon) -> Vec<usize>,
        H: Fn(&SPolygon) -> Vec<Point>,
        C: Fn(&SPolygon, &[(usize, Num); 3]) -> Result<Vec<Circle>, GeometryError>,
        E: Fn(&SPolygon, usize, &Vec<Circle>) -> Result<Vec<Edge>, GeometryError>,
    >(&mut self, config: SPSurrogateConfig, tools: &SurrogateTools<I, H, C, E>) -> (r: Result<
        (),
        GeometryError,
    >)
        requires
            tools.usable(),
        ensures
            (old(self).surrogate matches Some(surrogate) && surrogate.config.same_as(config)) ==> r
                is Ok && *final(self) == *old(self),
            !(old(self).surrogate matches Some(surrogate) && surrogate.config.same_as(config)) ==> {
                match r {
                    Ok(_) => {
                        &&& final(self).surrogate is Some
                        &&& tools.generates(old(self), config, Ok(final(self).surrogate->0))
                        &&& *final(self) == (SPolygon {
                            surrogate: final(self).surrogate,
                            ..*old(self)
                        })
                    },
                    Err(e) => *final(self) == *old(self) && tools.generates(
                        old(self),
                        config,
                        Err(e),
                    ),
                }
            },
    {
        if let Some(surrogate) = &self.surrogate {
            if surrogate.config.same_as(config) {
                return Ok(());
            }
        }
        match SPSurrogate::new(self, config, tools) {
            Ok(surrogate) => {
                self.surrogate = Some(surrogate);
                Ok(())
            },
            Err(e) => Err(e),
        }
    }

    /// Moves the polygon.
    ///
    /// The moved boundary needs a bounding box.
    pub fn transform<M: Fn(Elementary) -> Num>(&mut self, t: Transformation, math: &M)
        requires
            evaluates(math),
            crate::geometry::primitives::boundary::boundary_box(
                crate::geometry::fail_fast::sp_surrogate::transformed_points(old(self).vertices@, t),
                old(self).bulges@,
                math,
            ) is Ok,
        ensures
            final(self)@ == old(self)@.transformed(t, math),
            old(self).valid(math) ==> final(self).valid(math),
    {
        let reference: Vec<Point> = self.vertices.clone();
        assert(reference@ =~= self.vertices@);
        transform_points_from(&mut self.vertices, &reference, t);
        assert(self.vertices@
            =~= crate::geometry::fail_fast::sp_surrogate::transformed_points(old(self).vertices@, t));
        self.poi = self.poi.transformed(t);
        if let Some(surrogate) = &mut self.surrogate {
            surrogate.transform(t);
        }
        match SPolygon::generate_boundary_bounding_box(&self.vertices, &self.bulges, math) {
            Ok(bbox) => {
                self.bbox = bbox;
            },
            Err(_) => {},
        }
        proof {
            if old(self).valid(math) {
                crate::geometry::primitives::boundary::lemma_segments_have_arcs(
                    old(self).vertices@,
                    old(self).bulges@,
                    math,
                );
                crate::geometry::primitives::boundary::lemma_arcs_make_segments(
                    self.vertices@,
                    self.bulges@,
                    math,
                );
            }
        }
    }

    /// Moves the polygon to the image of another one.
    ///
    /// The vertices, the pole and the surrogate become the images of those of
    /// the reference, as far as both reach; the bulges become those of the
    /// reference. The moved boundary needs a bounding box.
    pub fn transform_from<M: Fn(Elementary) -> Num>(
        &mut self,
        reference: &SPolygon,
        t: Transformation,
        math: &M,
    )
        requires
            evaluates(math),
            old(self).surrogate is Some ==> reference.surrogate is Some,
            crate::geometry::primitives::boundary::boundary_box(
                moved_vertices(old(self).vertices@, reference.vertices@, t),
                reference.bulges@,
                math,
            ) is Ok,
        ensures
            final(self)@ == old(self)@.moved_onto(reference@, t, math),
    {
        transform_points_from(&mut self.vertices, &reference.vertices, t);
        self.bulges = reference.bulges.clone();
        assert(self.bulges@ =~= reference.bulges@);
        self.poi = reference.poi.transformed(t);
        if let Some(surrogate) = &mut self.surrogate {
            surrogate.transform_from(reference.surrogate(), t);
        }
        match SPolygon::generate_boundary_bounding_box(&self.vertices, &self.bulges, math) {
            Ok(bbox) => {
                self.bbox = bbox;
            },
            Err(_) => {},
        }
    }

    /// An equal polygon.
    pub fn duplicate(&self) -> (r: SPolygon)
        ensures
            r@ == self@,
    {
        let r: SPolygon = SPolygon {
            vertices: self.vertices.clone(),
            bulges: self.bulges.clone(),
            bbox: self.bbox,
            area: self.area,
            diameter: self.diameter,
            poi: self.poi,
            surrogate: match &self.surrogate {
                Some(surrogate) => Some(surrogate.duplicate()),
                None => None,
            },
        };
        assert(r.vertices@ =~= self.vertices@);
        assert(r.bulges@ =~= self.bulges@);
        r
    }
}

impl crate::geometry::primitives::simple_polygon::PolygonModel {
    /// The content of the moved polygon; area and diameter do not change under a rigid motion.
    pub open spec fn transformed<M: Fn(Elementary) -> Num>(
        self,
        t: Transformation,
        math: &M,
    ) -> crate::geometry::primitives::simple_polygon::PolygonModel {
        let vertices = crate::geometry::fail_fast::sp_surrogate::transformed_points(
            self.vertices,
            t,
        );
        crate::geometry::primitives::simple_polygon::PolygonModel {
            vertices,
            bbox: crate::geometry::primitives::boundary::boundary_box(
                vertices,
                self.bulges,
                math,
            )->Ok_0,
            poi: self.poi.transformed(t),
            surrogate: match self.surrogate {
                Some(surrogate) => Some(surrogate.transformed(t)),
                None => None,
            },
            ..self
        }
    }

    /// The content after a move to the image of another polygon.
    pub open spec fn moved_onto<M: Fn(Elementary) -> Num>(
        self,
        reference: crate::geometry::primitives::simple_polygon::PolygonModel,
        t: Transformation,
        math: &M,
    ) -> crate::geometry::primitives::simple_polygon::PolygonModel {
        let vertices = moved_vertices(self.vertices, reference.vertices, t);
        crate::geometry::primitives::simple_polygon::PolygonModel {
            vertices,
            bulges: reference.bulges,
            bbox: crate::geometry::primitives::boundary::boundary_box(
                vertices,
                reference.bulges,
                math,
            )->Ok_0,
            poi: reference.poi.transformed(t),
            surrogate: match self.surrogate {
                Some(surrogate) => Some(
                    surrogate.overlaid_with(reference.surrogate->0.transformed(t)),
                ),
                None => None,
            },
            ..self
        }
    }
}

/// A polygon moved to the image of another one with as many vertices, and with as many poles,
/// piers and hull points in its surrogate, has the boundary, the bounding box and the pole that
/// the other gets when it is moved itself, and in its surrogate the same poles, piers and hull
/// points.
pub proof fn moving_onto_agrees_with_moving<M: Fn(Elementary) -> Num>(
    shape: crate::geometry::primitives::simple_polygon::PolygonModel,
    reference: crate::geometry::primitives::simple_polygon::PolygonModel,
    t: Transformation,
    math: &M,
)
    requires
        shape.vertices.len() == reference.vertices.len(),
        shape.surrogate matches Some(own) ==> reference.surrogate matches Some(other)
            && own.poles.len() == other.poles.len() && own.piers.len() == other.piers.len()
            && own.convex_hull_points.len() == other.convex_hull_points.len(),
    ensures
        shape.moved_onto(reference, t, math).vertices == reference.transformed(t, math).vertices,
        shape.moved_onto(reference, t, math).bulges == reference.transformed(t, math).bulges,
        shape.moved_onto(reference, t, math).bbox == reference.transformed(t, math).bbox,
        shape.moved_onto(reference, t, math).poi == reference.transformed(t, math).poi,
        shape.surrogate is Some ==> {
            let moved = shape.moved_onto(reference, t, math).surrogate->0;
            let other = reference.transformed(t, math).surrogate->0;
            &&& moved.poles == other.poles
            &&& moved.piers == other.piers
            &&& moved.convex_hull_points == other.convex_hull_points
        },
{
    assert(moved_vertices(shape.vertices, reference.vertices, t)
        =~= crate::geometry::fail_fast::sp_surrogate::transformed_points(reference.vertices, t));
    if shape.surrogate is Some {
        let own = shape.surrogate->0;
        let other = reference.surrogate->0.transformed(t);
        assert(own.overlaid_with(other).poles =~= other.poles);
        assert(own.overlaid_with(other).piers =~= other.piers);
        assert(own.overlaid_with(other).convex_hull_points =~= other.convex_hull_points);
    }
}

/// A moved copy of a polygon that is moved to another image of it becomes that image: nothing is
/// left of where the copy was before.
pub proof fn moved_copies_can_be_moved_again<M: Fn(Elementary) -> Num>(
    reference: crate::geometry::primitives::simple_polygon::PolygonModel,
    before: Transformation,
    t: Transformation,
    math: &M,
)
    ensures
        reference.transformed(before, math).moved_onto(reference, t, math)
            == reference.transformed(t, math),
{
    let copy = reference.transformed(before, math);
    moving_onto_agrees_with_moving(copy, reference, t, math);
    if reference.surrogate is Some {
        let moved = copy.moved_onto(reference, t, math).surrogate->0;
        let other = reference.transformed(t, math).surrogate->0;
        assert(moved == other);
    }
}

} // verus!
