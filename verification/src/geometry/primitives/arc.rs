use vstd::prelude::*;

use crate::error::GeometryError;
use crate::geometry::geo_enums::GeoPosition;
use crate::geometry::primitives::circle::Circle;
use crate::geometry::primitives::edge::Edge;
use crate::geometry::primitives::point::Point;
use crate::geometry::primitives::rect::Rect;
use crate::geometry::transformation::Transformation;
use crate::math::{evaluate, evaluates, Elementary};
use crate::num::Num;

verus! {

/// Circular arc segment between two points.
#[derive(Clone, Copy, Debug, PartialEq, Eq, Structural)]
pub struct Arc {
    pub center: Point,
    pub radius: Num,
    pub start: Point,
    pub end: Point,
    /// Signed sweep angle in radians. Positive values follow the counter-clockwise direction.
    pub sweep: Num,
    pub bbox: Rect,
}

/// A vertex of a polyline, with the bulge of the segment that leaves it.
#[derive(Clone, Copy, Debug, PartialEq, Eq, Structural)]
pub struct PlineVertex {
    pub x: Num,
    pub y: Num,
    pub bulge: Num,
}

/// Tolerance for angles, in radians.
#[verifier::allow_in_spec]
pub fn angle_epsilon() -> Num
    returns
        Num::e_minus_5(),
{
    Num::e_minus_5()
}

/// Tolerance for distances.
#[verifier::allow_in_spec]
pub fn distance_epsilon() -> Num
    returns
        Num::e_minus_4(),
{
    Num::e_minus_4()
}

pub open spec fn spec_point_on_circle<M: Fn(Elementary) -> Num>(
    center: Point,
    radius: Num,
    angle: Num,
    math: &M,
) -> Point {
    Point(
        center.0.add(radius.mul(evaluate(math, Elementary::Cos(angle)))),
        center.1.add(radius.mul(evaluate(math, Elementary::Sin(angle)))),
    )
}

#[verifier::when_used_as_spec(spec_point_on_circle)]
pub fn point_on_circle<M: Fn(Elementary) -> Num>(
    center: Point,
    radius: Num,
    angle: Num,
    math: &M,
) -> (r: Point)
    requires
        evaluates(math),
    ensures
        r == spec_point_on_circle(center, radius, angle, math),
{
    Point(
        center.0.add(radius.mul(evaluate(math, Elementary::Cos(angle)))),
        center.1.add(radius.mul(evaluate(math, Elementary::Sin(angle)))),
    )
}

pub open spec fn spec_normalize_angle(angle: Num) -> Num {
    let normalized = angle.rem(Num::tau());
    if normalized.lt(Num::zero()) {
        normalized.add(Num::tau())
    } else {
        normalized
    }
}

/// The angle reduced to a single positive turn.
#[verifier::when_used_as_spec(spec_normalize_angle)]
pub fn normalize_angle(angle: Num) -> (r: Num)
    ensures
        r == spec_normalize_angle(angle),
{
    let normalized: Num = angle.rem(Num::tau());
    if normalized.lt(Num::zero()) {
        normalized.add(Num::tau())
    } else {
        normalized
    }
}

pub open spec fn spec_angle_of<M: Fn(Elementary) -> Num>(
    center: Point,
    point: Point,
    math: &M,
) -> Num {
    normalize_angle(
        evaluate(math, Elementary::Atan2(point.1.sub(center.1), point.0.sub(center.0))),
    )
}

/// The direction from `center` to `point`.
#[verifier::when_used_as_spec(spec_angle_of)]
pub fn angle_of<M: Fn(Elementary) -> Num>(center: Point, point: Point, math: &M) -> (r: Num)
    requires
        evaluates(math),
    ensures
        r == spec_angle_of(center, point, math),
{
    normalize_angle(
        evaluate(math, Elementary::Atan2(point.1.sub(center.1), point.0.sub(center.0))),
    )
}

pub open spec fn spec_angle_in_sweep(angle: Num, start_angle: Num, sweep: Num) -> bool {
    if sweep.abs().ge(Num::tau().sub(angle_epsilon())) {
        true
    } else if sweep.ge(Num::zero()) {
        normalize_angle(angle.sub(start_angle)).le(sweep.add(angle_epsilon()))
    } else {
        normalize_angle(start_angle.sub(angle)).le(sweep.neg().add(angle_epsilon()))
    }
}

/// Whether a sweep that begins at `start_angle` passes `angle`.
#[verifier::when_used_as_spec(spec_angle_in_sweep)]
pub fn angle_in_sweep(angle: Num, start_angle: Num, sweep: Num) -> (r: bool)
    ensures
        r == spec_angle_in_sweep(angle, start_angle, sweep),
{
    if sweep.abs().ge(Num::tau().sub(angle_epsilon())) {
        return true;
    }
    if sweep.ge(Num::zero()) {
        normalize_angle(angle.sub(start_angle)).le(sweep.add(angle_epsilon()))
    } else {
        normalize_angle(start_angle.sub(angle)).le(sweep.neg().add(angle_epsilon()))
    }
}

/// The direction of an axis, counted in quarter turns.
pub open spec fn spec_quarter_turns(n: u64) -> Num {
    if n == 0 {
        Num::zero()
    } else if n == 1 {
        Num::frac_pi_2()
    } else if n == 2 {
        Num::pi()
    } else {
        Num::three().mul(Num::frac_pi_2())
    }
}

#[verifier::when_used_as_spec(spec_quarter_turns)]
pub fn quarter_turns(n: u64) -> (r: Num)
    ensures
        r == spec_quarter_turns(n),
{
    if n == 0 {
        Num::zero()
    } else if n == 1 {
        Num::frac_pi_2()
    } else if n == 2 {
        Num::pi()
    } else {
        Num::three().mul(Num::frac_pi_2())
    }
}

/// The points among the first `n` axis directions that a sweep passes.
pub open spec fn extrema<M: Fn(Elementary) -> Num>(
    center: Point,
    radius: Num,
    start_angle: Num,
    sweep: Num,
    n: u64,
    math: &M,
) -> Seq<Point>
    decreases n,
{
    if n == 0 {
        Seq::empty()
    } else {
        let before = extrema(center, radius, start_angle, sweep, (n - 1) as u64, math);
        let angle = quarter_turns((n - 1) as u64);
        if angle_in_sweep(angle, start_angle, sweep) {
            before.push(point_on_circle(center, radius, angle, math))
        } else {
            before
        }
    }
}

fn compute_extrema<M: Fn(Elementary) -> Num>(
    center: Point,
    radius: Num,
    start_angle: Num,
    sweep: Num,
    math: &M,
) -> (r: Vec<Point>)
    requires
        evaluates(math),
    ensures
        r@ == extrema(center, radius, start_angle, sweep, 4, math),
{
    let mut points: Vec<Point> = Vec::new();
    let mut i: u64 = 0;
    while i < 4
        invariant
            i <= 4,
            evaluates(math),
            points@ == extrema(center, radius, start_angle, sweep, i, math),
        decreases 4 - i,
    {
        let angle: Num = quarter_turns(i);
        if angle_in_sweep(angle, start_angle, sweep) {
            points.push(point_on_circle(center, radius, angle, math));
        }
        i = i + 1;
    }
    points
}

/// The smallest box around the end points and the axis extrema of an arc.
pub open spec fn spec_calculate_bounding_box<M: Fn(Elementary) -> Num>(
    center: Point,
    radius: Num,
    start: Point,
    end: Point,
    sweep: Num,
    math: &M,
) -> Rect {
    Rect::unbounded_inside_out().including_all(
        seq![start, end] + extrema(center, radius, angle_of(center, start, math), sweep, 4, math),
    )
}

#[verifier::when_used_as_spec(spec_calculate_bounding_box)]
pub fn calculate_bounding_box<M: Fn(Elementary) -> Num>(
    center: Point,
    radius: Num,
    start: Point,
    end: Point,
    sweep: Num,
    math: &M,
) -> (r: Rect)
    requires
        evaluates(math),
    ensures
        r == spec_calculate_bounding_box(center, radius, start, end, sweep, math),
{
    let mut found: Vec<Point> = compute_extrema(
        center,
        radius,
        angle_of(center, start, math),
        sweep,
        math,
    );
    let mut points: Vec<Point> = Vec::new();
    points.push(start);
    points.push(end);
    points.append(&mut found);
    assert(points@ =~= seq![start, end] + extrema(
        center,
        radius,
        angle_of(center, start, math),
        sweep,
        4,
        math,
    ));
    Rect::unbounded_inside_out().extended_over(&points)
}

impl Arc {
    /// Whether a point lies on the circle, within tolerance.
    pub open spec fn spec_on_circle(point: Point, center: Point, radius: Num) -> bool {
        point.distance_to(center).sub(radius).abs().le(
            distance_epsilon().max(radius.mul(distance_epsilon())),
        )
    }

    #[verifier::when_used_as_spec(spec_on_circle)]
    pub fn on_circle(point: Point, center: Point, radius: Num) -> (r: bool)
        ensures
            r == Arc::spec_on_circle(point, center, radius),
    {
        point.distance_to(center).sub(radius).abs().le(
            distance_epsilon().max(radius.mul(distance_epsilon())),
        )
    }

    pub open spec fn spec_try_new<M: Fn(Elementary) -> Num>(
        center: Point,
        radius: Num,
        start: Point,
        end: Point,
        sweep: Num,
        math: &M,
    ) -> Result<Arc, GeometryError> {
        if !(radius.is_finite() && radius.gt(Num::zero())) {
            Err(GeometryError::InvalidArcRadius)
        } else if !(center.is_finite() && start.is_finite() && end.is_finite()) {
            Err(GeometryError::InvalidArcPoint)
        } else if !(sweep.is_finite() && sweep.abs().gt(angle_epsilon()) && sweep.abs().le(
            Num::tau().add(angle_epsilon()),
        )) {
            Err(GeometryError::InvalidArcSweep)
        } else if !Arc::on_circle(start, center, radius) {
            Err(GeometryError::ArcStartOffCircle)
        } else if !Arc::on_circle(end, center, radius) {
            Err(GeometryError::ArcEndOffCircle)
        } else {
            Ok(
                Arc {
                    center,
                    radius,
                    start,
                    end,
                    sweep,
                    bbox: calculate_bounding_box(center, radius, start, end, sweep, math),
                },
            )
        }
    }

    /// An arc, if the radius, the points and the sweep are consistent.
    #[verifier::when_used_as_spec(spec_try_new)]
    pub fn try_new<M: Fn(Elementary) -> Num>(
        center: Point,
        radius: Num,
        start: Point,
        end: Point,
        sweep: Num,
        math: &M,
    ) -> (r: Result<Arc, GeometryError>)
        requires
            evaluates(math),
        ensures
            r == Arc::spec_try_new(center, radius, start, end, sweep, math),
    {
        if !(radius.is_finite() && radius.gt(Num::zero())) {
            return Err(GeometryError::InvalidArcRadius);
        }
        if !(center.is_finite() && start.is_finite() && end.is_finite()) {
            return Err(GeometryError::InvalidArcPoint);
        }
        if !(sweep.is_finite() && sweep.abs().gt(angle_epsilon()) && sweep.abs().le(
            Num::tau().add(angle_epsilon()),
        )) {
            return Err(GeometryError::InvalidArcSweep);
        }
        if !Arc::on_circle(start, center, radius) {
            return Err(GeometryError::ArcStartOffCircle);
        }
        if !Arc::on_circle(end, center, radius) {
            return Err(GeometryError::ArcEndOffCircle);
        }
        let bbox: Rect = calculate_bounding_box(center, radius, start, end, sweep, math);
        Ok(Arc { center, radius, start, end, sweep, bbox })
    }

    /// Center and radius of the circle through two points whose arc has the given bulge.
    pub open spec fn circle_from_bulge(start: Point, end: Point, bulge: Num) -> (Point, Num) {
        let chord_len = start.distance_to(end);
        let b = bulge.abs();
        let radius = chord_len.mul(b.mul(b).add(Num::one())).div(Num::four().mul(b));
        let sagitta = b.mul(chord_len).div(Num::two());
        let center_offset = radius.sub(sagitta);
        let dx = end.0.sub(start.0);
        let dy = end.1.sub(start.1);
        let offset_x = center_offset.neg().mul(dy).div(chord_len);
        let offset_y = center_offset.mul(dx).div(chord_len);
        let (offset_x, offset_y) = if bulge.lt(Num::zero()) {
            (offset_x.neg(), offset_y.neg())
        } else {
            (offset_x, offset_y)
        };
        (
            Point(
                start.0.add(dx.div(Num::two())).add(offset_x),
                start.1.add(dy.div(Num::two())).add(offset_y),
            ),
            radius,
        )
    }

    pub open spec fn spec_try_from_bulge<M: Fn(Elementary) -> Num>(
        start: Point,
        end: Point,
        bulge: Num,
        math: &M,
    ) -> Result<Arc, GeometryError> {
        if !bulge.is_finite() || bulge.num_eq(Num::zero()) {
            Err(GeometryError::InvalidArcBulge)
        } else if start.same_as(end) {
            Err(GeometryError::CoincidentArcEndpoints)
        } else {
            let (center, radius) = Arc::circle_from_bulge(start, end, bulge);
            let sweep = Num::four().mul(evaluate(math, Elementary::Atan(bulge)));
            Arc::try_new(center, radius, start, end, sweep, math)
        }
    }

    /// The arc between two points with a given bulge: the tangent of a quarter of its sweep.
    #[verifier::when_used_as_spec(spec_try_from_bulge)]
    pub fn try_from_bulge<M: Fn(Elementary) -> Num>(
        start: Point,
        end: Point,
        bulge: Num,
        math: &M,
    ) -> (r: Result<Arc, GeometryError>)
        requires
            evaluates(math),
        ensures
            r == Arc::spec_try_from_bulge(start, end, bulge, math),
    {
        if !bulge.is_finite() || bulge.num_eq(Num::zero()) {
            return Err(GeometryError::InvalidArcBulge);
        }
        if start.same_as(end) {
            return Err(GeometryError::CoincidentArcEndpoints);
        }
        let chord_len: Num = start.distance_to(end);
        let b: Num = bulge.abs();
        let radius: Num = chord_len.mul(b.mul(b).add(Num::one())).div(Num::four().mul(b));
        let sagitta: Num = b.mul(chord_len).div(Num::two());
        let center_offset: Num = radius.sub(sagitta);
        let dx: Num = end.0.sub(start.0);
        let dy: Num = end.1.sub(start.1);
        let mut offset_x: Num = center_offset.neg().mul(dy).div(chord_len);
        let mut offset_y: Num = center_offset.mul(dx).div(chord_len);
        if bulge.lt(Num::zero()) {
            offset_x = offset_x.neg();
            offset_y = offset_y.neg();
        }
        let center: Point = Point(
            start.0.add(dx.div(Num::two())).add(offset_x),
            start.1.add(dy.div(Num::two())).add(offset_y),
        );
        let sweep: Num = Num::four().mul(evaluate(math, Elementary::Atan(bulge)));
        Arc::try_new(center, radius, start, end, sweep, math)
    }

    /// The arc that leaves a polyline vertex towards the next one.
    pub fn try_from_cavalier<M: Fn(Elementary) -> Num>(
        start: PlineVertex,
        end: PlineVertex,
        math: &M,
    ) -> (r: Result<Arc, GeometryError>)
        requires
            evaluates(math),
        ensures
            r == Arc::spec_try_from_bulge(
                Point(start.x, start.y),
                Point(end.x, end.y),
                start.bulge,
                math,
            ),
    {
        Arc::try_from_bulge(Point(start.x, start.y), Point(end.x, end.y), start.bulge, math)
    }

    /// The polyline vertices at the two ends of the arc.
    pub fn to_cavalier_pair<M: Fn(Elementary) -> Num>(&self, math: &M) -> (r: (
        PlineVertex,
        PlineVertex,
    ))
        requires
            evaluates(math),
        ensures
            r.0 == (PlineVertex { x: self.start.0, y: self.start.1, bulge: self.bulge(math) }),
            r.1 == (PlineVertex { x: self.end.0, y: self.end.1, bulge: Num::zero() }),
    {
        (
            PlineVertex { x: self.start.0, y: self.start.1, bulge: self.bulge(math) },
            PlineVertex { x: self.end.0, y: self.end.1, bulge: Num::zero() },
        )
    }

    pub open spec fn spec_bulge<M: Fn(Elementary) -> Num>(&self, math: &M) -> Num {
        evaluate(math, Elementary::Tan(self.sweep.div(Num::four())))
    }

    #[verifier::when_used_as_spec(spec_bulge)]
    pub fn bulge<M: Fn(Elementary) -> Num>(&self, math: &M) -> (r: Num)
        requires
            evaluates(math),
        ensures
            r == self.spec_bulge(math),
    {
        evaluate(math, Elementary::Tan(self.sweep.div(Num::four())))
    }

    pub open spec fn spec_start_angle<M: Fn(Elementary) -> Num>(&self, math: &M) -> Num {
        angle_of(self.center, self.start, math)
    }

    #[verifier::when_used_as_spec(spec_start_angle)]
    pub fn start_angle<M: Fn(Elementary) -> Num>(&self, math: &M) -> (r: Num)
        requires
            evaluates(math),
        ensures
            r == self.spec_start_angle(math),
    {
        angle_of(self.center, self.start, math)
    }

    pub open spec fn spec_end_angle<M: Fn(Elementary) -> Num>(&self, math: &M) -> Num {
        angle_of(self.center, self.end, math)
    }

    #[verifier::when_used_as_spec(spec_end_angle)]
    pub fn end_angle<M: Fn(Elementary) -> Num>(&self, math: &M) -> (r: Num)
        requires
            evaluates(math),
        ensures
            r == self.spec_end_angle(math),
    {
        angle_of(self.center, self.end, math)
    }

    pub open spec fn spec_point_at_angle<M: Fn(Elementary) -> Num>(
        &self,
        angle: Num,
        math: &M,
    ) -> Point {
        point_on_circle(self.center, self.radius, angle, math)
    }

    #[verifier::when_used_as_spec(spec_point_at_angle)]
    pub fn point_at_angle<M: Fn(Elementary) -> Num>(&self, angle: Num, math: &M) -> (r: Point)
        requires
            evaluates(math),
        ensures
            r == self.spec_point_at_angle(angle, math),
    {
        point_on_circle(self.center, self.radius, angle, math)
    }

    /// The points at which the arc is extreme along an axis.
    pub open spec fn extreme_points<M: Fn(Elementary) -> Num>(&self, math: &M) -> Seq<Point> {
        extrema(self.center, self.radius, self.start_angle(math), self.sweep, 4, math)
    }

    pub fn cardinal_extrema<M: Fn(Elementary) -> Num>(&self, math: &M) -> (r: Vec<Point>)
        requires
            evaluates(math),
        ensures
            r@ == self.extreme_points(math),
    {
        compute_extrema(self.center, self.radius, self.start_angle(math), self.sweep, math)
    }

    pub open spec fn spec_contains_angle<M: Fn(Elementary) -> Num>(
        &self,
        angle: Num,
        math: &M,
    ) -> bool {
        angle_in_sweep(angle, self.start_angle(math), self.sweep)
    }

    #[verifier::when_used_as_spec(spec_contains_angle)]
    pub fn contains_angle<M: Fn(Elementary) -> Num>(&self, angle: Num, math: &M) -> (r: bool)
        requires
            evaluates(math),
        ensures
            r == self.spec_contains_angle(angle, math),
    {
        angle_in_sweep(angle, self.start_angle(math), self.sweep)
    }

    pub open spec fn spec_at_center(&self, point: Point) -> bool {
        point.sq_distance_to(self.center).le(distance_epsilon().mul(distance_epsilon()))
    }

    #[verifier::when_used_as_spec(spec_at_center)]
    fn at_center(&self, point: Point) -> (r: bool)
        ensures
            r == self.spec_at_center(point),
    {
        point.sq_distance_to(self.center).le(distance_epsilon().mul(distance_epsilon()))
    }

    pub open spec fn spec_contains_point_projection<M: Fn(Elementary) -> Num>(
        &self,
        point: Point,
        math: &M,
    ) -> bool {
        self.spec_at_center(point) || self.contains_angle(
            angle_of(self.center, point, math),
            math,
        )
    }

    /// Whether the ray from the center through the point meets the arc.
    #[verifier::when_used_as_spec(spec_contains_point_projection)]
    pub fn contains_point_projection<M: Fn(Elementary) -> Num>(&self, point: Point, math: &M) -> (r:
        bool)
        requires
            evaluates(math),
        ensures
            r == self.spec_contains_point_projection(point, math),
    {
        if self.at_center(point) {
            return true;
        }
        self.contains_angle(angle_of(self.center, point, math), math)
    }

    pub open spec fn spec_closest_point_on_arc<M: Fn(Elementary) -> Num>(
        &self,
        point: Point,
        math: &M,
    ) -> Point {
        let projected_angle = angle_of(self.center, point, math);
        if self.spec_at_center(point) {
            self.start
        } else if self.contains_angle(projected_angle, math) {
            self.point_at_angle(projected_angle, math)
        } else if point.sq_distance_to(self.start).le(point.sq_distance_to(self.end)) {
            self.start
        } else {
            self.end
        }
    }

    #[verifier::when_used_as_spec(spec_closest_point_on_arc)]
    pub fn closest_point_on_arc<M: Fn(Elementary) -> Num>(&self, point: Point, math: &M) -> (r:
        Point)
        requires
            evaluates(math),
        ensures
            r == self.spec_closest_point_on_arc(point, math),
    {
        if self.at_center(point) {
            return self.start;
        }
        let projected_angle: Num = angle_of(self.center, point, math);
        if self.contains_angle(projected_angle, math) {
            self.point_at_angle(projected_angle, math)
        } else if point.sq_distance_to(self.start).le(point.sq_distance_to(self.end)) {
            self.start
        } else {
            self.end
        }
    }

    pub open spec fn spec_collides_with_point<M: Fn(Elementary) -> Num>(
        &self,
        point: Point,
        math: &M,
    ) -> bool {
        Arc::on_circle(point, self.center, self.radius) && self.contains_point_projection(
            point,
            math,
        )
    }

    #[verifier::when_used_as_spec(spec_collides_with_point)]
    pub fn collides_with_point<M: Fn(Elementary) -> Num>(&self, point: Point, math: &M) -> (r: bool)
        requires
            evaluates(math),
        ensures
            r == self.spec_collides_with_point(point, math),
    {
        Arc::on_circle(point, self.center, self.radius) && self.contains_point_projection(
            point,
            math,
        )
    }

    /// Where the line through an edge meets the circle: the edge parameters, least first.
    pub open spec fn crossing_parameters(&self, edge: Edge) -> Seq<Num> {
        let dx = edge.end.0.sub(edge.start.0);
        let dy = edge.end.1.sub(edge.start.1);
        let fx = edge.start.0.sub(self.center.0);
        let fy = edge.start.1.sub(self.center.1);
        let a = dx.mul(dx).add(dy.mul(dy));
        let b = Num::two().mul(fx.mul(dx).add(fy.mul(dy)));
        let c = fx.mul(fx).add(fy.mul(fy)).sub(self.radius.mul(self.radius));
        let discriminant = b.mul(b).sub(Num::four().mul(a).mul(c));
        let root = discriminant.sqrt();
        if discriminant.lt(distance_epsilon().neg()) {
            Seq::empty()
        } else if discriminant.abs().le(distance_epsilon()) {
            seq![b.neg().div(Num::two().mul(a))]
        } else {
            seq![
                b.neg().sub(root).div(Num::two().mul(a)),
                b.neg().add(root).div(Num::two().mul(a)),
            ]
        }
    }

    /// Whether a point is far from each of the points found so far.
    pub open spec fn is_new(found: Seq<Point>, point: Point) -> bool {
        forall|i: int|
            0 <= i < found.len() ==> (#[trigger] found[i]).sq_distance_to(point).gt(
                distance_epsilon().mul(distance_epsilon()),
            )
    }

    /// The point on an edge at a parameter that is brought into the edge.
    pub open spec fn spec_point_on_edge(edge: Edge, t: Num) -> Point {
        let s = t.clamp(Num::zero(), Num::one());
        Point(
            edge.start.0.add(edge.end.0.sub(edge.start.0).mul(s)),
            edge.start.1.add(edge.end.1.sub(edge.start.1).mul(s)),
        )
    }

    #[verifier::when_used_as_spec(spec_point_on_edge)]
    fn point_on_edge(edge: Edge, t: Num) -> (r: Point)
        ensures
            r == Arc::spec_point_on_edge(edge, t),
    {
        let s: Num = t.clamp(Num::zero(), Num::one());
        Point(
            edge.start.0.add(edge.end.0.sub(edge.start.0).mul(s)),
            edge.start.1.add(edge.end.1.sub(edge.start.1).mul(s)),
        )
    }

    /// The points found so far, with the edge point at `t` if it is on the edge, on the arc and new.
    pub open spec fn with_edge_intersection<M: Fn(Elementary) -> Num>(
        &self,
        edge: Edge,
        t: Num,
        found: Seq<Point>,
        math: &M,
    ) -> Seq<Point> {
        let point = Arc::spec_point_on_edge(edge, t);
        if distance_epsilon().neg().le(t) && t.le(Num::one().add(distance_epsilon()))
            && self.collides_with_point(point, math) && Arc::is_new(found, point) {
            found.push(point)
        } else {
            found
        }
    }

    fn push_edge_intersection<M: Fn(Elementary) -> Num>(
        &self,
        edge: Edge,
        t: Num,
        intersections: &mut Vec<Point>,
        math: &M,
    )
        requires
            evaluates(math),
        ensures
            final(intersections)@ == self.with_edge_intersection(
                edge,
                t,
                old(intersections)@,
                math,
            ),
    {
        if !(distance_epsilon().neg().le(t) && t.le(Num::one().add(distance_epsilon()))) {
            return;
        }
        let point: Point = Arc::point_on_edge(edge, t);
        if !self.collides_with_point(point, math) {
            return;
        }
        let threshold: Num = distance_epsilon().mul(distance_epsilon());
        let mut i: usize = 0;
        let ghost found = intersections@;
        while i < intersections.len()
            invariant
                i <= intersections.len(),
                intersections@ == found,
                threshold == distance_epsilon().mul(distance_epsilon()),
                forall|j: int|
                    0 <= j < i ==> (#[trigger] found[j]).sq_distance_to(point).gt(threshold),
            ensures
                intersections@ == found,
                i < found.len() ==> !found[i as int].sq_distance_to(point).gt(threshold),
                i >= found.len() ==> Arc::is_new(found, point),
            decreases intersections.len() - i,
        {
            if !intersections[i].sq_distance_to(point).gt(threshold) {
                break;
            }
            i = i + 1;
        }
        if i >= intersections.len() {
            intersections.push(point);
        } else {
            assert(!Arc::is_new(found, point)) by {
                assert(!found[i as int].sq_distance_to(point).gt(threshold));
            }
        }
    }

    /// The points in which the arc meets an edge.
    pub open spec fn meeting_points<M: Fn(Elementary) -> Num>(
        &self,
        edge: Edge,
        math: &M,
    ) -> Seq<Point> {
        let ts = self.crossing_parameters(edge);
        if ts.len() == 0 {
            Seq::empty()
        } else {
            let first = self.with_edge_intersection(edge, ts[0], Seq::empty(), math);
            if ts.len() == 1 {
                first
            } else {
                self.with_edge_intersection(edge, ts[1], first, math)
            }
        }
    }

    pub fn collides_at<M: Fn(Elementary) -> Num>(&self, edge: Edge, math: &M) -> (r: Vec<Point>)
        requires
            evaluates(math),
        ensures
            r@ == self.meeting_points(edge, math),
    {
        let dx: Num = edge.end.0.sub(edge.start.0);
        let dy: Num = edge.end.1.sub(edge.start.1);
        let fx: Num = edge.start.0.sub(self.center.0);
        let fy: Num = edge.start.1.sub(self.center.1);
        let a: Num = dx.mul(dx).add(dy.mul(dy));
        let b: Num = Num::two().mul(fx.mul(dx).add(fy.mul(dy)));
        let c: Num = fx.mul(fx).add(fy.mul(fy)).sub(self.radius.mul(self.radius));
        let discriminant: Num = b.mul(b).sub(Num::four().mul(a).mul(c));
        let mut intersections: Vec<Point> = Vec::new();
        if discriminant.lt(distance_epsilon().neg()) {
            return intersections;
        }
        if discriminant.abs().le(distance_epsilon()) {
            self.push_edge_intersection(
                edge,
                b.neg().div(Num::two().mul(a)),
                &mut intersections,
                math,
            );
        } else {
            let root: Num = discriminant.sqrt();
            self.push_edge_intersection(
                edge,
                b.neg().sub(root).div(Num::two().mul(a)),
                &mut intersections,
                math,
            );
            self.push_edge_intersection(
                edge,
                b.neg().add(root).div(Num::two().mul(a)),
                &mut intersections,
                math,
            );
        }
        intersections
    }

    pub open spec fn spec_collides_with_edge<M: Fn(Elementary) -> Num>(
        &self,
        edge: Edge,
        math: &M,
    ) -> bool {
        self.bbox.collides_with_rect(edge.bbox()) && self.meeting_points(edge, math).len() > 0
    }

    #[verifier::when_used_as_spec(spec_collides_with_edge)]
    pub fn collides_with_edge<M: Fn(Elementary) -> Num>(&self, edge: Edge, math: &M) -> (r: bool)
        requires
            evaluates(math),
        ensures
            r == self.spec_collides_with_edge(edge, math),
    {
        if !self.bbox.collides_with_rect(edge.bbox()) {
            return false;
        }
        self.collides_at(edge, math).len() > 0
    }

    pub open spec fn spec_both_contain<M: Fn(Elementary) -> Num>(
        &self,
        other: &Arc,
        point: Point,
        math: &M,
    ) -> bool {
        self.collides_with_point(point, math) && other.collides_with_point(point, math)
    }

    #[verifier::when_used_as_spec(spec_both_contain)]
    fn both_contain<M: Fn(Elementary) -> Num>(&self, other: &Arc, point: Point, math: &M) -> (r:
        bool)
        requires
            evaluates(math),
        ensures
            r == self.spec_both_contain(other, point, math),
    {
        self.collides_with_point(point, math) && other.collides_with_point(point, math)
    }

    pub open spec fn spec_sweeps_overlap<M: Fn(Elementary) -> Num>(
        &self,
        other: &Arc,
        math: &M,
    ) -> bool {
        self.contains_angle(other.start_angle(math), math) || self.contains_angle(
            other.end_angle(math),
            math,
        ) || other.contains_angle(self.start_angle(math), math) || other.contains_angle(
            self.end_angle(math),
            math,
        )
    }

    #[verifier::when_used_as_spec(spec_sweeps_overlap)]
    fn sweeps_overlap<M: Fn(Elementary) -> Num>(&self, other: &Arc, math: &M) -> (r: bool)
        requires
            evaluates(math),
        ensures
            r == self.spec_sweeps_overlap(other, math),
    {
        self.contains_angle(other.start_angle(math), math) || self.contains_angle(
            other.end_angle(math),
            math,
        ) || other.contains_angle(self.start_angle(math), math) || other.contains_angle(
            self.end_angle(math),
            math,
        )
    }

    /// Two circles with distinct centers at distance `d`: their arcs share an intersection point.
    pub open spec fn circles_meet_on_arcs<M: Fn(Elementary) -> Num>(
        &self,
        other: &Arc,
        d: Num,
        math: &M,
    ) -> bool {
        let a = self.radius.mul(self.radius).sub(other.radius.mul(other.radius)).add(
            d.mul(d),
        ).div(Num::two().mul(d));
        let h_sq = self.radius.mul(self.radius).sub(a.mul(a));
        let ux = other.center.0.sub(self.center.0).div(d);
        let uy = other.center.1.sub(self.center.1).div(d);
        let base = Point(self.center.0.add(a.mul(ux)), self.center.1.add(a.mul(uy)));
        let h = h_sq.sqrt();
        let p1 = Point(base.0.sub(uy.mul(h)), base.1.add(ux.mul(h)));
        let p2 = Point(base.0.add(uy.mul(h)), base.1.sub(ux.mul(h)));
        if h_sq.lt(distance_epsilon().neg()) {
            false
        } else if h_sq.abs().le(distance_epsilon()) {
            self.spec_both_contain(other, base, math)
        } else {
            self.spec_both_contain(other, p1, math) || self.spec_both_contain(other, p2, math)
        }
    }

    pub open spec fn spec_collides_with_arc<M: Fn(Elementary) -> Num>(
        &self,
        other: &Arc,
        math: &M,
    ) -> bool {
        let d = self.center.distance_to(other.center);
        if !self.bbox.collides_with_rect(other.bbox) {
            false
        } else if d.le(distance_epsilon()) {
            !self.radius.sub(other.radius).abs().gt(distance_epsilon())
                && self.spec_sweeps_overlap(other, math)
        } else if d.gt(self.radius.add(other.radius).add(distance_epsilon())) || d.lt(
            self.radius.sub(other.radius).abs().sub(distance_epsilon()),
        ) {
            false
        } else {
            self.circles_meet_on_arcs(other, d, math)
        }
    }

    #[verifier::when_used_as_spec(spec_collides_with_arc)]
    pub fn collides_with_arc<M: Fn(Elementary) -> Num>(&self, other: &Arc, math: &M) -> (r: bool)
        requires
            evaluates(math),
        ensures
            r == self.spec_collides_with_arc(other, math),
    {
        if !self.bbox.collides_with_rect(other.bbox) {
            return false;
        }
        let d: Num = self.center.distance_to(other.center);
        if d.le(distance_epsilon()) {
            if self.radius.sub(other.radius).abs().gt(distance_epsilon()) {
                return false;
            }
            return self.sweeps_overlap(other, math);
        }
        if d.gt(self.radius.add(other.radius).add(distance_epsilon())) || d.lt(
            self.radius.sub(other.radius).abs().sub(distance_epsilon()),
        ) {
            return false;
        }
        let a: Num = self.radius.mul(self.radius).sub(other.radius.mul(other.radius)).add(
            d.mul(d),
        ).div(Num::two().mul(d));
        let h_sq: Num = self.radius.mul(self.radius).sub(a.mul(a));
        if h_sq.lt(distance_epsilon().neg()) {
            return false;
        }
        let ux: Num = other.center.0.sub(self.center.0).div(d);
        let uy: Num = other.center.1.sub(self.center.1).div(d);
        let base: Point = Point(self.center.0.add(a.mul(ux)), self.center.1.add(a.mul(uy)));
        if h_sq.abs().le(distance_epsilon()) {
            return self.both_contain(other, base, math);
        }
        let h: Num = h_sq.sqrt();
        let p1: Point = Point(base.0.sub(uy.mul(h)), base.1.add(ux.mul(h)));
        let p2: Point = Point(base.0.add(uy.mul(h)), base.1.sub(ux.mul(h)));
        self.both_contain(other, p1, math) || self.both_contain(other, p2, math)
    }

    pub open spec fn spec_collides_with_rect<M: Fn(Elementary) -> Num>(
        &self,
        rect: Rect,
        math: &M,
    ) -> bool {
        &&& self.bbox.collides_with_rect(rect)
        &&& {
            ||| rect.collides_with_point(self.start)
            ||| rect.collides_with_point(self.end)
            ||| exists|i: int|
                0 <= i < 4 && self.collides_with_edge(#[trigger] rect.edges()[i], math)
        }
    }

    #[verifier::loop_isolation(false)]
    #[verifier::when_used_as_spec(spec_collides_with_rect)]
    pub fn collides_with_rect<M: Fn(Elementary) -> Num>(&self, rect: Rect, math: &M) -> (r: bool)
        requires
            evaluates(math),
        ensures
            r == self.spec_collides_with_rect(rect, math),
    {
        if !self.bbox.collides_with_rect(rect) {
            return false;
        }
        if rect.collides_with_point(self.start) || rect.collides_with_point(self.end) {
            return true;
        }
        let sides: [Edge; 4] = rect.edges();
        let mut i: usize = 0;
        while i < 4
            invariant
                i <= 4,
                forall|j: int| 0 <= j < i ==> !self.collides_with_edge(#[trigger] sides[j], math),
            decreases 4 - i,
        {
            if self.collides_with_edge(sides[i], math) {
                assert(self.collides_with_edge(rect.edges()[i as int], math));
                return true;
            }
            i = i + 1;
        }
        false
    }

    pub open spec fn spec_sq_distance_to<M: Fn(Elementary) -> Num>(
        &self,
        point: Point,
        math: &M,
    ) -> Num {
        self.closest_point_on_arc(point, math).sq_distance_to(point)
    }

    #[verifier::when_used_as_spec(spec_sq_distance_to)]
    pub fn sq_distance_to<M: Fn(Elementary) -> Num>(&self, point: Point, math: &M) -> (r: Num)
        requires
            evaluates(math),
        ensures
            r == self.spec_sq_distance_to(point, math),
    {
        self.closest_point_on_arc(point, math).sq_distance_to(point)
    }

    pub open spec fn spec_distance_to<M: Fn(Elementary) -> Num>(
        &self,
        point: Point,
        math: &M,
    ) -> Num {
        self.sq_distance_to(point, math).sqrt()
    }

    #[verifier::when_used_as_spec(spec_distance_to)]
    pub fn distance_to<M: Fn(Elementary) -> Num>(&self, point: Point, math: &M) -> (r: Num)
        requires
            evaluates(math),
        ensures
            r == self.spec_distance_to(point, math),
    {
        self.sq_distance_to(point, math).sqrt()
    }

    pub open spec fn spec_collides_with_circle<M: Fn(Elementary) -> Num>(
        &self,
        circle: Circle,
        math: &M,
    ) -> bool {
        self.distance_to(circle.center, math).le(circle.radius)
    }

    #[verifier::when_used_as_spec(spec_collides_with_circle)]
    pub fn collides_with_circle<M: Fn(Elementary) -> Num>(&self, circle: Circle, math: &M) -> (r:
        bool)
        requires
            evaluates(math),
        ensures
            r == self.spec_collides_with_circle(circle, math),
    {
        self.distance_to(circle.center, math).le(circle.radius)
    }

    /// The squared distance to the arc; a point on the arc counts as interior.
    pub fn sq_separation_distance<M: Fn(Elementary) -> Num>(&self, point: Point, math: &M) -> (r: (
        GeoPosition,
        Num,
    ))
        requires
            evaluates(math),
        ensures
            r.0 == if self.collides_with_point(point, math) {
                GeoPosition::Interior
            } else {
                GeoPosition::Exterior
            },
            r.1 == self.sq_distance_to(point, math),
    {
        let sq_distance: Num = self.sq_distance_to(point, math);
        if self.collides_with_point(point, math) {
            (GeoPosition::Interior, sq_distance)
        } else {
            (GeoPosition::Exterior, sq_distance)
        }
    }

    pub fn separation_distance<M: Fn(Elementary) -> Num>(&self, point: Point, math: &M) -> (r: (
        GeoPosition,
        Num,
    ))
        requires
            evaluates(math),
        ensures
            r.0 == if self.collides_with_point(point, math) {
                GeoPosition::Interior
            } else {
                GeoPosition::Exterior
            },
            r.1 == self.distance_to(point, math),
    {
        let (position, sq_distance): (GeoPosition, Num) = self.sq_separation_distance(point, math);
        (position, sq_distance.sqrt())
    }

    /// The image of the arc: its radius and sweep are kept, its box is computed anew.
    pub open spec fn spec_transformed<M: Fn(Elementary) -> Num>(
        self,
        t: Transformation,
        math: &M,
    ) -> Arc {
        let center = self.center.transformed(t);
        let start = self.start.transformed(t);
        let end = self.end.transformed(t);
        Arc {
            center,
            start,
            end,
            radius: self.radius,
            sweep: self.sweep,
            bbox: calculate_bounding_box(center, self.radius, start, end, self.sweep, math),
        }
    }

    #[verifier::when_used_as_spec(spec_transformed)]
    pub fn transformed<M: Fn(Elementary) -> Num>(self, t: Transformation, math: &M) -> (r: Arc)
        requires
            evaluates(math),
        ensures
            r == self.spec_transformed(t, math),
    {
        let center: Point = self.center.transformed(t);
        let start: Point = self.start.transformed(t);
        let end: Point = self.end.transformed(t);
        Arc {
            center,
            start,
            end,
            radius: self.radius,
            sweep: self.sweep,
            bbox: calculate_bounding_box(center, self.radius, start, end, self.sweep, math),
        }
    }

    /// Moves the arc.
    pub fn transform<M: Fn(Elementary) -> Num>(&mut self, t: Transformation, math: &M)
        requires
            evaluates(math),
        ensures
            *final(self) == old(self).transformed(t, math),
    {
        *self = self.transformed(t, math);
    }

    /// Makes the arc the image of another.
    pub fn transform_from<M: Fn(Elementary) -> Num>(
        &mut self,
        reference: &Arc,
        t: Transformation,
        math: &M,
    )
        requires
            evaluates(math),
        ensures
            *final(self) == reference.transformed(t, math),
    {
        *self = reference.transformed(t, math);
    }
}

} // verus!
