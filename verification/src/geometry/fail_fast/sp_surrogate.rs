use vstd::prelude::*;

use crate::error::GeometryError;
use crate::geometry::primitives::boundary::calculate_chord_area;
use crate::geometry::primitives::circle::Circle;
use crate::geometry::primitives::edge::Edge;
use crate::geometry::primitives::point::Point;
use crate::geometry::primitives::simple_polygon::SPolygon;
use crate::geometry::transformation::Transformation;
use crate::num::Num;

verus! {

/// Configuration of the surrogate generation.
#[derive(Clone, Copy, Debug, PartialEq, Eq)]
pub struct SPSurrogateConfig {
    /// Limits on the number of poles to be generated at different coverage levels.
    pub n_pole_limits: [(usize, Num); 3],
    /// Number of poles to test during fail-fast.
    pub n_ff_poles: usize,
    /// Number of piers to test during fail-fast.
    pub n_ff_piers: usize,
}

/// Surrogate representation of a simple polygon: a light-weight one that is
/// fully contained in the polygon.
#[derive(Clone, Debug)]
pub struct SPSurrogate {
    pub poles: Vec<Circle>,
    pub piers: Vec<Edge>,
    /// Indices of the vertices of the polygon that form the convex hull.
    pub convex_hull_indices: Vec<usize>,
    /// Points that form a hull approximation, with the extrema of arc segments.
    pub convex_hull_points: Vec<Point>,
    pub convex_hull_area: Num,
    /// The configuration used to generate the surrogate.
    pub config: SPSurrogateConfig,
}

/// The content of a surrogate.
pub struct SurrogateModel {
    pub poles: Seq<Circle>,
    pub piers: Seq<Edge>,
    pub convex_hull_indices: Seq<usize>,
    pub convex_hull_points: Seq<Point>,
    pub convex_hull_area: Num,
    pub config: SPSurrogateConfig,
}

impl View for SPSurrogate {
    type V = SurrogateModel;

    open spec fn view(&self) -> SurrogateModel {
        SurrogateModel {
            poles: self.poles@,
            piers: self.piers@,
            convex_hull_indices: self.convex_hull_indices@,
            convex_hull_points: self.convex_hull_points@,
            convex_hull_area: self.convex_hull_area,
            config: self.config,
        }
    }
}

/// What the generation of a surrogate needs from its caller.
pub struct SurrogateTools<I, H, C, E> {
    /// Finds the indices of the vertices of a polygon on its convex hull.
    pub hull_indices: I,
    /// Finds the points of the hull of a polygon, with the extrema of its arcs.
    pub hull_points: H,
    /// Finds poles of a polygon, within limits at different coverage levels.
    pub poles: C,
    /// Finds as many piers of a polygon as are asked for, given the poles already there.
    pub piers: E,
}

impl<
    I: Fn(&SPolygon) -> Vec<usize>,
    H: Fn(&SPolygon) -> Vec<Point>,
    C: Fn(&SPolygon, &[(usize, Num); 3]) -> Result<Vec<Circle>, GeometryError>,
    E: Fn(&SPolygon, usize, &Vec<Circle>) -> Result<Vec<Edge>, GeometryError>,
> SurrogateTools<I, H, C, E> {
    /// All four can be asked about every polygon.
    pub open spec fn usable(&self) -> bool {
        &&& forall|shape: &SPolygon| #[trigger] call_requires(self.hull_indices, (shape,))
        &&& forall|shape: &SPolygon| #[trigger] call_requires(self.hull_points, (shape,))
        &&& forall|shape: &SPolygon, limits: &[(usize, Num); 3]| #[trigger]
            call_requires(self.poles, (shape, limits))
        &&& forall|shape: &SPolygon, n: usize, poles: &Vec<Circle>| #[trigger]
            call_requires(self.piers, (shape, n, poles))
    }

    /// `answer` may come back when piers are asked for beside the poles that fail-fast tests.
    pub open spec fn finds_piers(
        &self,
        shape: &SPolygon,
        config: SPSurrogateConfig,
        poles: Seq<Circle>,
        answer: Result<Vec<Edge>, GeometryError>,
    ) -> bool {
        let n = if config.n_ff_poles <= poles.len() {
            config.n_ff_poles as int
        } else {
            poles.len() as int
        };
        exists|tested: Vec<Circle>| #[trigger]
            call_ensures(self.piers, (shape, config.n_ff_piers, &tested), answer) && tested@
                == poles.take(n)
    }

    /// `r` is a possible outcome when a surrogate of a polygon is generated.
    pub open spec fn generates(
        &self,
        shape: &SPolygon,
        config: SPSurrogateConfig,
        r: Result<SPSurrogate, GeometryError>,
    ) -> bool {
        match r {
            Ok(s) => {
                &&& call_ensures(self.hull_indices, (shape,), s.convex_hull_indices)
                &&& call_ensures(self.hull_points, (shape,), s.convex_hull_points)
                &&& s.convex_hull_area == crate::geometry::primitives::boundary::chord_area(
                    s.convex_hull_points@,
                ).max(shape.area)
                &&& call_ensures(self.poles, (shape, &config.n_pole_limits), Ok(s.poles))
                &&& self.finds_piers(shape, config, s.poles@, Ok(s.piers))
                &&& s.config == config
            },
            Err(e) => {
                ||| call_ensures(self.poles, (shape, &config.n_pole_limits), Err(e))
                ||| exists|poles: Vec<Circle>|
                    #[trigger] call_ensures(self.poles, (shape, &config.n_pole_limits), Ok(poles))
                        && self.finds_piers(shape, config, poles@, Err(e))
            },
        }
    }
}

/// The elements of `fresh`, followed by those of `stale` that they do not reach.
pub open spec fn overlaid<T>(stale: Seq<T>, fresh: Seq<T>) -> Seq<T> {
    Seq::new(
        stale.len(),
        |i: int|
            if i < fresh.len() {
                fresh[i]
            } else {
                stale[i]
            },
    )
}

pub open spec fn transformed_points(points: Seq<Point>, t: Transformation) -> Seq<Point> {
    points.map_values(|p: Point| p.transformed(t))
}

impl SurrogateModel {
    /// Poles, piers and hull points moved; what does not change under a rigid motion is kept.
    pub open spec fn transformed(self, t: Transformation) -> SurrogateModel {
        SurrogateModel {
            poles: self.poles.map_values(|c: Circle| c.transformed(t)),
            piers: self.piers.map_values(|e: Edge| e.transformed(t)),
            convex_hull_points: transformed_points(self.convex_hull_points, t),
            ..self
        }
    }

    /// Poles, piers and hull points taken from another surrogate.
    pub open spec fn overlaid_with(self, other: SurrogateModel) -> SurrogateModel {
        SurrogateModel {
            poles: overlaid(self.poles, other.poles),
            piers: overlaid(self.piers, other.piers),
            convex_hull_points: overlaid(self.convex_hull_points, other.convex_hull_points),
            ..self
        }
    }
}

/// Moves the first points to the images of the reference points.
pub fn transform_points_from(points: &mut Vec<Point>, reference: &[Point], t: Transformation)
    ensures
        final(points)@ == overlaid(old(points)@, transformed_points(reference@, t)),
{
    let ghost before = points@;
    let ghost images = transformed_points(reference@, t);
    let mut i: usize = 0;
    assert(points@ =~= overlaid(before, images.take(0)));
    while i < points.len() && i < reference.len()
        invariant
            i <= before.len(),
            i <= reference.len(),
            images == transformed_points(reference@, t),
            points@ == overlaid(before, images.take(i as int)),
        decreases before.len() - i,
    {
        points.set(i, reference[i].transformed(t));
        i = i + 1;
        assert(points@ =~= overlaid(before, images.take(i as int)));
    }
    assert(points@ =~= overlaid(before, images));
}

/// Moves the first poles to the images of the reference poles.
pub fn transform_poles_from(poles: &mut Vec<Circle>, reference: &[Circle], t: Transformation)
    ensures
        final(poles)@ == overlaid(
            old(poles)@,
            reference@.map_values(|c: Circle| c.transformed(t)),
        ),
{
    let ghost before = poles@;
    let ghost images = reference@.map_values(|c: Circle| c.transformed(t));
    let mut i: usize = 0;
    assert(poles@ =~= overlaid(before, images.take(0)));
    while i < poles.len() && i < reference.len()
        invariant
            i <= before.len(),
            i <= reference.len(),
            images == reference@.map_values(|c: Circle| c.transformed(t)),
            poles@ == overlaid(before, images.take(i as int)),
        decreases before.len() - i,
    {
        poles.set(i, reference[i].transformed(t));
        i = i + 1;
        assert(poles@ =~= overlaid(before, images.take(i as int)));
    }
    assert(poles@ =~= overlaid(before, images));
}

/// Moves the first piers to the images of the reference piers.
pub fn transform_piers_from(piers: &mut Vec<Edge>, reference: &[Edge], t: Transformation)
    ensures
        final(piers)@ == overlaid(
            old(piers)@,
            reference@.map_values(|e: Edge| e.transformed(t)),
        ),
{
    let ghost before = piers@;
    let ghost images = reference@.map_values(|e: Edge| e.transformed(t));
    let mut i: usize = 0;
    assert(piers@ =~= overlaid(before, images.take(0)));
    while i < piers.len() && i < reference.len()
        invariant
            i <= before.len(),
            i <= reference.len(),
            images == reference@.map_values(|e: Edge| e.transformed(t)),
            piers@ == overlaid(before, images.take(i as int)),
        decreases before.len() - i,
    {
        piers.set(i, reference[i].transformed(t));
        i = i + 1;
        assert(piers@ =~= overlaid(before, images.take(i as int)));
    }
    assert(piers@ =~= overlaid(before, images));
}

impl SPSurrogateConfig {
    /// A configuration without poles and piers.
    pub fn none() -> (r: SPSurrogateConfig)
        ensures
            forall|i: int| 0 <= i < 3 ==> #[trigger] r.n_pole_limits[i] == (0usize, Num::zero()),
            r.n_ff_poles == 0,
            r.n_ff_piers == 0,
    {
        SPSurrogateConfig {
            n_pole_limits: [(0, Num::zero()), (0, Num::zero()), (0, Num::zero())],
            n_ff_poles: 0,
            n_ff_piers: 0,
        }
    }

    /// Whether the two configurations ask for the same.
    pub open spec fn spec_same_as(self, other: SPSurrogateConfig) -> bool {
        &&& forall|i: int|
            0 <= i < 3 ==> (#[trigger] self.n_pole_limits[i]).0 == other.n_pole_limits[i].0
                && self.n_pole_limits[i].1.num_eq(other.n_pole_limits[i].1)
        &&& self.n_ff_poles == other.n_ff_poles
        &&& self.n_ff_piers == other.n_ff_piers
    }

    #[verifier::loop_isolation(false)]
    #[verifier::when_used_as_spec(spec_same_as)]
    pub fn same_as(self, other: SPSurrogateConfig) -> (r: bool)
        ensures
            r == self.spec_same_as(other),
    {
        if self.n_ff_poles != other.n_ff_poles || self.n_ff_piers != other.n_ff_piers {
            return false;
        }
        let mut i: usize = 0;
        while i < 3
            invariant
                i <= 3,
                forall|j: int|
                    0 <= j < i ==> (#[trigger] self.n_pole_limits[j]).0 == other.n_pole_limits[j].0
                        && self.n_pole_limits[j].1.num_eq(other.n_pole_limits[j].1),
            decreases 3 - i,
        {
            let (n, c): (usize, Num) = self.n_pole_limits[i];
            let (other_n, other_c): (usize, Num) = other.n_pole_limits[i];
            if n != other_n || !c.num_eq(other_c) {
                assert(self.n_pole_limits[i as int] == (n, c));
                return false;
            }
            i = i + 1;
        }
        true
    }
}

impl SPSurrogate {
    /// Generates the surrogate of a polygon.
    pub fn new<
        I: Fn(&SPolygon) -> Vec<usize>,
        H: Fn(&SPolygon) -> Vec<Point>,
        C: Fn(&SPolygon, &[(usize, Num); 3]) -> Result<Vec<Circle>, GeometryError>,
        E: Fn(&SPolygon, usize, &Vec<Circle>) -> Result<Vec<Edge>, GeometryError>,
    >(simple_poly: &SPolygon, config: SPSurrogateConfig, tools: &SurrogateTools<I, H, C, E>) -> (r:
        Result<SPSurrogate, GeometryError>)
        requires
            tools.usable(),
        ensures
            tools.generates(simple_poly, config, r),
    {
        let find_indices: &I = &tools.hull_indices;
        let find_points: &H = &tools.hull_points;
        let find_poles: &C = &tools.poles;
        let find_piers: &E = &tools.piers;
        let convex_hull_indices: Vec<usize> = find_indices(simple_poly);
        let convex_hull_points: Vec<Point> = find_points(simple_poly);
        let convex_hull_area: Num = calculate_chord_area(&convex_hull_points).max(simple_poly.area);
        let poles: Vec<Circle> = match find_poles(simple_poly, &config.n_pole_limits) {
            Ok(poles) => poles,
            Err(e) => return Err(e),
        };
        let n_ff_poles: usize = if config.n_ff_poles <= poles.len() {
            config.n_ff_poles
        } else {
            poles.len()
        };
        let mut tested: Vec<Circle> = Vec::new();
        let mut i: usize = 0;
        while i < n_ff_poles
            invariant
                i <= n_ff_poles <= poles.len(),
                tested@ == poles@.take(i as int),
            decreases n_ff_poles - i,
        {
            tested.push(poles[i]);
            i = i + 1;
            assert(tested@ =~= poles@.take(i as int));
        }
        let piers: Vec<Edge> = match find_piers(simple_poly, config.n_ff_piers, &tested) {
            Ok(piers) => piers,
            Err(e) => return Err(e),
        };
        Ok(
            SPSurrogate {
                poles,
                piers,
                convex_hull_indices,
                convex_hull_points,
                convex_hull_area,
                config,
            },
        )
    }

    /// Moves the surrogate.
    pub fn transform(&mut self, t: Transformation)
        ensures
            final(self)@ == old(self)@.transformed(t),
    {
        let copy: SPSurrogate = self.duplicate();
        self.transform_from(&copy, t);
        assert(self.poles@ =~= old(self)@.transformed(t).poles);
        assert(self.piers@ =~= old(self)@.transformed(t).piers);
        assert(self.convex_hull_points@ =~= old(self)@.transformed(t).convex_hull_points);
    }

    /// Moves the poles, piers and hull points to the images of those of another surrogate, as
    /// far as both reach.
    pub fn transform_from(&mut self, reference: &SPSurrogate, t: Transformation)
        ensures
            final(self)@ == old(self)@.overlaid_with(reference@.transformed(t)),
    {
        transform_points_from(&mut self.convex_hull_points, &reference.convex_hull_points, t);
        transform_poles_from(&mut self.poles, &reference.poles, t);
        transform_piers_from(&mut self.piers, &reference.piers, t);
    }

    /// The poles to test during fail-fast.
    pub fn ff_poles(&self) -> (r: &[Circle])
        requires
            self.config.n_ff_poles <= self.poles.len(),
        ensures
            r@ == self.poles@.take(self.config.n_ff_poles as int),
    {
        let r: &[Circle] = vstd::slice::slice_subrange(
            self.poles.as_slice(),
            0,
            self.config.n_ff_poles,
        );
        assert(r@ =~= self.poles@.take(self.config.n_ff_poles as int));
        r
    }

    /// The piers to test during fail-fast.
    pub fn ff_piers(&self) -> (r: &[Edge])
        ensures
            r@ == self.piers@,
    {
        self.piers.as_slice()
    }

    /// An equal surrogate.
    pub fn duplicate(&self) -> (r: SPSurrogate)
        ensures
            r@ == self@,
    {
        let r: SPSurrogate = SPSurrogate {
            poles: self.poles.clone(),
            piers: self.piers.clone(),
            convex_hull_indices: self.convex_hull_indices.clone(),
            convex_hull_points: self.convex_hull_points.clone(),
            convex_hull_area: self.convex_hull_area,
            config: self.config,
        };
        assert(r.poles@ =~= self.poles@);
        assert(r.piers@ =~= self.piers@);
        assert(r.convex_hull_indices@ =~= self.convex_hull_indices@);
        assert(r.convex_hull_points@ =~= self.convex_hull_points@);
        r
    }
}

/// The hull of a surrogate has at least the area of the polygon.
pub proof fn hull_area_covers_the_shape<
    I: Fn(&SPolygon) -> Vec<usize>,
    H: Fn(&SPolygon) -> Vec<Point>,
    C: Fn(&SPolygon, &[(usize, Num); 3]) -> Result<Vec<Circle>, GeometryError>,
    E: Fn(&SPolygon, usize, &Vec<Circle>) -> Result<Vec<Edge>, GeometryError>,
>(
    shape: &SPolygon,
    config: SPSurrogateConfig,
    tools: &SurrogateTools<I, H, C, E>,
    surrogate: SPSurrogate,
)
    requires
        tools.generates(shape, config, Ok(surrogate)),
        !shape.area.is_nan(),
    ensures
        shape.area.le(surrogate.convex_hull_area),
{
}

} // verus!
