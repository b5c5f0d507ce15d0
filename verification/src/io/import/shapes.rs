//! Making polygons of external shapes.
use vstd::prelude::*;

use crate::error::GeometryError;
use crate::geometry::primitives::arc::point_on_circle;
use crate::geometry::primitives::boundary::bulge_epsilon;
use crate::geometry::primitives::circle::Circle;
use crate::geometry::primitives::edge::Edge;
use crate::geometry::primitives::point::Point;
use crate::geometry::primitives::rect::Rect;
use crate::geometry::primitives::simple_polygon::{no_bulges, SPolygon, Toolkit};
use crate::io::ext_repr::{ExtArcSeg, ExtBulgedPolygon, ExtSPolygon, ExtShape};
use crate::io::import::boundaries::{
    build_simple, import_boundary_parts, import_bulged_vertices, points_match,
    split_count_for_sweep,
};
use crate::math::{evaluate, evaluates, Elementary};
use crate::num::Num;

verus! {

/// Whether imported curved shapes keep their arcs or are converted to straight segments.
#[derive(Clone, Copy, Debug, PartialEq, Eq)]
pub enum CurvedGeometryMode {
    Native,
    Tessellated { tolerance: Num },
}

/// The places of the vertices of an external polygon.
pub open spec fn vertices_of(sp: &ExtSPolygon) -> Seq<Point> {
    sp.0@.map_values(|v: (Num, Num)| Point(v.0, v.1))
}

/// `r` is a possible outcome when a polygon with straight sides is imported.
pub open spec fn is_straight_import<
    M: Fn(Elementary) -> Num,
    P: Fn(&SPolygon) -> Result<Circle, GeometryError>,
>(sp: &ExtSPolygon, tools: &Toolkit<M, P>, r: Result<SPolygon, GeometryError>) -> bool {
    crate::io::import::boundaries::is_imported(
        vertices_of(sp),
        crate::geometry::primitives::simple_polygon::straight_bulges(sp.0@.len()),
        tools,
        r,
    )
}

/// Imports a polygon with straight sides.
pub fn import_simple_polygon<
    M: Fn(Elementary) -> Num,
    P: Fn(&SPolygon) -> Result<Circle, GeometryError>,
>(sp: &ExtSPolygon, tools: &Toolkit<M, P>) -> (r: Result<SPolygon, GeometryError>)
    requires
        tools.usable(),
    ensures
        is_straight_import(sp, tools, r),
        r matches Ok(shape) ==> shape.valid(&tools.math),
{
    let mut vertices: Vec<(Num, Num, Num)> = Vec::new();
    let mut i: usize = 0;
    while i < sp.0.len()
        invariant
            i <= sp.0@.len(),
            vertices@.len() == i,
            forall|j: int|
                0 <= j < i ==> (#[trigger] vertices@[j]) == (sp.0@[j].0, sp.0@[j].1, Num::zero()),
        decreases sp.0.len() - i,
    {
        let (x, y): (Num, Num) = sp.0[i];
        vertices.push((x, y, Num::zero()));
        i = i + 1;
    }
    assert(crate::io::import::boundaries::places(vertices@) =~= vertices_of(sp));
    assert(crate::io::import::boundaries::bulges_of(vertices@)
        =~= crate::geometry::primitives::simple_polygon::straight_bulges(sp.0@.len()));
    import_bulged_vertices(&vertices, tools)
}

/// `r` is a possible outcome when a polygon with bulges is imported.
pub open spec fn is_bulged_import<
    M: Fn(Elementary) -> Num,
    P: Fn(&SPolygon) -> Result<Circle, GeometryError>,
>(sp: &ExtBulgedPolygon, tools: &Toolkit<M, P>, r: Result<SPolygon, GeometryError>) -> bool {
    crate::io::import::boundaries::is_imported(
        crate::io::import::boundaries::places(sp.0@),
        crate::io::import::boundaries::bulges_of(sp.0@),
        tools,
        r,
    )
}

/// Imports a polygon with bulges.
pub fn import_bulged_polygon<
    M: Fn(Elementary) -> Num,
    P: Fn(&SPolygon) -> Result<Circle, GeometryError>,
>(sp: &ExtBulgedPolygon, tools: &Toolkit<M, P>) -> (r: Result<SPolygon, GeometryError>)
    requires
        tools.usable(),
    ensures
        is_bulged_import(sp, tools, r),
        r matches Ok(shape) ==> shape.valid(&tools.math),
{
    import_bulged_vertices(&sp.0, tools)
}

/// The four vertices of a circle.
pub open spec fn circle_vertices(cx: Num, cy: Num, r: Num) -> Seq<Point> {
    seq![
        Point(cx.add(r), cy),
        Point(cx, cy.add(r)),
        Point(cx.sub(r), cy),
        Point(cx, cy.sub(r)),
    ]
}

pub open spec fn spec_quarter_bulge<M: Fn(Elementary) -> Num>(math: &M) -> Num {
    evaluate(math, Elementary::Tan(Num::frac_pi_2().div(Num::four())))
}

/// The bulge of a quarter turn.
#[verifier::when_used_as_spec(spec_quarter_bulge)]
pub fn quarter_bulge<M: Fn(Elementary) -> Num>(math: &M) -> (r: Num)
    requires
        evaluates(math),
    ensures
        r == spec_quarter_bulge(math),
{
    evaluate(math, Elementary::Tan(Num::frac_pi_2().div(Num::four())))
}

/// `shape` is a possible outcome when a circle is imported.
pub open spec fn is_circle_import<
    M: Fn(Elementary) -> Num,
    P: Fn(&SPolygon) -> Result<Circle, GeometryError>,
>(
    cx: Num,
    cy: Num,
    r: Num,
    tools: &Toolkit<M, P>,
    shape: Result<SPolygon, GeometryError>,
) -> bool {
    if !cx.is_finite() || !cy.is_finite() {
        shape == Err::<SPolygon, _>(GeometryError::InvalidCircleCenter)
    } else if !r.is_finite() || !r.gt(Num::zero()) {
        shape == Err::<SPolygon, _>(GeometryError::InvalidCircleRadius)
    } else {
        crate::io::import::boundaries::is_imported(
            circle_vertices(cx, cy, r),
            Seq::new(4, |i: int| quarter_bulge(&tools.math)),
            tools,
            shape,
        )
    }
}

/// Imports a circle as four quarter arcs.
pub fn import_circle<
    M: Fn(Elementary) -> Num,
    P: Fn(&SPolygon) -> Result<Circle, GeometryError>,
>(cx: Num, cy: Num, r: Num, tools: &Toolkit<M, P>) -> (shape: Result<SPolygon, GeometryError>)
    requires
        tools.usable(),
    ensures
        is_circle_import(cx, cy, r, tools, shape),
        shape matches Ok(s) ==> s.valid(&tools.math),
{
    if !cx.is_finite() || !cy.is_finite() {
        return Err(GeometryError::InvalidCircleCenter);
    }
    if !r.is_finite() || !r.gt(Num::zero()) {
        return Err(GeometryError::InvalidCircleRadius);
    }
    let bulge: Num = quarter_bulge(&tools.math);
    let vertices: [(Num, Num, Num); 4] = [
        (cx.add(r), cy, bulge),
        (cx, cy.add(r), bulge),
        (cx.sub(r), cy, bulge),
        (cx, cy.sub(r), bulge),
    ];
    assert(crate::io::import::boundaries::places(vertices@) =~= circle_vertices(cx, cy, r));
    assert(crate::io::import::boundaries::bulges_of(vertices@) =~= Seq::new(
        4,
        |i: int| quarter_bulge(&tools.math),
    ));
    import_bulged_vertices(&vertices, tools)
}

/// A chain of arcs: their vertices and bulges, where it starts and where it ends.
pub struct ChainModel {
    pub points: Seq<Point>,
    pub bulges: Seq<Num>,
    pub first: Option<Point>,
    pub end: Option<Point>,
}

/// The greatest sweep of a part of an arc that is given explicitly: a quarter turn.
#[verifier::allow_in_spec]
pub fn max_explicit_arc_sweep() -> Num
    returns
        Num::frac_pi_2(),
{
    Num::frac_pi_2()
}

/// What is wrong with an arc, if anything is.
pub open spec fn spec_arc_fault(arc: ExtArcSeg) -> Option<GeometryError> {
    if !(arc.center.0.is_finite() && arc.center.1.is_finite() && arc.radius.is_finite()
        && arc.start_angle.is_finite() && arc.sweep.is_finite()) {
        Some(GeometryError::InvalidArcSegment)
    } else if !arc.radius.gt(Num::zero()) {
        Some(GeometryError::InvalidArcRadius)
    } else if !arc.sweep.abs().gt(bulge_epsilon()) {
        Some(GeometryError::ZeroArcSweep)
    } else {
        None
    }
}

#[verifier::when_used_as_spec(spec_arc_fault)]
pub fn arc_fault(arc: ExtArcSeg) -> (r: Option<GeometryError>)
    ensures
        r == spec_arc_fault(arc),
{
    if !(arc.center.0.is_finite() && arc.center.1.is_finite() && arc.radius.is_finite()
        && arc.start_angle.is_finite() && arc.sweep.is_finite()) {
        Some(GeometryError::InvalidArcSegment)
    } else if !arc.radius.gt(Num::zero()) {
        Some(GeometryError::InvalidArcRadius)
    } else if !arc.sweep.abs().gt(bulge_epsilon()) {
        Some(GeometryError::ZeroArcSweep)
    } else {
        None
    }
}

pub open spec fn spec_arc_place<M: Fn(Elementary) -> Num>(
    arc: ExtArcSeg,
    angle: Num,
    math: &M,
) -> Point {
    point_on_circle(Point(arc.center.0, arc.center.1), arc.radius, angle, math)
}

/// The point of the circle of an arc at an angle.
#[verifier::when_used_as_spec(spec_arc_place)]
pub fn arc_place<M: Fn(Elementary) -> Num>(arc: ExtArcSeg, angle: Num, math: &M) -> (r: Point)
    requires
        evaluates(math),
    ensures
        r == spec_arc_place(arc, angle, math),
{
    point_on_circle(Point(arc.center.0, arc.center.1), arc.radius, angle, math)
}

/// The vertices of an arc that is cut into equal parts of no more than a quarter turn.
pub open spec fn explicit_parts<M: Fn(Elementary) -> Num>(arc: ExtArcSeg, math: &M) -> Seq<Point> {
    let n = split_count_for_sweep(arc.sweep, max_explicit_arc_sweep());
    let step = arc.sweep.div(Num::from_usize(n));
    Seq::new(
        n as nat,
        |part: int|
            arc_place(
                arc,
                arc.start_angle.add(step.mul(Num::from_usize(part as usize))),
                math,
            ),
    )
}

/// The bulges of the parts of such an arc.
pub open spec fn explicit_bulges<M: Fn(Elementary) -> Num>(arc: ExtArcSeg, math: &M) -> Seq<Num> {
    let n = split_count_for_sweep(arc.sweep, max_explicit_arc_sweep());
    let step = arc.sweep.div(Num::from_usize(n));
    Seq::new(n as nat, |part: int| evaluate(math, Elementary::Tan(step.div(Num::four()))))
}

/// A chain with one more arc, which must start where the chain ends.
pub open spec fn extended<M: Fn(Elementary) -> Num>(
    chain: ChainModel,
    arc: ExtArcSeg,
    math: &M,
) -> Result<ChainModel, GeometryError> {
    let start = arc_place(arc, arc.start_angle, math);
    if arc_fault(arc) is Some {
        Err(arc_fault(arc)->0)
    } else if chain.end is Some && !points_match(start, chain.end->0) {
        Err(GeometryError::NonContiguousArcs)
    } else {
        Ok(
            ChainModel {
                points: chain.points + explicit_parts(arc, math),
                bulges: chain.bulges + explicit_bulges(arc, math),
                first: if chain.end is Some {
                    chain.first
                } else {
                    Some(start)
                },
                end: Some(arc_place(arc, arc.start_angle.add(arc.sweep), math)),
            },
        )
    }
}

/// The chain of the first `n` arcs, or what is wrong with the first that does not fit.
pub open spec fn chained<M: Fn(Elementary) -> Num>(
    arcs: Seq<ExtArcSeg>,
    n: nat,
    math: &M,
) -> Result<ChainModel, GeometryError>
    decreases n,
{
    if n == 0 {
        Ok(ChainModel { points: Seq::empty(), bulges: Seq::empty(), first: None, end: None })
    } else {
        match chained(arcs, (n - 1) as nat, math) {
            Err(e) => Err(e),
            Ok(before) => extended(before, arcs[n - 1], math),
        }
    }
}

proof fn lemma_chain_failure_is_final<M: Fn(Elementary) -> Num>(
    arcs: Seq<ExtArcSeg>,
    n: nat,
    m: nat,
    math: &M,
)
    requires
        n <= m,
        chained(arcs, n, math) is Err,
    ensures
        chained(arcs, m, math) == chained(arcs, n, math),
    decreases m,
{
    if n < m {
        lemma_chain_failure_is_final(arcs, n, (m - 1) as nat, math);
    }
}

/// The chain of the arcs, which must close up.
pub open spec fn closed_chain<M: Fn(Elementary) -> Num>(arcs: Seq<ExtArcSeg>, math: &M) -> Result<
    ChainModel,
    GeometryError,
> {
    if arcs.len() == 0 {
        Err(GeometryError::NoArcSegments)
    } else {
        match chained(arcs, arcs.len(), math) {
            Err(e) => Err(e),
            Ok(chain) => if points_match(chain.end->0, chain.first->0) {
                Ok(chain)
            } else {
                Err(GeometryError::OpenArcBoundary)
            },
        }
    }
}

/// `r` is a possible outcome when a chain of arcs is imported.
pub open spec fn is_arcs_import<
    M: Fn(Elementary) -> Num,
    P: Fn(&SPolygon) -> Result<Circle, GeometryError>,
>(arcs: Seq<ExtArcSeg>, tools: &Toolkit<M, P>, r: Result<SPolygon, GeometryError>) -> bool {
    match closed_chain(arcs, &tools.math) {
        Err(e) => r == Err::<SPolygon, _>(e),
        Ok(chain) => crate::io::import::boundaries::is_imported_boundary(
            chain.points,
            chain.bulges,
            tools,
            r,
        ),
    }
}

fn push_explicit_parts<M: Fn(Elementary) -> Num>(
    points: &mut Vec<Point>,
    bulges: &mut Vec<Num>,
    arc: ExtArcSeg,
    math: &M,
)
    requires
        evaluates(math),
    ensures
        final(points)@ == old(points)@ + explicit_parts(arc, math),
        final(bulges)@ == old(bulges)@ + explicit_bulges(arc, math),
{
    let n: usize = split_count_for_sweep(arc.sweep, max_explicit_arc_sweep());
    let step: Num = arc.sweep.div(Num::from_usize(n));
    let bulge: Num = evaluate(math, Elementary::Tan(step.div(Num::four())));
    let ghost parts = explicit_parts(arc, math);
    let ghost part_bulges = explicit_bulges(arc, math);
    let ghost before = (points@, bulges@);
    let mut part: usize = 0;
    assert(points@ =~= before.0 + parts.take(0));
    assert(bulges@ =~= before.1 + part_bulges.take(0));
    while part < n
        invariant
            part <= n,
            n == split_count_for_sweep(arc.sweep, max_explicit_arc_sweep()),
            step == arc.sweep.div(Num::from_usize(n)),
            bulge == evaluate(math, Elementary::Tan(step.div(Num::four()))),
            evaluates(math),
            parts == explicit_parts(arc, math),
            part_bulges == explicit_bulges(arc, math),
            points@ == before.0 + parts.take(part as int),
            bulges@ == before.1 + part_bulges.take(part as int),
        decreases n - part,
    {
        let angle: Num = arc.start_angle.add(step.mul(Num::from_usize(part)));
        points.push(arc_place(arc, angle, math));
        bulges.push(bulge);
        part = part + 1;
        assert(points@ =~= before.0 + parts.take(part as int));
        assert(bulges@ =~= before.1 + part_bulges.take(part as int));
    }
    assert(parts.take(n as int) =~= parts);
    assert(part_bulges.take(n as int) =~= part_bulges);
}

/// Imports arcs that follow each other and close up.
pub fn import_arc_segments<
    M: Fn(Elementary) -> Num,
    P: Fn(&SPolygon) -> Result<Circle, GeometryError>,
>(arcs: &[ExtArcSeg], tools: &Toolkit<M, P>) -> (r: Result<SPolygon, GeometryError>)
    requires
        tools.usable(),
    ensures
        is_arcs_import(arcs@, tools, r),
        r matches Ok(shape) ==> shape.valid(&tools.math),
{
    if arcs.len() == 0 {
        return Err(GeometryError::NoArcSegments);
    }
    let math: &M = &tools.math;
    let mut points: Vec<Point> = Vec::new();
    let mut bulges: Vec<Num> = Vec::new();
    let mut first: Point = arc_place(arcs[0], arcs[0].start_angle, math);
    let mut end: Point = first;
    let mut i: usize = 0;
    while i < arcs.len()
        invariant
            i <= arcs@.len(),
            arcs@.len() > 0,
            evaluates(math),
            *math == tools.math,
            chained(arcs@, i as nat, math) == Ok::<_, GeometryError>(
                ChainModel {
                    points: points@,
                    bulges: bulges@,
                    first: if i == 0 {
                        None
                    } else {
                        Some(first)
                    },
                    end: if i == 0 {
                        None
                    } else {
                        Some(end)
                    },
                },
            ),
        decreases arcs.len() - i,
    {
        let arc: ExtArcSeg = arcs[i];
        proof {
            if chained(arcs@, (i + 1) as nat, math) is Err {
                lemma_chain_failure_is_final(arcs@, (i + 1) as nat, arcs@.len(), math);
            }
        }
        match arc_fault(arc) {
            Some(e) => return Err(e),
            None => {},
        }
        let start: Point = arc_place(arc, arc.start_angle, math);
        if i == 0 {
            first = start;
        } else if !points_match(start, end) {
            return Err(GeometryError::NonContiguousArcs);
        }
        push_explicit_parts(&mut points, &mut bulges, arc, math);
        end = arc_place(arc, arc.start_angle.add(arc.sweep), math);
        i = i + 1;
    }
    if !points_match(end, first) {
        return Err(GeometryError::OpenArcBoundary);
    }
    import_boundary_parts(points, bulges, tools)
}

/// `r` is a possible outcome when an external shape is imported.
pub open spec fn is_shape_import<
    M: Fn(Elementary) -> Num,
    P: Fn(&SPolygon) -> Result<Circle, GeometryError>,
>(shape: &ExtShape, tools: &Toolkit<M, P>, r: Result<SPolygon, GeometryError>) -> bool {
    match shape {
        ExtShape::Rectangle { x_min, y_min, width, height } => match Rect::try_new(
            *x_min,
            *y_min,
            x_min.add(*width),
            y_min.add(*height),
        ) {
            Err(e) => r == Err::<SPolygon, _>(e),
            Ok(rect) => crate::geometry::primitives::simple_polygon::is_built(
                seq![
                    Point(rect.x_min, rect.y_min),
                    Point(rect.x_max, rect.y_min),
                    Point(rect.x_max, rect.y_max),
                    Point(rect.x_min, rect.y_max),
                ],
                crate::geometry::primitives::simple_polygon::straight_bulges(4),
                tools,
                crate::geometry::primitives::simple_polygon::modelled(r),
            ),
        },
        ExtShape::Circle { cx, cy, r: radius } => is_circle_import(*cx, *cy, *radius, tools, r),
        ExtShape::SimplePolygon(esp) => is_straight_import(esp, tools, r),
        ExtShape::BulgedPolygon(ebp) => is_bulged_import(ebp, tools, r),
        ExtShape::Arcs(arcs) => is_arcs_import(arcs@, tools, r),
        ExtShape::Polygon(ep) => is_straight_import(&ep.outer, tools, r),
        ExtShape::MultiPolygon(_) => r == Err::<SPolygon, _>(
            GeometryError::UnsupportedMultiPolygon,
        ),
    }
}

/// Imports an external shape; of a polygon with holes, its outer boundary.
pub fn import_shape_as_simple_polygon<
    M: Fn(Elementary) -> Num,
    P: Fn(&SPolygon) -> Result<Circle, GeometryError>,
>(shape: &ExtShape, tools: &Toolkit<M, P>) -> (r: Result<SPolygon, GeometryError>)
    requires
        tools.usable(),
    ensures
        is_shape_import(shape, tools, r),
        r matches Ok(s) ==> s.valid(&tools.math),
{
    match shape {
        ExtShape::Rectangle { x_min, y_min, width, height } => match Rect::try_new(
            *x_min,
            *y_min,
            x_min.add(*width),
            y_min.add(*height),
        ) {
            Err(e) => Err(e),
            Ok(rect) => SPolygon::from_rect(rect, tools),
        },
        ExtShape::Circle { cx, cy, r } => import_circle(*cx, *cy, *r, tools),
        ExtShape::SimplePolygon(esp) => import_simple_polygon(esp, tools),
        ExtShape::BulgedPolygon(ebp) => import_bulged_polygon(ebp, tools),
        ExtShape::Arcs(arcs) => import_arc_segments(arcs, tools),
        ExtShape::Polygon(ep) => import_simple_polygon(&ep.outer, tools),
        ExtShape::MultiPolygon(_) => Err(GeometryError::UnsupportedMultiPolygon),
    }
}

/// The points where the edges start.
pub open spec fn starts(edges: Seq<Edge>) -> Seq<Point> {
    edges.map_values(|e: Edge| e.start)
}

/// `r` is a possible outcome when the curves of a shape are treated as asked for.
///
/// A shape stays as it is, unless it has arcs and they are to be converted.
pub open spec fn is_curve_treated<
    M: Fn(Elementary) -> Num,
    P: Fn(&SPolygon) -> Result<Circle, GeometryError>,
>(
    shape: &SPolygon,
    mode: CurvedGeometryMode,
    tools: &Toolkit<M, P>,
    r: Result<SPolygon, GeometryError>,
) -> bool {
    match mode {
        CurvedGeometryMode::Native => r == Ok::<_, GeometryError>(*shape),
        CurvedGeometryMode::Tessellated { tolerance } => {
            let segments = shape@.segments(&tools.math);
            if !tolerance.is_finite() || !tolerance.gt(Num::zero()) {
                r == Err::<SPolygon, _>(GeometryError::InvalidTessellationTolerance)
            } else if !shape.has_arcs() {
                r == Ok::<_, GeometryError>(*shape)
            } else if !crate::geometry::primitives::simple_polygon::queries::can_be_tessellated(
                segments,
                tolerance,
                &tools.math,
            ) {
                r == Err::<SPolygon, _>(GeometryError::DegenerateEdge)
            } else {
                let points = starts(
                    crate::geometry::primitives::simple_polygon::queries::all_tessellated(
                        segments,
                        tolerance,
                        &tools.math,
                    ),
                );
                crate::io::import::boundaries::is_built_simple(
                    points,
                    crate::geometry::primitives::simple_polygon::straight_bulges(points.len()),
                    tools,
                    r,
                )
            }
        },
    }
}

/// Converts the arcs of a shape to straight segments if asked for.
pub fn apply_curved_geometry_mode<
    M: Fn(Elementary) -> Num,
    P: Fn(&SPolygon) -> Result<Circle, GeometryError>,
>(shape: SPolygon, curved_geometry_mode: CurvedGeometryMode, tools: &Toolkit<M, P>) -> (r: Result<
    SPolygon,
    GeometryError,
>)
    requires
        tools.usable(),
        curved_geometry_mode is Tessellated && shape.has_arcs() ==> shape.valid(&tools.math),
    ensures
        is_curve_treated(&shape, curved_geometry_mode, tools, r),
        r matches Ok(s) ==> shape.valid(&tools.math) ==> s.valid(&tools.math),
{
    match curved_geometry_mode {
        CurvedGeometryMode::Native => Ok(shape),
        CurvedGeometryMode::Tessellated { tolerance } => {
            if !tolerance.is_finite() || !tolerance.gt(Num::zero()) {
                return Err(GeometryError::InvalidTessellationTolerance);
            }
            if !shape.has_arcs() {
                return Ok(shape);
            }
            let edges: Vec<Edge> = match shape.tessellated_edge_iter(tolerance, &tools.math) {
                Ok(edges) => edges,
                Err(e) => return Err(e),
            };
            let mut points: Vec<Point> = Vec::new();
            let mut i: usize = 0;
            while i < edges.len()
                invariant
                    i <= edges@.len(),
                    points@ == starts(edges@).take(i as int),
                decreases edges.len() - i,
            {
                points.push(edges[i].start);
                i = i + 1;
                assert(points@ =~= starts(edges@).take(i as int));
            }
            assert(points@ =~= starts(edges@));
            let bulges: Vec<Num> = no_bulges(points.len());
            build_simple(points, bulges, tools)
        },
    }
}

proof fn lemma_kept_zeros(points: Seq<Point>, bulges: Seq<Num>, n: nat)
    requires
        crate::geometry::primitives::laws::all_zero(bulges),
        n <= bulges.len(),
    ensures
        crate::geometry::primitives::laws::all_zero(crate::io::import::boundaries::kept(points, bulges, n)),
    decreases n,
{
    if n > 0 {
        lemma_kept_zeros(points, bulges, (n - 1) as nat);
    }
}

proof fn lemma_split_zeros<M: Fn(Elementary) -> Num>(
    points: Seq<Point>,
    bulges: Seq<Num>,
    max_sweep: Num,
    n: nat,
    math: &M,
)
    requires
        crate::geometry::primitives::laws::all_zero(bulges),
        n <= bulges.len(),
        crate::io::import::boundaries::needs_no_split(Num::zero(), max_sweep, math),
    ensures
        crate::io::import::boundaries::split_among(points, bulges, max_sweep, n, math) matches Ok(
            split,
        ) ==> crate::geometry::primitives::laws::all_zero(split.bulges),
    decreases n,
{
    if n > 0 {
        lemma_split_zeros(points, bulges, max_sweep, (n - 1) as nat, math);
    }
}

/// A polygon that is imported with straight sides has no arcs, provided that the greatest
/// sweep of a segment does not count as negative.
pub proof fn straight_imports_stay_straight<
    M: Fn(Elementary) -> Num,
    P: Fn(&SPolygon) -> Result<Circle, GeometryError>,
>(sp: &ExtSPolygon, tools: &Toolkit<M, P>, shape: SPolygon)
    requires
        is_straight_import(sp, tools, Ok(shape)),
        crate::io::import::boundaries::needs_no_split(
            Num::zero(),
            crate::io::import::boundaries::max_cavalier_sweep(),
            &tools.math,
        ),
    ensures
        !shape.has_arcs(),
        forall|i: int|
            0 <= i < shape.bulges@.len() ==> (#[trigger] shape.bulges@[i]).num_eq(Num::zero()),
{
    let points = vertices_of(sp);
    let bulges = crate::geometry::primitives::simple_polygon::straight_bulges(sp.0@.len());
    let open_points = crate::io::import::boundaries::opened(points, points);
    let open_bulges = crate::io::import::boundaries::opened(points, bulges);
    let clean = crate::io::import::boundaries::cleaned(points, bulges);
    assert(crate::geometry::primitives::laws::all_zero(open_bulges));
    lemma_kept_zeros(open_points, open_bulges, open_points.len());
    crate::io::import::boundaries::cleaning_keeps_bulges_with_vertices(
        open_points,
        open_bulges,
        open_points.len(),
    );
    lemma_split_zeros(
        clean.points,
        clean.bulges,
        crate::io::import::boundaries::max_cavalier_sweep(),
        clean.points.len(),
        &tools.math,
    );
    let split = crate::io::import::boundaries::split_boundary(
        clean.points,
        clean.bulges,
        crate::io::import::boundaries::max_cavalier_sweep(),
        &tools.math,
    )->Ok_0;
    crate::geometry::primitives::laws::straight_sides_make_no_arcs(
        split.points,
        split.bulges,
        tools,
        shape,
    );
}

/// A shape whose curves were converted to straight segments has no arcs.
pub proof fn tessellated_shapes_have_no_arcs<
    M: Fn(Elementary) -> Num,
    P: Fn(&SPolygon) -> Result<Circle, GeometryError>,
>(shape: &SPolygon, tolerance: Num, tools: &Toolkit<M, P>, r: SPolygon)
    requires
        is_curve_treated(shape, CurvedGeometryMode::Tessellated { tolerance }, tools, Ok(r)),
    ensures
        !r.has_arcs(),
{
    if shape.has_arcs() {
        let points = starts(
            crate::geometry::primitives::simple_polygon::queries::all_tessellated(
                shape@.segments(&tools.math),
                tolerance,
                &tools.math,
            ),
        );
        crate::geometry::primitives::laws::straight_sides_make_no_arcs(
            points,
            crate::geometry::primitives::simple_polygon::straight_bulges(points.len()),
            tools,
            r,
        );
    }
}

} // verus!
