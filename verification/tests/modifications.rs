use cavalier_contours::polyline::{PlineSource, Polyline};
use nesting_geometry::error::GeometryError;
use nesting_geometry::geometry::primitives::arc::PlineVertex;
use nesting_geometry::geometry::primitives::circle::Circle;
use nesting_geometry::geometry::primitives::edge::Edge;
use nesting_geometry::geometry::primitives::point::Point;
use nesting_geometry::geometry::primitives::simple_polygon::{SPolygon, Toolkit};
use nesting_geometry::geometry::shape_modification::candidates::{
    calculate_area_delta, calculate_intersection_in_front, candidate_is_valid, execute_candidate,
    replacing_vertex_convex_convex_candidate, Candidate, InvalidCandidate,
};
use nesting_geometry::geometry::shape_modification::concavities::close_narrow_concavities;
use nesting_geometry::geometry::shape_modification::corners::{list_corners, Corner, CornerType};
use nesting_geometry::geometry::shape_modification::offsetting::{
    largest_contour, offset_shape, Contour, OffsetTools,
};
use nesting_geometry::geometry::shape_modification::simplification::simplify_shape;
use nesting_geometry::geometry::shape_modification::validity::shape_modification_valid;
use nesting_geometry::geometry::shape_modification::{ShapeModifyConfig, ShapeModifyMode};
use nesting_geometry::math::Elementary;
use nesting_geometry::num::Num;

fn n(x: f64) -> Num {
    Num::from_bits(x.to_bits())
}

fn v(x: Num) -> f64 {
    f64::from_bits(x.to_bits())
}

fn p(x: f64, y: f64) -> Point {
    Point(n(x), n(y))
}

fn math(e: Elementary) -> Num {
    match e {
        Elementary::Sin(x) => n(v(x).sin()),
        Elementary::Cos(x) => n(v(x).cos()),
        Elementary::Tan(x) => n(v(x).tan()),
        Elementary::Acos(x) => n(v(x).acos()),
        Elementary::Atan(x) => n(v(x).atan()),
        Elementary::Atan2(y, x) => n(v(y).atan2(v(x))),
    }
}

fn center_of_box(shape: &SPolygon) -> Result<Circle, GeometryError> {
    let b = shape.bbox;
    let half = (v(b.x_max) - v(b.x_min)).min(v(b.y_max) - v(b.y_min)) / 2.0;
    Circle::try_new(
        p((v(b.x_min) + v(b.x_max)) / 2.0, (v(b.y_min) + v(b.y_max)) / 2.0),
        n(half),
    )
}

type Tools = Toolkit<
    fn(Elementary) -> Num,
    fn(&SPolygon) -> Result<Circle, GeometryError>,
>;

fn tools() -> Tools {
    Toolkit {
        math,
        pole: center_of_box,
    }
}

fn rounded_top_shape() -> SPolygon {
    SPolygon::new_with_bulges(
        vec![p(-1.0, 0.0), p(1.0, 0.0), p(1.0, 2.0), p(-1.0, 2.0)],
        vec![n(0.0), n(0.0), n(1.0), n(0.0)],
        &tools(),
    )
    .unwrap()
}

fn polygon(points: &[(f64, f64)]) -> SPolygon {
    SPolygon::new(points.iter().map(|(x, y)| p(*x, *y)).collect(), &tools()).unwrap()
}

fn buffer(points: &Vec<Point>, offset: Num) -> Vec<Vec<Point>> {
    let polygon = geo_types::Polygon::new(
        points.iter().map(|q| (v(q.0), v(q.1))).collect(),
        vec![],
    );
    geo_buffer::buffer_polygon_rounded(&polygon, v(offset))
        .0
        .iter()
        .map(|part| part.exterior().points().map(|q| p(q.x(), q.y())).collect())
        .collect()
}

fn parallel_offset(polyline: &Vec<PlineVertex>, offset: Num) -> Vec<Contour> {
    let polyline: Polyline<f64> = Polyline {
        vertex_data: polyline
            .iter()
            .map(|w| cavalier_contours::polyline::PlineVertex::new(v(w.x), v(w.y), v(w.bulge)))
            .collect(),
        is_closed: true,
        userdata: Vec::new(),
    };
    polyline
        .parallel_offset(v(offset))
        .iter()
        .map(|contour| Contour {
            vertices: contour
                .vertex_data
                .iter()
                .map(|w| PlineVertex {
                    x: n(w.x),
                    y: n(w.y),
                    bulge: n(w.bulge),
                })
                .collect(),
            area: n(contour.area()),
        })
        .collect()
}

type Buffer = fn(&Vec<Point>, Num) -> Vec<Vec<Point>>;
type Parallel = fn(&Vec<PlineVertex>, Num) -> Vec<Contour>;

fn offset_tools() -> OffsetTools<Buffer, Parallel> {
    OffsetTools {
        buffer,
        parallel_offset,
    }
}

#[test]
fn simplify_and_concavity_closing_skip_arc_bearing_shapes() {
    let shape = rounded_top_shape();

    let simplified =
        simplify_shape(&shape, ShapeModifyMode::Inflate, n(0.5), &tools()).unwrap();
    let closed = close_narrow_concavities(
        &shape,
        ShapeModifyMode::Inflate,
        (n(0.5), n(0.5)),
        &tools(),
    )
    .unwrap();

    assert_eq!(simplified.vertices, shape.vertices);
    assert_eq!(simplified.bulges, shape.bulges);
    assert_eq!(closed.vertices, shape.vertices);
    assert_eq!(closed.bulges, shape.bulges);
}

#[test]
fn curved_offset_uses_cavalier_and_preserves_arcs() {
    let shape = rounded_top_shape();

    let inflated = offset_shape(
        &shape,
        ShapeModifyMode::Inflate,
        n(0.1),
        &offset_tools(),
        &tools(),
    )
    .unwrap();
    let deflated = offset_shape(
        &shape,
        ShapeModifyMode::Deflate,
        n(0.1),
        &offset_tools(),
        &tools(),
    )
    .unwrap();

    assert!(inflated.has_arcs());
    assert!(deflated.has_arcs());
    assert!(v(inflated.area) > v(shape.area));
    assert!(v(deflated.area) < v(shape.area));
}

#[test]
fn curved_offset_requires_curves_feature() {
    let shape = rounded_top_shape();
    let without_curves: OffsetTools<Buffer, Parallel> = OffsetTools {
        buffer,
        parallel_offset: |_, _| Vec::new(),
    };

    assert!(offset_shape(
        &shape,
        ShapeModifyMode::Inflate,
        n(0.1),
        &without_curves,
        &tools()
    )
    .is_err());
}

#[test]
fn straight_offsets_grow_and_shrink() {
    let square = polygon(&[(0.0, 0.0), (4.0, 0.0), (4.0, 4.0), (0.0, 4.0)]);
    let inflated = offset_shape(
        &square,
        ShapeModifyMode::Inflate,
        n(0.5),
        &offset_tools(),
        &tools(),
    )
    .unwrap();
    assert!(v(inflated.area) > 16.0 + 4.0 * 4.0 * 0.5);
    assert!(v(inflated.area) < 25.0);
    let deflated = offset_shape(
        &square,
        ShapeModifyMode::Deflate,
        n(0.5),
        &offset_tools(),
        &tools(),
    )
    .unwrap();
    assert!((v(deflated.area) - 9.0).abs() < 1.0e-6);
    assert!(!deflated.has_arcs());
    assert!(shape_modification_valid(
        &square,
        &inflated,
        ShapeModifyMode::Inflate,
        &math
    ));
    assert!(!shape_modification_valid(
        &square,
        &deflated,
        ShapeModifyMode::Inflate,
        &math
    ));
    assert!(shape_modification_valid(
        &square,
        &deflated,
        ShapeModifyMode::Deflate,
        &math
    ));
    assert_eq!(
        offset_shape(
            &square,
            ShapeModifyMode::Deflate,
            n(5.0),
            &OffsetTools {
                buffer: |_: &Vec<Point>, _: Num| Vec::new(),
                parallel_offset,
            },
            &tools(),
        )
        .map(|_| ()),
        Err(GeometryError::EmptyOffset)
    );
}

#[test]
fn large_bulges_cannot_be_offset() {
    let mut shape = rounded_top_shape();
    shape.bulges[2] = n(1.5);
    assert_eq!(
        offset_shape(
            &shape,
            ShapeModifyMode::Inflate,
            n(0.1),
            &offset_tools(),
            &tools()
        )
        .map(|_| ()),
        Err(GeometryError::BulgeTooLargeForOffset)
    );
}

#[test]
fn the_last_of_the_largest_contours_is_taken() {
    let contour = |area: f64| Contour {
        vertices: Vec::new(),
        area: n(area),
    };
    assert_eq!(largest_contour(&[]), None);
    assert_eq!(
        largest_contour(&[contour(1.0), contour(-3.0), contour(3.0), contour(2.0)]),
        Some(2)
    );
}

#[test]
fn corners_turn_and_flip() {
    let points = [p(0.0, 0.0), p(1.0, 0.0), p(1.0, 1.0), p(0.5, 0.25)];
    let mut corner = Corner(0, 1, 2);
    assert_eq!(CornerType::from(corner.to_points(&points)), CornerType::Convex);
    corner.flip();
    assert_eq!(corner, Corner(2, 1, 0));
    assert_eq!(CornerType::from(corner.to_points(&points)), CornerType::Concave);
    corner.flip();
    assert_eq!(corner, Corner(0, 1, 2));
    let straight = [p(0.0, 0.0), p(1.0, 1.0), p(2.0, 2.0)];
    assert_eq!(CornerType::from(straight), CornerType::Collinear);
    // Where two of the points coincide, there is no turn.
    for points in [
        [p(0.1, 0.2), p(0.1, 0.2), p(3.0, 7.0)],
        [p(0.1, 0.2), p(3.0, 7.0), p(0.1, 0.2)],
        [p(0.1, 0.2), p(3.0, 7.0), p(3.0, 7.0)],
    ] {
        assert_eq!(CornerType::from(points), CornerType::Collinear);
    }
    assert_eq!(
        list_corners(3, ShapeModifyMode::Inflate),
        vec![Corner(2, 0, 1), Corner(0, 1, 2), Corner(1, 2, 0)]
    );
    assert_eq!(
        list_corners(3, ShapeModifyMode::Deflate),
        vec![Corner(0, 2, 1), Corner(2, 1, 0), Corner(1, 0, 2)]
    );
}

#[test]
fn sides_meet_in_front_or_not_at_all() {
    let edge = |a: (f64, f64), b: (f64, f64)| Edge::try_new(p(a.0, a.1), p(b.0, b.1)).unwrap();
    assert_eq!(
        calculate_intersection_in_front(
            edge((0.0, 0.0), (1.0, 1.0)),
            edge((4.0, 0.0), (3.0, 1.0))
        ),
        Some(p(2.0, 2.0))
    );
    assert_eq!(
        calculate_intersection_in_front(
            edge((1.0, 1.0), (0.0, 0.0)),
            edge((3.0, 1.0), (4.0, 0.0))
        ),
        None
    );
    assert_eq!(
        calculate_intersection_in_front(
            edge((0.0, 0.0), (1.0, 0.0)),
            edge((0.0, 1.0), (1.0, 1.0))
        ),
        None
    );
}

#[test]
fn candidates_replace_and_drop_vertices() {
    // A square with its upper right corner cut off.
    let outline = [
        p(0.0, 0.0),
        p(4.0, 0.0),
        p(4.0, 3.0),
        p(3.0, 4.0),
        p(0.0, 4.0),
    ];
    let c1 = Corner(1, 2, 3);
    let c2 = Corner(2, 3, 4);
    assert_eq!(
        replacing_vertex_convex_convex_candidate(&outline, (c1, c2)),
        Ok(p(4.0, 4.0))
    );
    let candidate = Candidate::ConvexConvex(c1, c2);
    assert_eq!(calculate_area_delta(&outline, &candidate), Ok(n(0.5)));
    assert!(candidate_is_valid(&outline, &candidate));
    assert_eq!(
        execute_candidate(&outline, &candidate),
        vec![p(0.0, 0.0), p(4.0, 0.0), p(4.0, 4.0), p(0.0, 4.0)]
    );
    let parallel = [p(0.0, 0.0), p(2.0, 0.0), p(2.0, 1.0), p(0.0, 1.0)];
    assert_eq!(
        replacing_vertex_convex_convex_candidate(&parallel, (Corner(0, 1, 2), Corner(1, 2, 3))),
        Err(InvalidCandidate)
    );
    let notched = [p(0.0, 0.0), p(2.0, 0.0), p(2.0, 2.0), p(1.0, 1.0), p(0.0, 2.0)];
    let concave = Candidate::Concave(Corner(2, 3, 4));
    assert_eq!(calculate_area_delta(&notched, &concave), Ok(n(1.0)));
    assert!(candidate_is_valid(&notched, &concave));
    assert_eq!(
        execute_candidate(&notched, &concave),
        vec![p(0.0, 0.0), p(2.0, 0.0), p(2.0, 2.0), p(0.0, 2.0)]
    );
}

#[test]
fn candidates_that_would_cross_a_side_are_invalid() {
    // A slot from below is in the way of the diagonal.
    let outline = [
        p(0.0, 0.0),
        p(1.9, 0.0),
        p(2.0, 3.5),
        p(2.1, 0.0),
        p(4.0, 0.0),
        p(4.0, 4.0),
        p(2.0, 3.6),
        p(0.0, 3.4),
    ];
    assert!(!candidate_is_valid(
        &outline,
        &Candidate::Concave(Corner(0, 3, 5))
    ));
}

#[test]
fn simplification_drops_what_changes_the_area_least() {
    // A straight vertex costs nothing, the shallow notch a little, the corners a lot.
    let shape = polygon(&[
        (0.0, 0.0),
        (5.0, 0.0),
        (10.0, 0.0),
        (10.0, 10.0),
        (5.0, 9.5),
        (0.0, 10.0),
    ]);
    let straight = simplify_shape(&shape, ShapeModifyMode::Inflate, n(0.001), &tools()).unwrap();
    assert_eq!(straight.n_vertices(), 5);
    assert_eq!(straight.area, shape.area);
    let inflated = simplify_shape(&shape, ShapeModifyMode::Inflate, n(0.1), &tools()).unwrap();
    assert_eq!(inflated.n_vertices(), 4);
    assert_eq!(v(inflated.area), 100.0);
    assert!(shape_modification_valid(
        &shape,
        &inflated,
        ShapeModifyMode::Inflate,
        &math
    ));
    let deflated = simplify_shape(&shape, ShapeModifyMode::Deflate, n(0.4), &tools()).unwrap();
    assert!(deflated.n_vertices() < 5);
    assert!(v(deflated.area) <= v(shape.area));
    assert!(shape_modification_valid(
        &shape,
        &deflated,
        ShapeModifyMode::Deflate,
        &math
    ));
}

#[test]
fn the_least_change_goes_first_whatever_its_place() {
    // The deep notch comes first along the outline, but only the shallow one may be filled.
    let shape = polygon(&[
        (0.0, 0.0),
        (5.0, 2.0),
        (10.0, 0.0),
        (10.0, 10.0),
        (5.0, 9.9),
        (0.0, 10.0),
    ]);
    let simplified = simplify_shape(&shape, ShapeModifyMode::Inflate, n(0.01), &tools()).unwrap();
    assert_eq!(simplified.n_vertices(), 5);
    assert!(simplified.vertices.contains(&p(5.0, 2.0)));
    assert!(!simplified.vertices.contains(&p(5.0, 9.9)));
    let filled = simplify_shape(&shape, ShapeModifyMode::Inflate, n(0.5), &tools()).unwrap();
    assert_eq!(v(filled.area), 100.0);
}

#[test]
fn simplification_fails_where_a_turn_is_undefined() {
    let mut shape = polygon(&[(0.0, 0.0), (1.0, 0.0), (1.0, 1.0), (0.0, 1.0)]);
    shape.vertices[2] = p(f64::NAN, 1.0);
    assert_eq!(
        simplify_shape(&shape, ShapeModifyMode::Inflate, n(0.1), &tools()).map(|_| ()),
        Err(GeometryError::UndefinedTurn)
    );
}

fn notched() -> SPolygon {
    // A square with a narrow slot from above.
    polygon(&[
        (0.0, 0.0),
        (10.0, 0.0),
        (10.0, 10.0),
        (5.5, 10.0),
        (5.2, 5.0),
        (4.8, 5.0),
        (4.5, 10.0),
        (0.0, 10.0),
    ])
}

#[test]
fn narrow_concavities_are_closed() {
    let shape = notched();
    let closed = close_narrow_concavities(
        &shape,
        ShapeModifyMode::Inflate,
        (n(0.2), n(0.2)),
        &tools(),
    )
    .unwrap();
    // The vertices of the slot are gone; those at its mouth are left.
    assert_eq!(closed.n_vertices(), 6);
    assert!(closed.vertices.iter().all(|q| v(q.1) != 5.0));
    assert!(v(closed.area) > v(shape.area));
    assert!(shape_modification_valid(
        &shape,
        &closed,
        ShapeModifyMode::Inflate,
        &math
    ));
}

#[test]
fn notches_of_one_vertex_are_closed() {
    let shape = polygon(&[
        (0.0, 0.0),
        (10.0, 0.0),
        (10.0, 10.0),
        (5.5, 10.0),
        (5.0, 5.0),
        (4.5, 10.0),
        (0.0, 10.0),
    ]);
    let cutoff = (n(0.1), n(0.1));
    let closed =
        close_narrow_concavities(&shape, ShapeModifyMode::Inflate, cutoff, &tools()).unwrap();
    assert_eq!(
        closed.vertices,
        vec![
            p(0.0, 0.0),
            p(10.0, 0.0),
            p(10.0, 10.0),
            p(5.5, 10.0),
            p(4.5, 10.0),
            p(0.0, 10.0)
        ]
    );
    // What is left has no concavity to close.
    let again =
        close_narrow_concavities(&closed, ShapeModifyMode::Inflate, cutoff, &tools()).unwrap();
    assert_eq!(again.vertices, closed.vertices);
    // A polygon that may only shrink keeps its notch.
    let kept =
        close_narrow_concavities(&shape, ShapeModifyMode::Deflate, cutoff, &tools()).unwrap();
    assert_eq!(kept.vertices, shape.vertices);
    // No edge is as short as nothing.
    let nothing = (n(0.0), n(1.0));
    let open =
        close_narrow_concavities(&shape, ShapeModifyMode::Inflate, nothing, &tools()).unwrap();
    assert_eq!(open.vertices, shape.vertices);
}

#[test]
fn narrow_prongs_are_cut_off_where_the_shape_may_only_shrink() {
    let shape = polygon(&[
        (0.0, 0.0),
        (10.0, 0.0),
        (10.0, 10.0),
        (5.2, 10.0),
        (5.0, 15.0),
        (4.8, 10.0),
        (0.0, 10.0),
    ]);
    let cutoff = (n(0.1), n(0.1));
    let cut =
        close_narrow_concavities(&shape, ShapeModifyMode::Deflate, cutoff, &tools()).unwrap();
    assert_eq!(
        cut.vertices,
        vec![
            p(0.0, 0.0),
            p(10.0, 0.0),
            p(10.0, 10.0),
            p(5.2, 10.0),
            p(4.8, 10.0),
            p(0.0, 10.0)
        ]
    );
    assert_eq!(v(cut.area), 100.0);
    // A polygon that may only grow keeps its prong.
    let kept =
        close_narrow_concavities(&shape, ShapeModifyMode::Inflate, cutoff, &tools()).unwrap();
    assert_eq!(kept.vertices, shape.vertices);
}

#[test]
fn wide_concavities_stay_open() {
    let shape = notched();
    // The mouth is one wide, and the diameter about fourteen.
    let too_far = close_narrow_concavities(
        &shape,
        ShapeModifyMode::Inflate,
        (n(0.02), n(0.2)),
        &tools(),
    )
    .unwrap();
    assert_eq!(too_far.vertices, shape.vertices);
    // The slot takes more than three hundredths of the area.
    let too_large = close_narrow_concavities(
        &shape,
        ShapeModifyMode::Inflate,
        (n(0.2), n(0.01)),
        &tools(),
    )
    .unwrap();
    assert!(too_large.n_vertices() > 6);
}

#[test]
fn shapes_cover_themselves() {
    let shape = notched();
    assert!(shape_modification_valid(
        &shape,
        &shape,
        ShapeModifyMode::Inflate,
        &math
    ));
    assert!(shape_modification_valid(
        &shape,
        &shape,
        ShapeModifyMode::Deflate,
        &math
    ));
}

#[test]
fn the_default_configuration_changes_nothing() {
    let config = ShapeModifyConfig::default();
    assert!(config.simplify_tolerance.is_none());
    assert!(config.offset.is_none());
    assert!(config.narrow_concavity_cutoff.is_none());
}

/// How often an outline goes round a place.
fn winding(outline: &[Point], x: f64, y: f64) -> i32 {
    let turn = |a: Point, b: Point| {
        (v(b.0) - v(a.0)) * (y - v(a.1)) - (v(b.1) - v(a.1)) * (x - v(a.0))
    };
    (0..outline.len())
        .map(|i| {
            let (a, b) = (outline[i], outline[(i + 1) % outline.len()]);
            if v(a.1) <= y && y < v(b.1) && turn(a, b) > 0.0 {
                1
            } else if v(b.1) <= y && y < v(a.1) && turn(a, b) < 0.0 {
                -1
            } else {
                0
            }
        })
        .sum()
}

fn assert_contains(outer: &SPolygon, inner: &SPolygon) {
    assert!(v(outer.area) >= v(inner.area));
    for i in -4..44 {
        for j in -4..84 {
            let (x, y) = (0.25 * i as f64 + 0.1, 0.25 * j as f64 + 0.07);
            assert!(winding(&outer.vertices, x, y) >= winding(&inner.vertices, x, y));
        }
    }
}

#[test]
fn modified_shapes_contain_or_are_contained() {
    let shape = polygon(&[
        (0.0, 0.0),
        (5.0, 0.4),
        (10.0, 0.0),
        (10.0, 9.0),
        (9.0, 10.0),
        (5.5, 10.0),
        (5.0, 5.0),
        (4.5, 10.0),
        (1.0, 10.2),
        (0.0, 9.0),
    ]);
    let inflated = simplify_shape(&shape, ShapeModifyMode::Inflate, n(0.05), &tools()).unwrap();
    assert!(inflated.n_vertices() < shape.n_vertices());
    assert_contains(&inflated, &shape);
    let deflated = simplify_shape(&shape, ShapeModifyMode::Deflate, n(0.05), &tools()).unwrap();
    assert!(deflated.n_vertices() < shape.n_vertices());
    assert_contains(&shape, &deflated);
    let cutoff = (n(0.1), n(0.1));
    let closed =
        close_narrow_concavities(&shape, ShapeModifyMode::Inflate, cutoff, &tools()).unwrap();
    assert!(closed.n_vertices() < shape.n_vertices());
    assert_contains(&closed, &shape);
}
