use nesting_geometry::error::GeometryError;
use nesting_geometry::geometry::fail_fast::sp_surrogate::{
    SPSurrogate, SPSurrogateConfig, SurrogateTools,
};
use nesting_geometry::geometry::geo_enums::GeoPosition;
use nesting_geometry::geometry::primitives::boundary::reverse_boundary;
use nesting_geometry::geometry::primitives::boundary_segment::BoundarySegment;
use nesting_geometry::geometry::primitives::circle::Circle;
use nesting_geometry::geometry::primitives::edge::Edge;
use nesting_geometry::geometry::primitives::point::Point;
use nesting_geometry::geometry::primitives::rect::Rect;
use nesting_geometry::geometry::primitives::simple_polygon::{SPolygon, Toolkit};
use nesting_geometry::geometry::transformation::Transformation;
use nesting_geometry::math::Elementary;
use nesting_geometry::num::Num;
use std::f64::consts::PI;

fn n(x: f64) -> Num {
    Num::from_bits(x.to_bits())
}

fn v(x: Num) -> f64 {
    f64::from_bits(x.to_bits())
}

fn p(x: f64, y: f64) -> Point {
    Point(n(x), n(y))
}

fn math(e: Elementary) -> Num {
    match e {
        Elementary::Sin(x) => n(v(x).sin()),
        Elementary::Cos(x) => n(v(x).cos()),
        Elementary::Tan(x) => n(v(x).tan()),
        Elementary::Acos(x) => n(v(x).acos()),
        Elementary::Atan(x) => n(v(x).atan()),
        Elementary::Atan2(y, x) => n(v(y).atan2(v(x))),
    }
}

fn center_of_box(shape: &SPolygon) -> Result<Circle, GeometryError> {
    let b = shape.bbox;
    let half = (v(b.x_max) - v(b.x_min)).min(v(b.y_max) - v(b.y_min)) / 2.0;
    Circle::try_new(
        p((v(b.x_min) + v(b.x_max)) / 2.0, (v(b.y_min) + v(b.y_max)) / 2.0),
        n(half),
    )
}

type Tools = Toolkit<
    fn(Elementary) -> Num,
    fn(&SPolygon) -> Result<Circle, GeometryError>,
>;

fn tools() -> Tools {
    Toolkit {
        math,
        pole: center_of_box,
    }
}

fn assert_close(actual: Num, expected: f64) {
    assert!(
        (v(actual) - expected).abs() < 1.0e-3,
        "actual={}, expected={}",
        v(actual),
        expected
    );
}

fn rounded_top_shape() -> SPolygon {
    SPolygon::new_with_bulges(
        vec![p(-1.0, 0.0), p(1.0, 0.0), p(1.0, 2.0), p(-1.0, 2.0)],
        vec![n(0.0), n(0.0), n(1.0), n(0.0)],
        &tools(),
    )
    .unwrap()
}

fn square() -> SPolygon {
    SPolygon::new(
        vec![p(0.0, 0.0), p(2.0, 0.0), p(2.0, 2.0), p(0.0, 2.0)],
        &tools(),
    )
    .unwrap()
}

#[test]
fn straight_polygon_segments_remain_chord_edges() {
    let shape = SPolygon::new(
        vec![p(0.0, 0.0), p(2.0, 0.0), p(2.0, 1.0), p(0.0, 1.0)],
        &tools(),
    )
    .unwrap();

    assert_eq!(shape.n_vertices(), 4);
    assert_eq!(shape.n_segments(), 4);
    assert!(!shape.has_arcs());
    assert!(shape.bulges.iter().all(|bulge| v(*bulge) == 0.0));
    assert!(matches!(shape.segment(0, &math), BoundarySegment::Line(_)));
    assert_eq!(shape.edge_iter().len(), shape.segment_iter(&math).len());
    assert_close(shape.area, 2.0);
    assert_close(shape.centroid(&math).0, 1.0);
    assert_close(shape.centroid(&math).1, 0.5);
}

#[test]
fn bulged_polygon_derived_fields_include_arc_extrema() {
    let shape = rounded_top_shape();

    assert!(shape.has_arcs());
    assert!(matches!(shape.segment(2, &math), BoundarySegment::Arc(_)));
    assert_close(shape.area, 4.0 + PI / 2.0);
    assert_close(shape.bbox.x_min, -1.0);
    assert_close(shape.bbox.x_max, 1.0);
    assert_close(shape.bbox.y_min, 0.0);
    assert_close(shape.bbox.y_max, 3.0);
    assert_close(shape.diameter, 10.0_f64.sqrt());

    let centroid = shape.centroid(&math);
    let semicircle_area = PI / 2.0;
    let semicircle_centroid_y = 2.0 + 4.0 / (3.0 * PI);
    let expected_centroid_y =
        (4.0 * 1.0 + semicircle_area * semicircle_centroid_y) / (4.0 + semicircle_area);
    assert_close(centroid.0, 0.0);
    assert_close(centroid.1, expected_centroid_y);

    assert!(shape.collides_with(p(0.0, 2.5), &math));
    assert!(!shape.collides_with(p(0.0, 3.2), &math));
}

#[test]
fn bulged_polygon_point_inclusion_ignores_tangent_ray_touch() {
    let shape = rounded_top_shape();

    assert!(shape.collides_with(p(0.0, 3.0), &math));
    assert!(!shape.collides_with(p(-0.5, 3.0), &math));
}

#[test]
fn bulged_polygon_tessellation_keeps_segment_order() {
    let shape = rounded_top_shape();
    let tessellated = shape.tessellated_edge_iter(n(0.01), &math).unwrap();

    assert!(tessellated.len() > shape.n_segments());
    assert_eq!(tessellated.first().unwrap().start, shape.vertex(0));
    assert_eq!(tessellated.last().unwrap().end, shape.vertex(0));
}

#[test]
fn clockwise_bulged_polygon_reverses_vertices_and_flips_bulges() {
    let shape = SPolygon::new_with_bulges(
        vec![p(-1.0, 2.0), p(1.0, 2.0), p(1.0, 0.0), p(-1.0, 0.0)],
        vec![n(-1.0), n(0.0), n(0.0), n(0.0)],
        &tools(),
    )
    .unwrap();

    assert_eq!(shape.vertices, rounded_top_shape().vertices);
    assert_eq!(
        shape.bulges.iter().map(|b| v(*b)).collect::<Vec<f64>>(),
        vec![0.0, 0.0, 1.0, 0.0]
    );
    assert_close(shape.area, 4.0 + PI / 2.0);
}

fn hull(shape: &SPolygon) -> Vec<Point> {
    let mut points = shape.boundary_points(&math);
    points.sort_by(|a, b| {
        (v(a.0), v(a.1))
            .partial_cmp(&(v(b.0), v(b.1)))
            .unwrap()
    });
    let mut chain: Vec<Point> = Vec::new();
    let reversed: Vec<Point> = points.iter().rev().copied().collect();
    for half in [points, reversed] {
        let start = chain.len();
        for q in half {
            while chain.len() >= start + 2 {
                let (a, b) = (chain[chain.len() - 2], chain[chain.len() - 1]);
                let cross = (v(b.0) - v(a.0)) * (v(q.1) - v(a.1))
                    - (v(b.1) - v(a.1)) * (v(q.0) - v(a.0));
                if cross > 0.0 {
                    break;
                }
                chain.pop();
            }
            chain.push(q);
        }
        chain.pop();
    }
    chain
}

fn hull_indices(shape: &SPolygon) -> Vec<usize> {
    hull(shape)
        .iter()
        .filter_map(|q| shape.vertices.iter().position(|w| w == q))
        .collect()
}

fn pole_alone(
    shape: &SPolygon,
    _limits: &[(usize, Num); 3],
) -> Result<Vec<Circle>, GeometryError> {
    Ok(vec![shape.poi, shape.poi])
}

fn one_pier(
    shape: &SPolygon,
    wanted: usize,
    poles: &Vec<Circle>,
) -> Result<Vec<Edge>, GeometryError> {
    if poles.len() > 1 {
        return Err(GeometryError::Supplied);
    }
    Ok(shape.edge_iter().into_iter().take(wanted).collect())
}

#[test]
fn surrogate_hull_area_accounts_for_curved_boundary() {
    let shape = rounded_top_shape();
    let tools = SurrogateTools {
        hull_indices,
        hull_points: hull,
        poles: pole_alone,
        piers: one_pier,
    };
    let surrogate = SPSurrogate::new(&shape, SPSurrogateConfig::none(), &tools).unwrap();

    assert!(surrogate
        .convex_hull_points
        .iter()
        .any(|point| v(point.0).abs() < 1.0e-3 && (v(point.1) - 3.0).abs() < 1.0e-3));
    assert!(v(surrogate.convex_hull_area) >= v(shape.area));
    assert!(v(surrogate.convex_hull_area) > 4.0 + PI / 2.0 - 1.0e-3);
}

#[test]
fn surrogates_are_generated_once_per_configuration() {
    let tools = SurrogateTools {
        hull_indices,
        hull_points: hull,
        poles: pole_alone,
        piers: one_pier,
    };
    let mut shape = square();
    let one_pole = SPSurrogateConfig {
        n_ff_poles: 1,
        n_ff_piers: 3,
        ..SPSurrogateConfig::none()
    };
    shape.generate_surrogate(one_pole, &tools).unwrap();
    assert_eq!(shape.surrogate().ff_poles().len(), 1);
    assert_eq!(shape.surrogate().ff_piers().len(), 3);
    assert_eq!(shape.surrogate().convex_hull_indices.len(), 4);
    assert_eq!(v(shape.surrogate().convex_hull_area), 4.0);

    shape.surrogate.as_mut().unwrap().piers.clear();
    shape.generate_surrogate(one_pole, &tools).unwrap();
    assert_eq!(shape.surrogate().ff_piers().len(), 0);

    // With two poles to be tested the piers fail, and the old surrogate stays.
    let two_poles = SPSurrogateConfig {
        n_ff_poles: 2,
        ..one_pole
    };
    assert_eq!(
        shape.generate_surrogate(two_poles, &tools),
        Err(GeometryError::Supplied)
    );
    assert_eq!(shape.surrogate().config.n_ff_poles, 1);
}

#[test]
fn each_invalid_boundary_gets_its_error() {
    let build = |points: Vec<Point>, bulges: Vec<f64>| {
        SPolygon::new_with_bulges(points, bulges.into_iter().map(n).collect(), &tools())
            .map(|_| ())
    };
    let triangle = || vec![p(0.0, 0.0), p(1.0, 0.0), p(0.0, 1.0)];
    assert_eq!(build(triangle(), vec![0.0; 3]), Ok(()));
    assert_eq!(
        build(vec![p(0.0, 0.0), p(1.0, 0.0)], vec![0.0; 2]),
        Err(GeometryError::TooFewPoints)
    );
    assert_eq!(
        build(triangle(), vec![0.0; 2]),
        Err(GeometryError::BulgeCountMismatch)
    );
    assert_eq!(
        build(triangle(), vec![0.0, f64::NAN, 0.0]),
        Err(GeometryError::InvalidBulge)
    );
    assert_eq!(
        build(
            vec![p(0.0, 0.0), p(1.0, 0.0), p(0.0, 1.0), p(-0.0, 0.0)],
            vec![0.0; 4]
        ),
        Err(GeometryError::DuplicatePoints)
    );
    assert_eq!(
        build(vec![p(0.0, 0.0), p(1.0, 1.0), p(2.0, 2.0)], vec![0.0; 3]),
        Err(GeometryError::NoArea)
    );
    assert_eq!(
        build(vec![p(0.0, 0.0), p(f64::NAN, 0.0), p(0.0, 1.0)], vec![0.0; 3]),
        Err(GeometryError::NoDiameter)
    );
    let failing: Toolkit<fn(Elementary) -> Num, fn(&SPolygon) -> Result<Circle, GeometryError>> =
        Toolkit {
            math,
            pole: |_| Err(GeometryError::Supplied),
        };
    assert_eq!(
        SPolygon::new(triangle(), &failing).map(|_| ()),
        Err(GeometryError::Supplied)
    );
}

#[test]
fn the_pole_is_asked_for_on_the_finished_boundary() {
    // Clockwise input: the polygon that the pole is looked for in runs counterclockwise.
    let check = |shape: &SPolygon| {
        assert!(v(shape.area) > 0.0);
        assert_eq!(shape.n_vertices(), 3);
        assert_eq!(v(shape.poi.radius), f64::MAX);
        Circle::try_new(p(7.0, 8.0), n(9.0))
    };
    let tools = Toolkit { math, pole: check };
    let shape = SPolygon::new(vec![p(0.0, 0.0), p(0.0, 1.0), p(1.0, 0.0)], &tools).unwrap();
    assert_eq!(shape.poi, Circle::try_new(p(7.0, 8.0), n(9.0)).unwrap());
    assert_eq!(shape.vertices, vec![p(1.0, 0.0), p(0.0, 1.0), p(0.0, 0.0)]);
}

#[test]
fn areas_boxes_and_diameters_of_points() {
    let points = vec![p(0.0, 0.0), p(3.0, 0.0), p(3.0, 4.0)];
    assert_eq!(v(SPolygon::calculate_area(&points)), 6.0);
    let reversed: Vec<Point> = points.iter().rev().copied().collect();
    assert_eq!(v(SPolygon::calculate_area(&reversed)), -6.0);
    assert_eq!(v(SPolygon::calculate_diameter(points.clone())), 5.0);
    assert_eq!(
        SPolygon::generate_bounding_box(&points),
        Rect::try_new(n(0.0), n(0.0), n(3.0), n(4.0)).unwrap()
    );
    assert_eq!(
        SPolygon::generate_boundary_bounding_box(&points, &[n(0.0); 2], &math),
        Err(GeometryError::BulgeCountMismatch)
    );
    assert_eq!(
        SPolygon::generate_boundary_bounding_box(&[p(0.0, 0.0), p(1.0, 0.0)], &[n(0.0); 2], &math),
        Err(GeometryError::EmptyRect)
    );
    let poi = SPolygon::calculate_poi(&points, n(5.0), &tools()).unwrap();
    assert_eq!(poi, Circle::try_new(p(1.5, 2.0), n(1.5)).unwrap());
}

#[test]
fn distances_and_positions_of_points() {
    let shape = square();
    assert_eq!(v(shape.distance_to(p(1.0, 1.0), &math)), 0.0);
    assert_eq!(v(shape.distance_to(p(5.0, 6.0), &math)), 5.0);
    assert_eq!(v(shape.sq_distance_to(p(5.0, 6.0), &math)), 25.0);
    assert_eq!(
        shape.separation_distance(p(1.0, 0.5), &math),
        (GeoPosition::Interior, n(0.5))
    );
    assert_eq!(
        shape.separation_distance(p(1.0, -0.5), &math),
        (GeoPosition::Exterior, n(0.5))
    );
    assert!(shape.collides_with(p(2.0, 2.0), &math));
    assert!(!shape.collides_with(p(2.0001, 1.0), &math));
}

#[test]
fn sides_that_are_crossed_in_one_point_count_each() {
    // The ray from the point passes through the corner at the lower left, above the bottom.
    let shape = SPolygon::new(
        vec![p(1.0, 1.0), p(2.0, 3.0), p(3.0, 0.0), p(4.0, 4.0), p(0.0, 4.0)],
        &tools(),
    )
    .unwrap();
    assert!(!shape.collides_with(p(0.5, 1.0), &math));
    assert!(!shape.collides_with(p(2.0, 1.0), &math));
    assert!(shape.collides_with(p(3.0, 1.0), &math));
    assert!(shape.collides_with(p(1.0, 2.0), &math));
}

#[test]
fn polygons_contain_their_own_vertices() {
    for shape in [square(), rounded_top_shape()] {
        for i in 0..shape.n_vertices() {
            assert!(shape.collides_with(shape.vertex(i), &math));
            assert_eq!(v(shape.sq_distance_to(shape.vertex(i), &math)), 0.0);
        }
    }
}

#[test]
fn moving_a_polygon_moves_everything_with_it() {
    let reference = rounded_top_shape();
    let t = Transformation::from_translation((n(10.0), n(20.0)));
    let mut moved = reference.duplicate();
    moved.transform(t, &math);
    assert_eq!(moved.vertex(0), p(9.0, 20.0));
    assert_close(moved.bbox.y_max, 23.0);
    assert_eq!(moved.area, reference.area);
    assert_eq!(moved.diameter, reference.diameter);
    assert_eq!(
        moved.poi.center,
        p(
            v(reference.poi.center.0) + 10.0,
            v(reference.poi.center.1) + 20.0
        )
    );

    let mut other = SPolygon::new(
        vec![p(0.0, 0.0), p(5.0, 0.0), p(5.0, 5.0), p(0.0, 5.0)],
        &tools(),
    )
    .unwrap();
    other.transform_from(&reference, t, &math);
    assert_eq!(other.vertices, moved.vertices);
    assert_eq!(other.bulges, moved.bulges);
    assert_eq!(other.bbox, moved.bbox);
    assert_eq!(other.poi, moved.poi);
}

#[test]
fn surrogates_move_with_their_polygon() {
    let tools = SurrogateTools {
        hull_indices,
        hull_points: hull,
        poles: pole_alone,
        piers: one_pier,
    };
    let config = SPSurrogateConfig {
        n_ff_piers: 1,
        ..SPSurrogateConfig::none()
    };
    let mut shape = square();
    shape.generate_surrogate(config, &tools).unwrap();
    let reference = shape.duplicate();
    let t = Transformation::from_translation((n(1.0), n(0.0)));
    shape.transform(t, &math);
    let surrogate = shape.surrogate();
    assert_eq!(surrogate.poles[0], shape.poi);
    assert_eq!(surrogate.piers[0].start, p(1.0, 0.0));
    assert_eq!(v(surrogate.convex_hull_area), 4.0);
    let mut again = reference.duplicate();
    again.transform_from(&reference, t, &math);
    assert_eq!(again.surrogate().piers, surrogate.piers);
    assert_eq!(
        again.surrogate().convex_hull_points,
        surrogate.convex_hull_points
    );
}

#[test]
fn rectangles_become_polygons() {
    let r = Rect::try_new(n(1.0), n(2.0), n(4.0), n(6.0)).unwrap();
    let shape = SPolygon::from_rect(r, &tools()).unwrap();
    assert_eq!(shape.bbox, r);
    assert_eq!(v(shape.area), 12.0);
    assert_eq!(v(shape.diameter), 5.0);
}

#[test]
fn polygons_list_their_polyline() {
    let polyline = rounded_top_shape().to_cavalier_vertices();
    assert_eq!(polyline.len(), 4);
    assert_eq!(v(polyline[2].x), 1.0);
    assert_eq!(v(polyline[2].y), 2.0);
    assert_eq!(v(polyline[2].bulge), 1.0);
}

#[test]
fn reversing_twice_gives_the_boundary_back() {
    let mut points = vec![p(0.0, 0.0), p(1.0, 0.0), p(0.0, 1.0)];
    let mut bulges = vec![n(0.25), n(0.5), n(0.75)];
    reverse_boundary(&mut points, &mut bulges);
    assert_eq!(points, vec![p(0.0, 1.0), p(1.0, 0.0), p(0.0, 0.0)]);
    assert_eq!(bulges, vec![n(-0.5), n(-0.25), n(-0.75)]);
    reverse_boundary(&mut points, &mut bulges);
    assert_eq!(points, vec![p(0.0, 0.0), p(1.0, 0.0), p(0.0, 1.0)]);
    assert_eq!(bulges, vec![n(0.25), n(0.5), n(0.75)]);
}

#[test]
fn the_direction_of_the_given_boundary_does_not_matter() {
    let points = vec![p(0.1, 0.2), p(4.3, -0.7), p(5.1, 3.9), p(2.2, 2.8), p(-0.6, 4.4)];
    let bulges = vec![n(0.0), n(0.2), n(-0.1), n(0.0), n(0.4)];
    let mut back_points = points.clone();
    back_points.reverse();
    let back_bulges = vec![n(-0.0), n(0.1), n(-0.2), n(-0.0), n(-0.4)];
    let there = SPolygon::new_with_bulges(points.clone(), bulges.clone(), &tools()).unwrap();
    let back = SPolygon::new_with_bulges(back_points, back_bulges, &tools()).unwrap();
    assert_eq!(there.vertices, points);
    assert_eq!(back.vertices, there.vertices);
    assert_eq!(back.bulges, there.bulges);
    assert_eq!(back.bbox, there.bbox);
    assert_eq!(back.diameter, there.diameter);
    assert_eq!(back.poi, there.poi);
    assert!((v(back.area) - v(there.area)).abs() < 1.0e-12);
}

#[test]
fn moved_copies_become_the_image_they_are_moved_to() {
    let tools = SurrogateTools {
        hull_indices,
        hull_points: hull,
        poles: pole_alone,
        piers: one_pier,
    };
    let config = SPSurrogateConfig {
        n_ff_piers: 1,
        ..SPSurrogateConfig::none()
    };
    let mut reference = square();
    reference.generate_surrogate(config, &tools).unwrap();
    let first = Transformation::from_translation((n(7.0), n(-3.0)));
    let t = Transformation::from_translation((n(1.0), n(2.0)));
    let mut copy = reference.duplicate();
    copy.transform(first, &math);
    copy.transform_from(&reference, t, &math);
    let mut moved = reference.duplicate();
    moved.transform(t, &math);
    assert_eq!(copy.vertices, moved.vertices);
    assert_eq!(copy.poi, moved.poi);
    assert_eq!(copy.bbox, moved.bbox);
    assert_eq!(copy.surrogate().poles, moved.surrogate().poles);
    assert_eq!(copy.surrogate().piers, moved.surrogate().piers);
    assert_eq!(
        copy.surrogate().convex_hull_points,
        moved.surrogate().convex_hull_points
    );
}
