use nesting_geometry::error::GeometryError;
use nesting_geometry::geometry::geo_enums::GeoPosition;
use nesting_geometry::geometry::primitives::arc::{Arc, PlineVertex};
use nesting_geometry::geometry::primitives::boundary_segment::BoundarySegment;
use nesting_geometry::geometry::primitives::circle::Circle;
use nesting_geometry::geometry::primitives::edge::Edge;
use nesting_geometry::geometry::primitives::point::Point;
use nesting_geometry::geometry::primitives::rect::Rect;
use nesting_geometry::geometry::primitives::tessellation::tessellate_segment;
use nesting_geometry::geometry::transformation::Transformation;
use nesting_geometry::math::Elementary;
use nesting_geometry::num::Num;
use std::f64::consts::{FRAC_PI_2, PI};

fn n(x: f64) -> Num {
    Num::from_bits(x.to_bits())
}

fn v(x: Num) -> f64 {
    f64::from_bits(x.to_bits())
}

fn p(x: f64, y: f64) -> Point {
    Point(n(x), n(y))
}

fn math(e: Elementary) -> Num {
    match e {
        Elementary::Sin(x) => n(v(x).sin()),
        Elementary::Cos(x) => n(v(x).cos()),
        Elementary::Tan(x) => n(v(x).tan()),
        Elementary::Acos(x) => n(v(x).acos()),
        Elementary::Atan(x) => n(v(x).atan()),
        Elementary::Atan2(y, x) => n(v(y).atan2(v(x))),
    }
}

fn arc(start: (f64, f64), end: (f64, f64), bulge: f64) -> Arc {
    Arc::try_from_bulge(p(start.0, start.1), p(end.0, end.1), n(bulge), &math).unwrap()
}

fn edge(start: (f64, f64), end: (f64, f64)) -> Edge {
    Edge::try_new(p(start.0, start.1), p(end.0, end.1)).unwrap()
}

fn rect(x_min: f64, y_min: f64, x_max: f64, y_max: f64) -> Rect {
    Rect::try_new(n(x_min), n(y_min), n(x_max), n(y_max)).unwrap()
}

fn tessellated_edges(arc: &Arc, n_segments: usize) -> Vec<Edge> {
    (0..n_segments)
        .map(|i| {
            let t0 = i as f64 / n_segments as f64;
            let t1 = (i + 1) as f64 / n_segments as f64;
            let start_angle = v(arc.start_angle(&math));
            Edge::try_new(
                arc.point_at_angle(n(start_angle + v(arc.sweep) * t0), &math),
                arc.point_at_angle(n(start_angle + v(arc.sweep) * t1), &math),
            )
            .unwrap()
        })
        .collect()
}

#[test]
fn arc_from_bulge_matches_expected_half_circle() {
    let arc = arc((0.0, 0.0), (1.0, 0.0), 1.0);
    assert!((v(arc.center.0) - 0.5).abs() < 1.0e-5);
    assert!(v(arc.center.1).abs() < 1.0e-5);
    assert!((v(arc.radius) - 0.5).abs() < 1.0e-5);
    assert!((v(arc.sweep) - PI).abs() < 1.0e-5);
    assert!((v(arc.bulge(&math)) - 1.0).abs() < 1.0e-5);
}

#[test]
fn arc_bbox_includes_cardinal_extrema() {
    let arc = arc((0.0, 0.0), (1.0, 0.0), 1.0);
    assert!((v(arc.bbox.x_min) - 0.0).abs() < 1.0e-5);
    assert!((v(arc.bbox.x_max) - 1.0).abs() < 1.0e-5);
    assert!((v(arc.bbox.y_min) + 0.5).abs() < 1.0e-5);
    assert!(v(arc.bbox.y_max).abs() < 1.0e-5);
}

#[test]
fn arc_edge_collision_detects_crossing_and_miss() {
    let arc = arc((0.0, 0.0), (1.0, 0.0), 1.0);
    let crossing = edge((0.5, -1.0), (0.5, 1.0));
    let miss = edge((0.5, 0.1), (0.5, 1.0));
    assert!(arc.collides_with_edge(crossing, &math));
    assert!(!arc.collides_with_edge(miss, &math));
}

#[test]
fn arc_rect_collision_matches_tessellation_oracle() {
    let arc = arc((0.0, 0.0), (2.0, 0.0), 0.75);
    let rects = [
        rect(0.9, -0.7, 1.1, -0.4),
        rect(0.9, 0.2, 1.1, 0.5),
        rect(-0.2, -0.1, 0.2, 0.2),
        rect(1.8, -0.1, 2.2, 0.2),
    ];
    let oracle_edges = tessellated_edges(&arc, 256);

    for rect in rects {
        let oracle = oracle_edges.iter().any(|edge| rect.collides_with_edge(*edge));
        assert_eq!(arc.collides_with_rect(rect, &math), oracle, "rect={rect:?}");
    }
}

#[test]
fn arc_arc_collision_detects_circle_intersection_on_both_sweeps() {
    let a1 = arc((0.0, 0.0), (2.0, 0.0), 1.0);
    let a2 = arc((1.0, -1.0), (1.0, 1.0), 1.0);
    assert!(a1.collides_with_arc(&a2, &math));
}

#[test]
fn arc_transform_preserves_radius_and_sweep() {
    let mut arc = arc((0.0, 0.0), (1.0, 0.0), 1.0);
    arc.transform(
        Transformation::from_translation((n(2.0), n(3.0))).rotate(n(FRAC_PI_2), &math),
        &math,
    );
    assert!((v(arc.radius) - 0.5).abs() < 1.0e-5);
    assert!((v(arc.sweep) - PI).abs() < 1.0e-5);
    assert!(arc.bbox.collides_with_point(arc.start));
    assert!(arc.bbox.collides_with_point(arc.end));
}

#[test]
fn each_invalid_arc_gets_its_error() {
    let ok = (p(0.0, 0.0), n(1.0), p(1.0, 0.0), p(-1.0, 0.0), n(PI));
    assert!(Arc::try_new(ok.0, ok.1, ok.2, ok.3, ok.4, &math).is_ok());
    assert_eq!(
        Arc::try_new(ok.0, n(0.0), ok.2, ok.3, ok.4, &math),
        Err(GeometryError::InvalidArcRadius)
    );
    assert_eq!(
        Arc::try_new(ok.0, n(f64::NAN), ok.2, ok.3, ok.4, &math),
        Err(GeometryError::InvalidArcRadius)
    );
    assert_eq!(
        Arc::try_new(p(f64::INFINITY, 0.0), ok.1, ok.2, ok.3, ok.4, &math),
        Err(GeometryError::InvalidArcPoint)
    );
    assert_eq!(
        Arc::try_new(ok.0, ok.1, ok.2, ok.3, n(0.0), &math),
        Err(GeometryError::InvalidArcSweep)
    );
    assert_eq!(
        Arc::try_new(ok.0, ok.1, ok.2, ok.3, n(7.0), &math),
        Err(GeometryError::InvalidArcSweep)
    );
    assert_eq!(
        Arc::try_new(ok.0, ok.1, p(2.0, 0.0), ok.3, ok.4, &math),
        Err(GeometryError::ArcStartOffCircle)
    );
    assert_eq!(
        Arc::try_new(ok.0, ok.1, ok.2, p(-2.0, 0.0), ok.4, &math),
        Err(GeometryError::ArcEndOffCircle)
    );
    assert_eq!(
        Arc::try_from_bulge(p(0.0, 0.0), p(1.0, 0.0), n(0.0), &math),
        Err(GeometryError::InvalidArcBulge)
    );
    assert_eq!(
        Arc::try_from_bulge(p(0.0, 0.0), p(1.0, 0.0), n(f64::NAN), &math),
        Err(GeometryError::InvalidArcBulge)
    );
    assert_eq!(
        Arc::try_from_bulge(p(1.0, 0.0), p(1.0, 0.0), n(1.0), &math),
        Err(GeometryError::CoincidentArcEndpoints)
    );
}

#[test]
fn polyline_vertices_become_arcs_and_back() {
    let start = PlineVertex {
        x: n(0.0),
        y: n(0.0),
        bulge: n(0.5),
    };
    let end = PlineVertex {
        x: n(2.0),
        y: n(0.0),
        bulge: n(0.0),
    };
    let arc = Arc::try_from_cavalier(start, end, &math).unwrap();
    assert!((v(arc.radius) - 1.25).abs() < 1.0e-9);
    let (first, second) = arc.to_cavalier_pair(&math);
    assert_eq!(first.x, n(0.0));
    assert_eq!(second.x, n(2.0));
    assert!((v(first.bulge) - 0.5).abs() < 1.0e-9);
    assert_eq!(v(second.bulge), 0.0);
}

#[test]
fn distances_from_a_half_circle() {
    let arc = arc((0.0, 0.0), (2.0, 0.0), 1.0);
    // Below, where the arc passes, and above, where its end points are nearest.
    assert!((v(arc.distance_to(p(1.0, -3.0), &math)) - 2.0).abs() < 1.0e-9);
    assert!((v(arc.distance_to(p(1.0, 1.0), &math)) - 2.0_f64.sqrt()).abs() < 1.0e-9);
    assert!(arc.collides_with_point(p(1.0, -1.0), &math));
    assert!(!arc.collides_with_point(p(1.0, 1.0), &math));
    let (position, distance) = arc.separation_distance(p(1.0, -3.0), &math);
    assert_eq!(position, GeoPosition::Exterior);
    assert!((v(distance) - 2.0).abs() < 1.0e-9);
    let circle = Circle::try_new(p(1.0, -3.0), n(2.5)).unwrap();
    assert!(arc.collides_with_circle(circle, &math));
    assert!(circle.collides_with_arc(&arc, &math));
    let small = Circle::try_new(p(1.0, -3.0), n(1.5)).unwrap();
    assert!(!arc.collides_with_circle(small, &math));
}

#[test]
fn segments_behave_as_what_they_hold() {
    let line = BoundarySegment::from(edge((0.0, 0.0), (2.0, 0.0)));
    let curve = BoundarySegment::from(arc((0.0, 0.0), (2.0, 0.0), 1.0));
    let crossing = edge((1.0, -2.0), (1.0, 2.0));
    assert_eq!(line.start(), p(0.0, 0.0));
    assert_eq!(curve.end(), p(2.0, 0.0));
    assert!((v(curve.bbox().y_min) + 1.0).abs() < 1.0e-9);
    assert_eq!(line.collides_at(crossing, &math).len(), 1);
    assert_eq!(curve.collides_at(crossing, &math).len(), 1);
    assert!(line.collides_with_edge(crossing, &math));
    assert!(crossing.collides_with_segment(&curve, &math));
    assert!(rect(0.5, -1.5, 1.5, -0.5).collides_with_segment(&curve, &math));
    assert!(!rect(0.5, -0.5, 1.5, -0.25).collides_with_segment(&line, &math));
    assert!((v(line.distance_to(p(1.0, 3.0), &math)) - 3.0).abs() < 1.0e-12);
    assert!((v(curve.distance_to(p(1.0, -3.0), &math)) - 2.0).abs() < 1.0e-9);
    assert!(line.collides_with_segment(&curve, &math));
    let t = Transformation::from_translation((n(5.0), n(0.0)));
    let mut moved = line;
    moved.transform(t, &math);
    assert_eq!(moved.start(), p(5.0, 0.0));
    let mut copy = curve;
    copy.transform_from(&line, t, &math);
    assert_eq!(copy, moved);
}

#[test]
fn degenerate_edges_rectangles_and_circles_are_rejected() {
    assert_eq!(
        Edge::try_new(p(1.0, 0.0), p(1.0, -0.0)),
        Err(GeometryError::DegenerateEdge)
    );
    assert_eq!(
        Rect::try_new(n(0.0), n(0.0), n(0.0), n(1.0)),
        Err(GeometryError::EmptyRect)
    );
    assert_eq!(
        Circle::try_new(p(0.0, 0.0), n(-1.0)),
        Err(GeometryError::InvalidCircleRadius)
    );
    assert_eq!(
        Circle::try_new(p(f64::NAN, 0.0), n(1.0)),
        Err(GeometryError::InvalidCircleCenter)
    );
}

#[test]
fn quarter_arcs_are_tessellated_within_the_tolerance() {
    let quarter = arc((1.0, 0.0), (0.0, 1.0), (FRAC_PI_2 / 4.0).tan());
    let chords = tessellate_segment(BoundarySegment::Arc(quarter), n(0.01), &math).unwrap();
    // 2 acos(1 - 0.01) = 0.2830..., so that a quarter turn takes 6 chords.
    assert_eq!(chords.len(), 6);
    for chord in &chords {
        let middle = chord.centroid();
        let deviation = 1.0 - (v(middle.0).powi(2) + v(middle.1).powi(2)).sqrt();
        assert!(deviation >= 0.0 && deviation <= 0.01 + 1.0e-12);
    }
}

#[test]
fn reversed_arcs_lie_on_the_same_circle() {
    for bulge in [0.3, 1.0, -0.7] {
        let there = arc((0.1, 0.2), (3.3, -1.7), bulge);
        let back = arc((3.3, -1.7), (0.1, 0.2), -bulge);
        assert_eq!(back.start, there.end);
        assert_eq!(back.end, there.start);
        assert_eq!(back.radius, there.radius);
        assert_eq!(v(back.sweep), -v(there.sweep));
        assert!((v(back.center.0) - v(there.center.0)).abs() < 1.0e-14);
        assert!((v(back.center.1) - v(there.center.1)).abs() < 1.0e-14);
    }
}

#[test]
fn arcs_have_the_bulge_they_are_made_from() {
    for bulge in [0.3, 1.0, -0.7, 1.0e-5, -2.5] {
        let made = arc((0.1, 0.2), (3.3, -1.7), bulge);
        assert_eq!(made.start, p(0.1, 0.2));
        assert_eq!(made.end, p(3.3, -1.7));
        assert!((v(made.bulge(&math)) - bulge).abs() <= 1.0e-15 * bulge.abs().max(1.0));
        // A quarter of the sweep is the arc tangent itself.
        assert_eq!(v(made.sweep) / 4.0, bulge.atan());
        assert_eq!(v(made.sweep) > 0.0, bulge > 0.0);
    }
}
