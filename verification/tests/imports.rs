use nesting_geometry::error::GeometryError;
use nesting_geometry::geometry::fail_fast::sp_surrogate::SPSurrogateConfig;
use nesting_geometry::geometry::geo_enums::RotationRange;
use nesting_geometry::geometry::primitives::circle::Circle;
use nesting_geometry::geometry::primitives::point::Point;
use nesting_geometry::geometry::primitives::simple_polygon::{SPolygon, Toolkit};
use nesting_geometry::geometry::shape_modification::ShapeModifyMode;
use nesting_geometry::geometry::transformation::DTransformation;
use nesting_geometry::io::ext_repr::{
    ExtArcSeg, ExtBulgedPolygon, ExtContainer, ExtItem, ExtPolygon, ExtQualityZone, ExtSPolygon,
    ExtShape,
};
use nesting_geometry::io::import::boundaries::{
    eliminate_degenerate_vertices, ensure_no_self_intersections, points_match,
    segments_are_adjacent, split_count_for_sweep, split_large_bulges,
};
use nesting_geometry::io::import::containers::N_QUALITIES;
use nesting_geometry::io::import::importer::{CDEConfig, Importer};
use nesting_geometry::io::import::shapes::{
    apply_curved_geometry_mode, import_bulged_polygon, import_shape_as_simple_polygon,
    import_simple_polygon, CurvedGeometryMode,
};
use nesting_geometry::io::import::transformations::{
    centering_transformation, ext_to_int_transformation,
};
use nesting_geometry::math::Elementary;
use nesting_geometry::num::Num;
use std::f64::consts::{FRAC_PI_2, PI};

fn n(x: f64) -> Num {
    Num::from_bits(x.to_bits())
}

fn v(x: Num) -> f64 {
    f64::from_bits(x.to_bits())
}

fn p(x: f64, y: f64) -> Point {
    Point(n(x), n(y))
}

fn math(e: Elementary) -> Num {
    match e {
        Elementary::Sin(x) => n(v(x).sin()),
        Elementary::Cos(x) => n(v(x).cos()),
        Elementary::Tan(x) => n(v(x).tan()),
        Elementary::Acos(x) => n(v(x).acos()),
        Elementary::Atan(x) => n(v(x).atan()),
        Elementary::Atan2(y, x) => n(v(y).atan2(v(x))),
    }
}

fn center_of_box(shape: &SPolygon) -> Result<Circle, GeometryError> {
    let b = shape.bbox;
    let half = (v(b.x_max) - v(b.x_min)).min(v(b.y_max) - v(b.y_min)) / 2.0;
    Circle::try_new(
        p((v(b.x_min) + v(b.x_max)) / 2.0, (v(b.y_min) + v(b.y_max)) / 2.0),
        n(half),
    )
}

type Tools = Toolkit<
    fn(Elementary) -> Num,
    fn(&SPolygon) -> Result<Circle, GeometryError>,
>;

fn tools() -> Tools {
    Toolkit {
        math,
        pole: center_of_box,
    }
}

fn assert_close(actual: Num, expected: f64) {
    assert!(
        (v(actual) - expected).abs() < 1.0e-3,
        "actual={}, expected={}",
        v(actual),
        expected
    );
}

fn straight(points: &[(f64, f64)]) -> ExtSPolygon {
    ExtSPolygon(points.iter().map(|(x, y)| (n(*x), n(*y))).collect())
}

fn bulged(points: &[(f64, f64, f64)]) -> ExtBulgedPolygon {
    ExtBulgedPolygon(
        points
            .iter()
            .map(|(x, y, b)| (n(*x), n(*y), n(*b)))
            .collect(),
    )
}

fn circle(cx: f64, cy: f64, r: f64) -> ExtShape {
    ExtShape::Circle {
        cx: n(cx),
        cy: n(cy),
        r: n(r),
    }
}

fn arc_seg(center: (f64, f64), radius: f64, start_angle: f64, sweep: f64) -> ExtArcSeg {
    ExtArcSeg {
        center: (n(center.0), n(center.1)),
        radius: n(radius),
        start_angle: n(start_angle),
        sweep: n(sweep),
    }
}

fn import(shape: &ExtShape) -> Result<SPolygon, GeometryError> {
    import_shape_as_simple_polygon(shape, &tools())
}

#[test]
fn legacy_simple_polygon_import_stays_straight() {
    let shape = import_simple_polygon(
        &straight(&[(0.0, 0.0), (2.0, 0.0), (2.0, 1.0), (0.0, 1.0)]),
        &tools(),
    )
    .unwrap();

    assert!(!shape.has_arcs());
    assert_eq!(shape.bulges, vec![n(0.0); 4]);
    assert_close(shape.area, 2.0);
}

#[test]
fn bulged_polygon_import_preserves_arc_segments() {
    let shape = import_bulged_polygon(
        &bulged(&[
            (-1.0, 0.0, 0.0),
            (1.0, 0.0, 0.0),
            (1.0, 2.0, 1.0),
            (-1.0, 2.0, 0.0),
        ]),
        &tools(),
    )
    .unwrap();

    assert!(shape.has_arcs());
    assert_eq!(shape.n_segments(), 4);
    assert_close(shape.area, 4.0 + PI / 2.0);
}

#[test]
fn circle_shape_imports_as_exact_quarter_arcs() {
    let shape = import(&circle(0.0, 0.0, 2.0)).unwrap();

    assert!(shape.has_arcs());
    assert_eq!(shape.n_segments(), 4);
    assert_close(shape.area, 4.0 * PI);
    assert!(shape.bulges.iter().all(|bulge| v(*bulge).abs() <= 1.0));
}

#[test]
fn large_bulges_are_split_for_cavalier_compatibility() {
    let shape = import_bulged_polygon(
        &bulged(&[(0.0, 0.0, 2.0), (2.0, 0.0, 0.0), (1.0, -1.0, 0.0)]),
        &tools(),
    )
    .unwrap();

    assert!(shape.has_arcs());
    assert!(shape.n_segments() > 3);
    assert!(shape.bulges.iter().all(|bulge| v(*bulge).abs() <= 1.0));
}

#[test]
fn explicit_arcs_import_closed_boundary() {
    let shape = import(&ExtShape::Arcs(vec![
        arc_seg((0.0, 0.0), 1.0, 0.0, PI),
        arc_seg((0.0, 0.0), 1.0, PI, PI),
    ]))
    .unwrap();

    assert!(shape.has_arcs());
    assert_eq!(shape.n_segments(), 4);
    assert_close(shape.area, PI);
    assert!(shape.bulges.iter().all(|bulge| v(*bulge).abs() <= 1.0));
}

/// The shape in a JSON object with a type and its data.
fn shape_from_json(text: &str) -> ExtShape {
    let value: serde_json::Value = serde_json::from_str(text).unwrap();
    let data = &value["data"];
    let number = |value: &serde_json::Value| value.as_f64().unwrap();
    match value["type"].as_str().unwrap() {
        "bulged_polygon" => ExtShape::BulgedPolygon(bulged(
            &data
                .as_array()
                .unwrap()
                .iter()
                .map(|w| (number(&w[0]), number(&w[1]), number(&w[2])))
                .collect::<Vec<(f64, f64, f64)>>(),
        )),
        "circle" => circle(number(&data["cx"]), number(&data["cy"]), number(&data["r"])),
        other => panic!("unexpected type {other}"),
    }
}

#[test]
fn bulged_polygon_json_schema_deserializes() {
    let shape = shape_from_json(
        r#"{
                "type": "bulged_polygon",
                "data": [[-1.0,0.0,0.0],[1.0,0.0,0.0],[1.0,2.0,1.0],[-1.0,2.0,0.0]]
            }"#,
    );

    let imported = import(&shape).unwrap();
    assert!(imported.has_arcs());
}

#[test]
fn circle_json_schema_deserializes() {
    let shape = shape_from_json(
        r#"{
                "type": "circle",
                "data": { "cx": 0.0, "cy": 0.0, "r": 1.0 }
            }"#,
    );

    let imported = import(&shape).unwrap();
    assert_close(imported.area, PI);
}

#[test]
fn tessellated_curved_geometry_mode_converts_curves_to_lines() {
    let native = import(&circle(0.0, 0.0, 1.0)).unwrap();
    let tessellated = apply_curved_geometry_mode(
        native,
        CurvedGeometryMode::Tessellated { tolerance: n(0.01) },
        &tools(),
    )
    .unwrap();

    assert!(!tessellated.has_arcs());
    assert!(tessellated.n_vertices() > 4);
    assert!((v(tessellated.area) - PI).abs() < 0.05);
}

#[test]
fn tessellated_curved_geometry_mode_leaves_straight_shapes_straight() {
    let straight = import_simple_polygon(
        &straight(&[(0.0, 0.0), (2.0, 0.0), (2.0, 1.0), (0.0, 1.0)]),
        &tools(),
    )
    .unwrap();
    let tessellated = apply_curved_geometry_mode(
        straight.clone(),
        CurvedGeometryMode::Tessellated { tolerance: n(0.01) },
        &tools(),
    )
    .unwrap();

    assert!(!tessellated.has_arcs());
    assert_eq!(tessellated.vertices, straight.vertices);
    assert_eq!(tessellated.bulges, straight.bulges);
}

#[test]
fn self_intersecting_import_is_rejected() {
    let err = import_simple_polygon(
        &straight(&[(0.0, 0.0), (2.0, 2.0), (0.0, 2.0), (2.0, 0.0), (3.0, 1.0)]),
        &tools(),
    )
    .unwrap_err();

    assert!(err.message().contains("self-intersects"));
    assert_eq!(err, GeometryError::SelfIntersection(0, 2));
}

#[test]
fn each_invalid_shape_gets_its_error() {
    let error = |shape: ExtShape| import(&shape).map(|_| ()).unwrap_err();
    assert_eq!(
        error(circle(f64::NAN, 0.0, 1.0)),
        GeometryError::InvalidCircleCenter
    );
    assert_eq!(
        error(circle(0.0, 0.0, 0.0)),
        GeometryError::InvalidCircleRadius
    );
    assert_eq!(
        error(circle(0.0, 0.0, f64::INFINITY)),
        GeometryError::InvalidCircleRadius
    );
    assert_eq!(
        error(ExtShape::Rectangle {
            x_min: n(0.0),
            y_min: n(0.0),
            width: n(0.0),
            height: n(1.0)
        }),
        GeometryError::EmptyRect
    );
    assert_eq!(
        error(ExtShape::MultiPolygon(vec![])),
        GeometryError::UnsupportedMultiPolygon
    );
    assert_eq!(error(ExtShape::Arcs(vec![])), GeometryError::NoArcSegments);
    assert_eq!(
        error(ExtShape::Arcs(vec![arc_seg((0.0, f64::NAN), 1.0, 0.0, PI)])),
        GeometryError::InvalidArcSegment
    );
    assert_eq!(
        error(ExtShape::Arcs(vec![arc_seg((0.0, 0.0), -1.0, 0.0, PI)])),
        GeometryError::InvalidArcRadius
    );
    assert_eq!(
        error(ExtShape::Arcs(vec![arc_seg((0.0, 0.0), 1.0, 0.0, 1.0e-7)])),
        GeometryError::ZeroArcSweep
    );
    assert_eq!(
        error(ExtShape::Arcs(vec![
            arc_seg((0.0, 0.0), 1.0, 0.0, PI),
            arc_seg((0.0, 0.0), 1.0, 0.0, PI)
        ])),
        GeometryError::NonContiguousArcs
    );
    assert_eq!(
        error(ExtShape::Arcs(vec![arc_seg((0.0, 0.0), 1.0, 0.0, PI)])),
        GeometryError::OpenArcBoundary
    );
    assert_eq!(
        error(ExtShape::SimplePolygon(straight(&[
            (0.0, 0.0),
            (1.0, f64::INFINITY),
            (0.0, 1.0)
        ]))),
        GeometryError::InvalidVertex
    );
    assert_eq!(
        error(ExtShape::BulgedPolygon(bulged(&[
            (0.0, 0.0, f64::NAN),
            (1.0, 0.0, 0.0),
            (0.0, 1.0, 0.0)
        ]))),
        GeometryError::InvalidBulge
    );
    assert_eq!(
        error(ExtShape::SimplePolygon(straight(&[
            (0.0, 0.0),
            (1.0, 0.0),
            (1.0, 1.0),
            (0.0, 0.0),
            (-1.0, 1.0)
        ]))),
        GeometryError::NonConsecutiveDuplicates
    );
    assert_eq!(
        apply_curved_geometry_mode(
            import(&circle(0.0, 0.0, 1.0)).unwrap(),
            CurvedGeometryMode::Tessellated { tolerance: n(0.0) },
            &tools()
        )
        .map(|_| ()),
        Err(GeometryError::InvalidTessellationTolerance)
    );
}

#[test]
fn closing_and_repeated_vertices_are_dropped() {
    let shape = import_simple_polygon(
        &straight(&[
            (0.0, 0.0),
            (2.0, 0.0),
            (2.0, 0.00005),
            (2.0, 2.0),
            (0.0, 2.0),
            (0.0, 0.0),
        ]),
        &tools(),
    )
    .unwrap();
    assert_eq!(shape.n_vertices(), 4);

    let mut points = vec![p(0.0, 0.0), p(1.0, 0.0), p(1.0, 0.0), p(0.0, 1.0), p(0.0, 0.00001)];
    eliminate_degenerate_vertices(&mut points);
    assert_eq!(points, vec![p(0.0, 0.0), p(1.0, 0.0), p(0.0, 1.0)]);
    let clean = points.clone();
    eliminate_degenerate_vertices(&mut points);
    assert_eq!(points, clean);
    assert!(points_match(p(0.0, 0.0), p(0.0001, -0.0001)));
    assert!(!points_match(p(0.0, 0.0), p(0.00011, 0.0)));
}

#[test]
fn sweeps_are_split_evenly() {
    assert_eq!(split_count_for_sweep(n(0.0), n(FRAC_PI_2)), 1);
    assert_eq!(split_count_for_sweep(n(-PI), n(FRAC_PI_2)), 2);
    assert_eq!(split_count_for_sweep(n(3.2), n(FRAC_PI_2)), 3);
    let (points, bulges) = split_large_bulges(
        &[p(1.0, 0.0), p(-1.0, 0.0)],
        &[n(1.0), n(0.25)],
        n(FRAC_PI_2),
        &math,
    )
    .unwrap();
    assert_eq!(points.len(), 3);
    assert_eq!(bulges.len(), 3);
    assert_eq!(points[0], p(1.0, 0.0));
    assert_close(points[1].0, 0.0);
    assert_close(points[1].1, 1.0);
    assert_close(bulges[0], (FRAC_PI_2 / 4.0).tan());
    assert_eq!(bulges[0], bulges[1]);
    assert_eq!((points[2], bulges[2]), (p(-1.0, 0.0), n(0.25)));
    assert_eq!(
        split_large_bulges(&[p(0.0, 0.0)], &[], n(PI), &math),
        Err(GeometryError::BulgeCountMismatch)
    );
}

#[test]
fn neighbours_may_touch() {
    assert!(segments_are_adjacent(0, 1, 4));
    assert!(segments_are_adjacent(0, 3, 4));
    assert!(!segments_are_adjacent(0, 2, 4));
    let shape = import(&circle(0.0, 0.0, 1.0)).unwrap();
    assert_eq!(ensure_no_self_intersections(&shape, &math), Ok(()));
}

#[test]
fn transformations_are_centered_and_converted() {
    let shape = import(&ExtShape::Rectangle {
        x_min: n(1.0),
        y_min: n(2.0),
        width: n(4.0),
        height: n(6.0),
    })
    .unwrap();
    let centering = centering_transformation(&shape, &math);
    assert_close(centering.translation.0, -3.0);
    assert_close(centering.translation.1, -5.0);
    assert_eq!(v(centering.rotation), 0.0);
    let external = DTransformation {
        rotation: n(FRAC_PI_2),
        translation: (n(10.0), n(0.0)),
    };
    let internal = ext_to_int_transformation(external, centering, &math);
    assert_close(internal.rotation, FRAC_PI_2);
    // The point (3, 5) is turned to (-5, 3) and moved to (5, 3).
    assert_close(internal.translation.0, 5.0);
    assert_close(internal.translation.1, 3.0);
}

#[test]
fn centered_shapes_have_their_centroid_at_the_origin() {
    let mut shape = import(&ExtShape::SimplePolygon(straight(&[
        (10.1, 20.3),
        (14.7, 19.9),
        (15.3, 26.1),
        (12.2, 23.8),
    ])))
    .unwrap();
    let centroid = shape.centroid(&math);
    let t = centering_transformation(&shape, &math).compose(&math);
    let origin = centroid.transformed(t);
    assert_eq!((v(origin.0), v(origin.1)), (0.0, 0.0));
    let vertex = shape.vertex(2);
    shape.transform(t, &math);
    assert_eq!(shape.vertex(2).0, vertex.0.sub(centroid.0));
    assert_eq!(shape.vertex(2).1, vertex.1.sub(centroid.1));
    let moved = shape.centroid(&math);
    assert!(v(moved.0).abs() < 1.0e-12);
    assert!(v(moved.1).abs() < 1.0e-12);
}

#[test]
fn centered_shapes_with_arcs_have_their_centroid_at_the_origin() {
    let mut shape = import(&ExtShape::BulgedPolygon(ExtBulgedPolygon(vec![
        (n(10.1), n(20.3), n(0.0)),
        (n(14.7), n(19.9), n(0.4)),
        (n(15.3), n(26.1), n(-0.2)),
        (n(9.2), n(25.8), n(0.3)),
    ])))
    .unwrap();
    assert!(shape.has_arcs());
    let t = centering_transformation(&shape, &math).compose(&math);
    shape.transform(t, &math);
    let moved = shape.centroid(&math);
    assert!(v(moved.0).abs() < 1.0e-12);
    assert!(v(moved.1).abs() < 1.0e-12);
}

#[test]
fn turns_that_led_to_a_shape_are_undone_too() {
    let moved_by = DTransformation {
        rotation: n(-1.3),
        translation: (n(-3.3), n(5.9)),
    };
    let external = DTransformation {
        rotation: n(0.7),
        translation: (n(10.3), n(-4.1)),
    };
    let point = Point(n(1.7), n(2.9));
    let image = point.transformed(moved_by.compose(&math));
    let internal = ext_to_int_transformation(external, moved_by, &math);
    assert_close(internal.rotation, 2.0);
    let by_way = image.transformed(internal.compose(&math));
    let direct = point.transformed(external.compose(&math));
    assert!((v(by_way.0) - v(direct.0)).abs() < 1.0e-13);
    assert!((v(by_way.1) - v(direct.1)).abs() < 1.0e-13);
    // Moved as it was to become the internal shape, it stays where it is.
    let same = ext_to_int_transformation(moved_by, moved_by, &math);
    let stayed = image.transformed(same.compose(&math));
    assert!((v(stayed.0) - v(image.0)).abs() < 1.0e-13);
    assert!((v(stayed.1) - v(image.1)).abs() < 1.0e-13);
}

#[test]
fn what_led_to_a_shape_is_undone_first() {
    let external = DTransformation {
        rotation: n(0.7),
        translation: (n(10.3), n(-4.1)),
    };
    let unmoved = ext_to_int_transformation(external, DTransformation::empty(), &math);
    assert_close(unmoved.rotation, 0.7);
    assert_eq!(unmoved.translation, external.translation);

    let moved_by = DTransformation {
        rotation: n(0.0),
        translation: (n(-3.3), n(5.9)),
    };
    let none = ext_to_int_transformation(moved_by, moved_by, &math);
    assert_eq!(v(none.rotation), 0.0);
    assert_eq!(v(none.translation.0), 0.0);
    assert_eq!(v(none.translation.1), 0.0);

    let point = Point(n(1.7), n(2.9));
    let internal = ext_to_int_transformation(external, moved_by, &math);
    let by_way = point
        .transformed(moved_by.compose(&math))
        .transformed(internal.compose(&math));
    let direct = point.transformed(external.compose(&math));
    assert!((v(by_way.0) - v(direct.0)).abs() < 1.0e-13);
    assert!((v(by_way.1) - v(direct.1)).abs() < 1.0e-13);
}

fn importer() -> Importer {
    Importer::new_with_separations(
        CDEConfig {
            item_surrogate_config: SPSurrogateConfig::none(),
        },
        Some(n(0.001)),
        Some(n(2.0)),
        Some(n(5.0)),
        Some(n(3.0)),
        None,
    )
}

#[test]
fn clearances_are_shared_out() {
    let config = CDEConfig {
        item_surrogate_config: SPSurrogateConfig::none(),
    };
    let separate = importer();
    assert_eq!(separate.shape_modify_config.offset, Some(n(1.0)));
    assert_eq!(separate.bin_modify_config.offset, Some(n(4.0)));
    assert_eq!(separate.hole_modify_config.offset, Some(n(2.0)));
    let one = Importer::new(config, None, Some(n(0.5)), None, None);
    assert_eq!(one.shape_modify_config.offset, Some(n(0.25)));
    assert_eq!(one.bin_modify_config.offset, Some(n(0.25)));
    assert_eq!(one.hole_modify_config.offset, None);
    let items_only = Importer::new_with_separations(config, None, Some(n(0.5)), None, None, None);
    assert_eq!(items_only.bin_modify_config.offset, Some(n(0.25)));
    let none = Importer::new(config, None, None, None, None);
    assert_eq!(none.bin_modify_config.offset, None);
    assert_eq!(none.curved_geometry_mode, CurvedGeometryMode::Native);
    let mode = CurvedGeometryMode::Tessellated { tolerance: n(0.1) };
    assert_eq!(
        none.with_curved_geometry_mode(mode).curved_geometry_mode,
        mode
    );
}

fn framed(holes: Vec<ExtSPolygon>) -> ExtShape {
    ExtShape::Polygon(ExtPolygon {
        outer: straight(&[(0.0, 0.0), (10.0, 0.0), (10.0, 10.0), (0.0, 10.0)]),
        inner: holes,
    })
}

#[test]
fn items_are_imported_with_their_holes() {
    let item = importer()
        .import_item(
            &ExtItem {
                id: 3,
                allowed_orientations: Some(vec![n(0.0), n(90.0)]),
                shape: framed(vec![straight(&[(4.0, 4.0), (6.0, 4.0), (6.0, 6.0)])]),
                min_quality: Some(2),
            },
            &tools(),
        )
        .unwrap();
    assert_eq!(item.id, 3);
    assert_eq!(item.min_quality, Some(2));
    assert_eq!(item.shape.modify_mode, ShapeModifyMode::Inflate);
    assert_eq!(item.shape.modify_config.offset, Some(n(1.0)));
    assert_close(item.shape.pre_transform.translation.0, -5.0);
    assert_eq!(item.holes.len(), 1);
    assert_eq!(item.holes[0].modify_mode, ShapeModifyMode::Deflate);
    assert_eq!(item.holes[0].modify_config.offset, Some(n(2.0)));
    assert_close(item.holes[0].pre_transform.translation.0, -5.0);
    assert_eq!(v(item.holes[0].shape.area), 2.0);
    assert_eq!(
        item.allowed_rotation,
        RotationRange::Discrete(vec![n(0.0), n(90.0_f64.to_radians())])
    );
}

#[test]
fn orientations_become_rotation_ranges() {
    let rotation = |orientations: Option<Vec<f64>>| {
        importer()
            .import_item(
                &ExtItem {
                    id: 0,
                    allowed_orientations: orientations
                        .map(|angles| angles.into_iter().map(n).collect()),
                    shape: circle(0.0, 0.0, 1.0),
                    min_quality: None,
                },
                &tools(),
            )
            .unwrap()
            .allowed_rotation
    };
    assert_eq!(rotation(None), RotationRange::Continuous);
    assert_eq!(rotation(Some(vec![])), RotationRange::Fixed);
    assert_eq!(rotation(Some(vec![-0.0])), RotationRange::Fixed);
    assert_eq!(
        rotation(Some(vec![180.0])),
        RotationRange::Discrete(vec![n(PI)])
    );
}

#[test]
fn bad_holes_reject_the_item() {
    let rejected = importer()
        .import_item(
            &ExtItem {
                id: 0,
                allowed_orientations: None,
                shape: framed(vec![straight(&[(4.0, 4.0), (6.0, 4.0)])]),
                min_quality: None,
            },
            &tools(),
        )
        .map(|_| ());
    assert_eq!(rejected, Err(GeometryError::TooFewPoints));
}

#[test]
fn containers_collect_zones_by_quality() {
    let container = importer()
        .import_container(
            &ExtContainer {
                id: 7,
                shape: framed(vec![straight(&[(4.0, 4.0), (6.0, 4.0), (6.0, 6.0)])]),
                zones: vec![
                    ExtQualityZone {
                        quality: 2,
                        shape: circle(5.0, 5.0, 1.0),
                    },
                    ExtQualityZone {
                        quality: 0,
                        shape: ExtShape::Rectangle {
                            x_min: n(1.0),
                            y_min: n(1.0),
                            width: n(1.0),
                            height: n(1.0),
                        },
                    },
                    ExtQualityZone {
                        quality: 2,
                        shape: ExtShape::SimplePolygon(straight(&[
                            (0.0, 0.0),
                            (1.0, 0.0),
                            (1.0, 1.0),
                        ])),
                    },
                ],
            },
            &tools(),
        )
        .unwrap();
    assert_eq!(container.id, 7);
    assert_eq!(container.outer.modify_mode, ShapeModifyMode::Deflate);
    assert_eq!(container.outer.modify_config.offset, Some(n(4.0)));
    assert_eq!(container.quality_zones.len(), N_QUALITIES);
    let sizes: Vec<usize> = container
        .quality_zones
        .iter()
        .map(|zone| zone.shapes.len())
        .collect();
    assert_eq!(sizes, vec![2, 0, 2, 0, 0, 0, 0, 0, 0, 0]);
    // The rectangle comes before the hole of the container.
    assert_eq!(v(container.quality_zones[0].shapes[0].shape.area), 1.0);
    assert_eq!(v(container.quality_zones[0].shapes[1].shape.area), 2.0);
    assert!(container.quality_zones[2].shapes[0].shape.has_arcs());
    assert_eq!(container.quality_zones[2].quality, 2);
    assert_eq!(
        container.quality_zones[2].shapes[1].modify_mode,
        ShapeModifyMode::Inflate
    );
}

#[test]
fn containers_are_rejected_for_their_first_fault() {
    let error = |shape: ExtShape, zones: Vec<(usize, ExtShape)>| {
        importer()
            .import_container(
                &ExtContainer {
                    id: 0,
                    shape,
                    zones: zones
                        .into_iter()
                        .map(|(quality, shape)| ExtQualityZone { quality, shape })
                        .collect(),
                },
                &tools(),
            )
            .map(|_| ())
            .unwrap_err()
    };
    let multi = || ExtShape::MultiPolygon(vec![]);
    let flat = || ExtShape::SimplePolygon(straight(&[(0.0, 0.0), (1.0, 0.0)]));
    assert_eq!(
        error(framed(vec![]), vec![(1, framed(vec![]))]),
        GeometryError::UnsupportedZoneShape
    );
    assert_eq!(
        error(framed(vec![]), vec![(1, multi())]),
        GeometryError::UnsupportedZoneShape
    );
    // A fault of a lower quality comes first, wherever its zone stands.
    assert_eq!(
        error(framed(vec![]), vec![(1, multi()), (0, flat())]),
        GeometryError::TooFewPoints
    );
    // So do those of the outline and its holes.
    assert_eq!(
        error(multi(), vec![(1, multi())]),
        GeometryError::UnsupportedMultiPolygon
    );
    assert_eq!(
        error(
            framed(vec![straight(&[(4.0, 4.0), (6.0, 4.0)])]),
            vec![(1, multi())]
        ),
        GeometryError::TooFewPoints
    );
    // A quality that there is not comes before all of them.
    assert_eq!(
        error(multi(), vec![(N_QUALITIES, flat())]),
        GeometryError::UnknownQuality
    );
}

#[test]
fn the_importer_treats_curves_as_configured() {
    let mode = CurvedGeometryMode::Tessellated { tolerance: n(0.01) };
    let native = importer()
        .import_shape_as_simple_polygon(&circle(0.0, 0.0, 1.0), &tools())
        .unwrap();
    assert!(native.has_arcs());
    let tessellated = importer()
        .with_curved_geometry_mode(mode)
        .import_shape_as_simple_polygon(&circle(0.0, 0.0, 1.0), &tools())
        .unwrap();
    assert!(!tessellated.has_arcs());
}

#[test]
fn every_error_has_a_message() {
    assert_eq!(
        GeometryError::NoItems.message(),
        "the instance must have at least one item with positive demand"
    );
    assert_eq!(GeometryError::NoArea.message(), "Simple polygon has no area");
}
