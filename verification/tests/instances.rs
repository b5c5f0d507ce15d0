use nesting_geometry::collision_detection::quadtree::qt_partial_hazard::QTHazPartial;
use nesting_geometry::error::GeometryError;
use nesting_geometry::geometry::fail_fast::sp_surrogate::SPSurrogateConfig;
use nesting_geometry::geometry::primitives::boundary_segment::BoundarySegment;
use nesting_geometry::geometry::primitives::circle::Circle;
use nesting_geometry::geometry::primitives::edge::Edge;
use nesting_geometry::geometry::primitives::point::Point;
use nesting_geometry::geometry::primitives::rect::Rect;
use nesting_geometry::geometry::primitives::simple_polygon::{SPolygon, Toolkit};
use nesting_geometry::geometry::transformation::DTransformation;
use nesting_geometry::io::ext_repr::{ExtContainer, ExtItem, ExtQualityZone, ExtShape};
use nesting_geometry::io::import::importer::{CDEConfig, Importer};
use nesting_geometry::math::Elementary;
use nesting_geometry::num::Num;
use nesting_geometry::probs::bpp::io::import::{
    arrange_bins, arrange_items, import_instance, order_by_id, ExtBPBin, ExtBPInstance, ExtBPItem,
};
use nesting_geometry::probs::bpp::io::solution::{
    import_solution, BPLayoutType, BPPlacement, ExtLayout, ExtPlacedItem,
};
use std::cell::RefCell;

fn n(x: f64) -> Num {
    Num::from_bits(x.to_bits())
}

fn v(x: Num) -> f64 {
    f64::from_bits(x.to_bits())
}

fn p(x: f64, y: f64) -> Point {
    Point(n(x), n(y))
}

fn math(e: Elementary) -> Num {
    match e {
        Elementary::Sin(x) => n(v(x).sin()),
        Elementary::Cos(x) => n(v(x).cos()),
        Elementary::Tan(x) => n(v(x).tan()),
        Elementary::Acos(x) => n(v(x).acos()),
        Elementary::Atan(x) => n(v(x).atan()),
        Elementary::Atan2(y, x) => n(v(y).atan2(v(x))),
    }
}

fn center_of_box(shape: &SPolygon) -> Result<Circle, GeometryError> {
    let b = shape.bbox;
    let half = (v(b.x_max) - v(b.x_min)).min(v(b.y_max) - v(b.y_min)) / 2.0;
    Circle::try_new(
        p((v(b.x_min) + v(b.x_max)) / 2.0, (v(b.y_min) + v(b.y_max)) / 2.0),
        n(half),
    )
}

type Tools = Toolkit<
    fn(Elementary) -> Num,
    fn(&SPolygon) -> Result<Circle, GeometryError>,
>;

fn tools() -> Tools {
    Toolkit {
        math,
        pole: center_of_box,
    }
}

fn square(x: f64, y: f64, side: f64) -> SPolygon {
    SPolygon::new(
        vec![p(x, y), p(x + side, y), p(x + side, y + side), p(x, y + side)],
        &tools(),
    )
    .unwrap()
}

fn collides(hazard: &QTHazPartial, edge: Edge) -> bool {
    hazard.collides_with(
        &|rect: &Rect| rect.collides_with_edge(edge),
        &|segment: &BoundarySegment| edge.collides_with_segment(segment, &math),
    )
}

#[test]
fn hazards_hold_the_segments_of_their_shapes() {
    let outer = square(0.0, 0.0, 10.0);
    let hole = std::sync::Arc::new(square(4.0, 4.0, 2.0));
    let entire = QTHazPartial::from_entire_shape(&outer, &math);
    assert_eq!(entire.n_segments(), 4);
    assert_eq!(entire.ff_bbox, outer.bbox);
    let with_holes = QTHazPartial::from_entire_shape_with_holes(&outer, &[hole], &math);
    assert_eq!(with_holes.n_segments(), 8);
    assert_eq!(with_holes.ff_bbox, outer.bbox);
    let inside = Edge::try_new(p(5.0, 5.0), p(5.0, 9.0)).unwrap();
    assert!(!collides(&entire, inside));
    assert!(collides(&with_holes, inside));
}

#[test]
fn restricted_hazards_shrink_their_box() {
    let parent = QTHazPartial::from_entire_shape(&square(0.0, 0.0, 10.0), &math);
    let corner = QTHazPartial::from_parent(&parent, parent.segments[0..2].to_vec());
    assert_eq!(corner.ff_bbox, parent.ff_bbox);
    // A single side has no extent along one axis: the box of the parent stays.
    let side = QTHazPartial::from_parent(&parent, parent.segments[0..1].to_vec());
    assert_eq!(side.ff_bbox, parent.ff_bbox);
    let slanted = SPolygon::new(
        vec![p(0.0, 0.0), p(10.0, 0.0), p(9.0, 5.0), p(0.0, 10.0)],
        &tools(),
    )
    .unwrap();
    let parent = QTHazPartial::from_entire_shape(&slanted, &math);
    let part = QTHazPartial::from_parent(&parent, parent.segments[1..2].to_vec());
    assert_eq!(
        part.ff_bbox,
        Rect::try_new(n(9.0), n(0.0), n(10.0), n(5.0)).unwrap()
    );
    assert_eq!(part.n_segments(), 1);
}

#[test]
fn what_misses_the_box_is_not_asked_about_segments() {
    let hazard = QTHazPartial::from_entire_shape(&square(0.0, 0.0, 1.0), &math);
    let hit = hazard.collides_with(
        &|_: &Rect| false,
        &|_: &BoundarySegment| panic!("asked about a segment"),
    );
    assert!(!hit);
}

#[test]
fn used_entries_are_ordered_by_their_ids() {
    assert_eq!(
        order_by_id(&[2, 9, 0, 1], &[1, 0, 5, 2]),
        Some(vec![2, 3, 0])
    );
    assert_eq!(order_by_id(&[0, 2], &[1, 1]), None);
    assert_eq!(order_by_id(&[0, 0], &[1, 1]), None);
    assert_eq!(order_by_id(&[1], &[1]), None);
    assert_eq!(
        arrange_items(&[0, 5], &[1, 1]),
        Err(GeometryError::NonConsecutiveItemIds)
    );
    assert_eq!(arrange_items(&[0, 1], &[0, 0]), Err(GeometryError::NoItems));
    assert_eq!(
        arrange_bins(&[3], &[1]),
        Err(GeometryError::NonConsecutiveBinIds)
    );
    assert_eq!(arrange_bins(&[], &[]), Err(GeometryError::NoBins));
    assert_eq!(arrange_bins(&[1, 0], &[4, 4]), Ok(vec![1, 0]));
}

fn rectangle(width: f64) -> ExtShape {
    ExtShape::Rectangle {
        x_min: n(0.0),
        y_min: n(0.0),
        width: n(width),
        height: n(1.0),
    }
}

fn instance(items: &[(u64, u64)], bins: &[(u64, usize)]) -> ExtBPInstance {
    ExtBPInstance {
        items: items
            .iter()
            .map(|(id, demand)| ExtBPItem {
                base: ExtItem {
                    id: *id,
                    allowed_orientations: None,
                    shape: rectangle((*id + 1) as f64),
                    min_quality: None,
                },
                demand: *demand,
            })
            .collect(),
        bins: bins
            .iter()
            .map(|(id, stock)| ExtBPBin {
                base: ExtContainer {
                    id: *id,
                    shape: rectangle(100.0),
                    zones: vec![],
                },
                stock: *stock,
                cost: 10 + *id,
            })
            .collect(),
    }
}

fn importer() -> Importer {
    Importer::new(
        CDEConfig {
            item_surrogate_config: SPSurrogateConfig::none(),
        },
        None,
        None,
        None,
        None,
    )
}

#[test]
fn instances_are_sorted_and_checked() {
    let imported = import_instance(
        &importer(),
        &instance(&[(1, 4), (7, 0), (0, 2)], &[(1, 3), (0, 1)]),
        &tools(),
    )
    .unwrap();
    let items: Vec<(usize, usize, f64)> = imported
        .items
        .iter()
        .map(|(item, demand)| (item.id, *demand, v(item.shape.shape.area)))
        .collect();
    assert_eq!(items, vec![(0, 2, 1.0), (1, 4, 2.0)]);
    let bins: Vec<(usize, usize, u64)> = imported
        .bins
        .iter()
        .map(|bin| (bin.container.id, bin.stock, bin.cost))
        .collect();
    assert_eq!(bins, vec![(0, 1, 10), (1, 3, 11)]);

    let error = |items: &[(u64, u64)], bins: &[(u64, usize)]| {
        import_instance(&importer(), &instance(items, bins), &tools())
            .map(|_| ())
            .unwrap_err()
    };
    assert_eq!(
        error(&[(1, 1)], &[(0, 1)]),
        GeometryError::NonConsecutiveItemIds
    );
    assert_eq!(error(&[(0, 0)], &[(0, 1)]), GeometryError::NoItems);
    assert_eq!(
        error(&[(0, 1)], &[(0, 1), (2, 1)]),
        GeometryError::NonConsecutiveBinIds
    );
    assert_eq!(error(&[(0, 1)], &[(0, 0)]), GeometryError::NoBins);

    // What is wrong with an item comes first, whatever the zones of the bins are.
    let mut faulty = instance(&[(0, 0)], &[(0, 1)]);
    faulty.bins[0].base.zones.push(ExtQualityZone {
        quality: 0,
        shape: ExtShape::MultiPolygon(vec![]),
    });
    let result = |faulty: &ExtBPInstance| {
        import_instance(&importer(), faulty, &tools())
            .map(|_| ())
            .unwrap_err()
    };
    assert_eq!(result(&faulty), GeometryError::NoItems);
    faulty.items[0].demand = 1;
    assert_eq!(result(&faulty), GeometryError::UnsupportedZoneShape);
    faulty.bins[0].base.zones[0].quality = 10;
    assert_eq!(result(&faulty), GeometryError::UnknownQuality);
}

#[test]
fn solutions_are_placed_layout_by_layout() {
    let placed = |item_id: u64, x: f64| ExtPlacedItem {
        item_id,
        transformation: DTransformation {
            rotation: n(0.0),
            translation: (n(x), n(0.0)),
        },
    };
    let layouts = [
        ExtLayout {
            container_id: 4,
            placed_items: vec![placed(0, 1.0), placed(1, 2.0)],
        },
        ExtLayout {
            container_id: 5,
            placed_items: vec![],
        },
        ExtLayout {
            container_id: 6,
            placed_items: vec![placed(0, 3.0)],
        },
    ];
    let pre_transforms = [
        DTransformation {
            rotation: n(0.0),
            translation: (n(-10.0), n(0.0)),
        },
        DTransformation::empty(),
    ];
    let open_layouts: RefCell<u64> = RefCell::new(100);
    let place = |placement: &BPPlacement| match placement.layout_id {
        BPLayoutType::Open(key) => key,
        BPLayoutType::Closed { .. } => {
            *open_layouts.borrow_mut() += 1;
            *open_layouts.borrow()
        }
    };
    let placements = import_solution(&layouts, &pre_transforms, &place, &math);
    assert_eq!(
        placements
            .iter()
            .map(|(placement, key)| (placement.layout_id, placement.item_id, *key))
            .collect::<Vec<(BPLayoutType, usize, u64)>>(),
        vec![
            (BPLayoutType::Closed { bin_id: 4 }, 0, 101),
            (BPLayoutType::Open(101), 1, 101),
            (BPLayoutType::Closed { bin_id: 6 }, 0, 102),
        ]
    );
    // The transformation to the internal shape is undone first.
    assert_eq!(v(placements[0].0.d_transf.translation.0), 11.0);
    assert_eq!(v(placements[1].0.d_transf.translation.0), 2.0);
    assert_eq!(v(placements[2].0.d_transf.translation.0), 13.0);
}
