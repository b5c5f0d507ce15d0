//! Importing containers.
use vstd::prelude::*;

use crate::error::GeometryError;
use crate::geometry::original_shape::OriginalShape;
use crate::geometry::primitives::circle::Circle;
use crate::geometry::primitives::rect::Rect;
use crate::geometry::primitives::simple_polygon::{SPolygon, Toolkit};
use crate::geometry::shape_modification::ShapeModifyMode;
use crate::geometry::transformation::DTransformation;
use crate::io::ext_repr::{ExtContainer, ExtQualityZone, ExtShape};
use crate::io::import::importer::{CDEConfig, Importer};
use crate::io::import::items::import_holes;
use crate::io::import::shapes::import_simple_polygon;
use crate::math::Elementary;
use crate::num::Num;

verus! {

/// How many qualities there are, from the worst on.
pub const N_QUALITIES: usize = 10;

/// The parts of a container that are of one quality below the best.
pub struct ImportedZone {
    pub quality: usize,
    pub shapes: Vec<OriginalShape>,
}

/// What a container is made of.
pub struct ImportedContainer {
    pub id: usize,
    pub outer: OriginalShape,
    /// One zone for each quality, in order.
    pub quality_zones: Vec<ImportedZone>,
    pub cde_config: CDEConfig,
}

/// The zones among the first `n` that have the given quality, in order.
pub open spec fn zones_of(zones: Seq<ExtQualityZone>, quality: usize, n: nat) -> Seq<ExtShape>
    decreases n,
{
    if n == 0 {
        Seq::empty()
    } else {
        let before = zones_of(zones, quality, (n - 1) as nat);
        if zones[n - 1].quality == quality {
            before.push(zones[n - 1].shape)
        } else {
            before
        }
    }
}

/// Every zone has a quality below the best.
pub open spec fn has_known_qualities(zones: Seq<ExtQualityZone>) -> bool {
    forall|i: int| 0 <= i < zones.len() ==> (#[trigger] zones[i]).quality < N_QUALITIES
}

fn qualities_are_known(zones: &[ExtQualityZone]) -> (r: bool)
    ensures
        r == has_known_qualities(zones@),
{
    let mut i: usize = 0;
    while i < zones.len()
        invariant
            i <= zones@.len(),
            forall|j: int| 0 <= j < i ==> (#[trigger] zones@[j]).quality < N_QUALITIES,
        decreases zones.len() - i,
    {
        if zones[i].quality >= N_QUALITIES {
            assert(zones@[i as int].quality >= N_QUALITIES);
            return false;
        }
        i = i + 1;
    }
    true
}

impl Importer {
    /// `r` is a possible outcome when the shape of a zone is imported.
    ///
    /// Curves are treated as configured. What may have holes is no shape of a zone.
    pub open spec fn imports_zone<
        M: Fn(Elementary) -> Num,
        P: Fn(&SPolygon) -> Result<Circle, GeometryError>,
    >(
        self,
        shape: &ExtShape,
        tools: &Toolkit<M, P>,
        r: Result<SPolygon, GeometryError>,
    ) -> bool {
        match shape {
            ExtShape::Rectangle { .. } => crate::io::import::shapes::is_shape_import(
                shape,
                tools,
                r,
            ),
            ExtShape::SimplePolygon(polygon) => crate::io::import::shapes::is_straight_import(
                polygon,
                tools,
                r,
            ),
            ExtShape::Polygon(_) | ExtShape::MultiPolygon(_) => r == Err::<SPolygon, _>(
                GeometryError::UnsupportedZoneShape,
            ),
            _ => self.imports(shape, tools, r),
        }
    }

    /// The import of the shape of a zone can succeed.
    pub open spec fn can_import_zone<
        M: Fn(Elementary) -> Num,
        P: Fn(&SPolygon) -> Result<Circle, GeometryError>,
    >(self, shape: ExtShape, tools: &Toolkit<M, P>) -> bool {
        exists|r: SPolygon| #[trigger] self.imports_zone(&shape, tools, Ok(r))
    }

    /// Zone `i` cannot be imported, and all of lower quality, or of the same and before it, can.
    pub open spec fn fails_first_at_zone<
        M: Fn(Elementary) -> Num,
        P: Fn(&SPolygon) -> Result<Circle, GeometryError>,
    >(
        self,
        zones: Seq<ExtQualityZone>,
        i: int,
        tools: &Toolkit<M, P>,
        e: GeometryError,
    ) -> bool {
        &&& 0 <= i < zones.len()
        &&& self.imports_zone(&zones[i].shape, tools, Err(e))
        &&& forall|j: int|
            0 <= j < zones.len() && (zones[j].quality < zones[i].quality || (zones[j].quality
                == zones[i].quality && j < i)) ==> self.can_import_zone(
                (#[trigger] zones[j]).shape,
                tools,
            )
    }

    fn import_zone_shape<
        M: Fn(Elementary) -> Num,
        P: Fn(&SPolygon) -> Result<Circle, GeometryError>,
    >(&self, shape: &ExtShape, tools: &Toolkit<M, P>) -> (r: Result<SPolygon, GeometryError>)
        requires
            tools.usable(),
        ensures
            self.imports_zone(shape, tools, r),
    {
        match shape {
            ExtShape::Rectangle { x_min, y_min, width, height } => match Rect::try_new(
                *x_min,
                *y_min,
                x_min.add(*width),
                y_min.add(*height),
            ) {
                Err(e) => Err(e),
                Ok(rect) => SPolygon::from_rect(rect, tools),
            },
            ExtShape::SimplePolygon(polygon) => import_simple_polygon(polygon, tools),
            ExtShape::Polygon(_) => Err(GeometryError::UnsupportedZoneShape),
            ExtShape::MultiPolygon(_) => Err(GeometryError::UnsupportedZoneShape),
            shape => self.import_shape_as_simple_polygon(shape, tools),
        }
    }

    /// An original shape in a container: a possible import of a zone, which grows.
    pub open spec fn makes_hazard<
        M: Fn(Elementary) -> Num,
        P: Fn(&SPolygon) -> Result<Circle, GeometryError>,
    >(self, shape: &ExtShape, tools: &Toolkit<M, P>, r: OriginalShape) -> bool {
        &&& self.imports_zone(shape, tools, Ok(r.shape))
        &&& r.pre_transform == DTransformation::empty()
        &&& r.modify_mode == ShapeModifyMode::Inflate
        &&& r.modify_config == self.bin_modify_config
    }

    fn import_zones<
        M: Fn(Elementary) -> Num,
        P: Fn(&SPolygon) -> Result<Circle, GeometryError>,
    >(&self, zones: &[ExtQualityZone], quality: usize, tools: &Toolkit<M, P>) -> (r: Result<
        Vec<OriginalShape>,
        GeometryError,
    >)
        requires
            tools.usable(),
        ensures
            match r {
                Ok(shapes) => {
                    let expected = zones_of(zones@, quality, zones@.len());
                    &&& shapes@.len() == expected.len()
                    &&& forall|i: int|
                        0 <= i < expected.len() ==> self.makes_hazard(
                            &expected[i],
                            tools,
                            #[trigger] shapes@[i],
                        )
                    &&& forall|i: int|
                        0 <= i < zones@.len() && (#[trigger] zones@[i]).quality == quality
                            ==> self.can_import_zone(zones@[i].shape, tools)
                },
                Err(e) => exists|i: int|
                    {
                        &&& 0 <= i < zones@.len()
                        &&& (#[trigger] zones@[i]).quality == quality
                        &&& self.imports_zone(&zones@[i].shape, tools, Err(e))
                        &&& forall|j: int|
                            0 <= j < i && (#[trigger] zones@[j]).quality == quality
                                ==> self.can_import_zone(zones@[j].shape, tools)
                    },
            },
    {
        let mut shapes: Vec<OriginalShape> = Vec::new();
        let mut i: usize = 0;
        while i < zones.len()
            invariant
                i <= zones@.len(),
                tools.usable(),
                shapes@.len() == zones_of(zones@, quality, i as nat).len(),
                forall|j: int|
                    0 <= j < shapes@.len() ==> self.makes_hazard(
                        &zones_of(zones@, quality, i as nat)[j],
                        tools,
                        #[trigger] shapes@[j],
                    ),
                forall|j: int|
                    0 <= j < i && (#[trigger] zones@[j]).quality == quality
                        ==> self.can_import_zone(zones@[j].shape, tools),
            decreases zones.len() - i,
        {
            if zones[i].quality == quality {
                match self.import_zone_shape(&zones[i].shape, tools) {
                    Ok(shape) => {
                        assert(self.imports_zone(&zones@[i as int].shape, tools, Ok(shape)));
                        shapes.push(
                            OriginalShape {
                                shape,
                                pre_transform: DTransformation::empty(),
                                modify_mode: ShapeModifyMode::Inflate,
                                modify_config: self.bin_modify_config,
                            },
                        );
                    },
                    Err(e) => {
                        assert(zones@[i as int].quality == quality);
                        return Err(e);
                    },
                }
            }
            i = i + 1;
        }
        Ok(shapes)
    }

    /// The zone of a quality holds the imports of the zones of that quality, in order; that of
    /// the worst quality also holds the holes of the container, after them.
    pub open spec fn makes_zone<
        M: Fn(Elementary) -> Num,
        P: Fn(&SPolygon) -> Result<Circle, GeometryError>,
    >(self, ext_cont: &ExtContainer, quality: usize, tools: &Toolkit<M, P>, zone: ImportedZone) -> bool {
        let expected = zones_of(ext_cont.zones@, quality, ext_cont.zones@.len());
        let holes = if quality == 0 {
            crate::io::import::items::holes_of(ext_cont.shape)
        } else {
            Seq::empty()
        };
        &&& zone.quality == quality
        &&& zone.shapes@.len() == expected.len() + holes.len()
        &&& forall|i: int|
            0 <= i < expected.len() ==> self.makes_hazard(
                &expected[i],
                tools,
                #[trigger] zone.shapes@[i],
            )
        &&& forall|i: int|
            expected.len() <= i < zone.shapes@.len() ==> crate::io::import::items::is_hole_import(
                &holes[i - expected.len()],
                DTransformation::empty(),
                ShapeModifyMode::Inflate,
                self.bin_modify_config,
                tools,
                #[trigger] zone.shapes@[i],
            )
    }

    /// `container` is what an external container may become.
    pub open spec fn makes_container<
        M: Fn(Elementary) -> Num,
        P: Fn(&SPolygon) -> Result<Circle, GeometryError>,
    >(self, ext_cont: &ExtContainer, tools: &Toolkit<M, P>, container: ImportedContainer) -> bool {
        &&& has_known_qualities(ext_cont.zones@)
        &&& container.id == ext_cont.id as usize
        &&& self.imports(&ext_cont.shape, tools, Ok(container.outer.shape))
        &&& container.outer.pre_transform == DTransformation::empty()
        &&& container.outer.modify_mode == ShapeModifyMode::Deflate
        &&& container.outer.modify_config == self.bin_modify_config
        &&& container.quality_zones@.len() == N_QUALITIES
        &&& forall|q: int|
            0 <= q < N_QUALITIES ==> self.makes_zone(
                ext_cont,
                q as usize,
                tools,
                #[trigger] container.quality_zones@[q],
            )
        &&& container.cde_config == self.cde_config
    }

    /// An external container may be rejected for this reason: a quality is unknown, or else the
    /// outline, a hole or a zone cannot be imported.
    pub open spec fn rejects_container<
        M: Fn(Elementary) -> Num,
        P: Fn(&SPolygon) -> Result<Circle, GeometryError>,
    >(self, ext_cont: &ExtContainer, tools: &Toolkit<M, P>, e: GeometryError) -> bool {
        let holes = crate::io::import::items::holes_of(ext_cont.shape);
        ||| !has_known_qualities(ext_cont.zones@) && e == GeometryError::UnknownQuality
        ||| has_known_qualities(ext_cont.zones@) && self.imports(&ext_cont.shape, tools, Err(e))
        ||| {
            &&& has_known_qualities(ext_cont.zones@)
            &&& self.can_import(&ext_cont.shape, tools)
            &&& exists|i: int| #[trigger]
                crate::io::import::items::fails_first(holes, i, tools, e)
        }
        ||| {
            &&& has_known_qualities(ext_cont.zones@)
            &&& self.can_import(&ext_cont.shape, tools)
            &&& forall|i: int|
                0 <= i < holes.len() ==> crate::io::import::items::can_be_imported(
                    #[trigger] holes[i],
                    tools,
                )
            &&& exists|i: int| #[trigger]
                self.fails_first_at_zone(ext_cont.zones@, i, tools, e)
        }
    }

    /// Imports a container.
    ///
    /// The outline shrinks when it is modified, and what is of inferior quality grows; holes
    /// are of the worst quality. It fails if a zone has an unknown quality, or if the outline, a
    /// hole or a zone cannot be imported.
    pub fn import_container<
        M: Fn(Elementary) -> Num,
        P: Fn(&SPolygon) -> Result<Circle, GeometryError>,
    >(&self, ext_cont: &ExtContainer, tools: &Toolkit<M, P>) -> (r: Result<
        ImportedContainer,
        GeometryError,
    >)
        requires
            tools.usable(),
        ensures
            match r {
                Ok(container) => self.makes_container(ext_cont, tools, container)
                    && container.outer.shape.valid(&tools.math),
                Err(e) => self.rejects_container(ext_cont, tools, e),
            },
    {
        if !qualities_are_known(&ext_cont.zones) {
            return Err(GeometryError::UnknownQuality);
        }
        let outline: SPolygon = match self.import_shape_as_simple_polygon(&ext_cont.shape, tools) {
            Ok(shape) => shape,
            Err(e) => return Err(e),
        };
        assert(self.imports(&ext_cont.shape, tools, Ok(outline)));
        let outer: OriginalShape = OriginalShape {
            shape: outline,
            pre_transform: DTransformation::empty(),
            modify_mode: ShapeModifyMode::Deflate,
            modify_config: self.bin_modify_config,
        };
        let mut holes: Vec<OriginalShape> = match &ext_cont.shape {
            ExtShape::Polygon(polygon) => {
                match import_holes(
                    &polygon.inner,
                    DTransformation::empty(),
                    ShapeModifyMode::Inflate,
                    self.bin_modify_config,
                    tools,
                ) {
                    Ok(holes) => holes,
                    Err(e) => {
                        return Err(e);
                    },
                }
            },
            _ => Vec::new(),
        };
        let ghost hole_shapes = holes@;
        proof {
            let ext_holes = crate::io::import::items::holes_of(ext_cont.shape);
            assert forall|i: int|
                0 <= i < ext_holes.len() implies crate::io::import::items::can_be_imported(
                #[trigger] ext_holes[i],
                tools,
            ) by {
                assert(crate::io::import::shapes::is_straight_import(
                    &ext_holes[i],
                    tools,
                    Ok(hole_shapes[i].shape),
                ));
            }
        }
        let mut quality_zones: Vec<ImportedZone> = Vec::new();
        let mut q: usize = 0;
        while q < N_QUALITIES
            invariant
                q <= N_QUALITIES,
                tools.usable(),
                has_known_qualities(ext_cont.zones@),
                q == 0 ==> holes@ == hole_shapes,
                hole_shapes.len() == crate::io::import::items::holes_of(ext_cont.shape).len(),
                forall|i: int|
                    0 <= i < hole_shapes.len() ==> crate::io::import::items::is_hole_import(
                        &crate::io::import::items::holes_of(ext_cont.shape)[i],
                        DTransformation::empty(),
                        ShapeModifyMode::Inflate,
                        self.bin_modify_config,
                        tools,
                        #[trigger] hole_shapes[i],
                    ),
                self.can_import(&ext_cont.shape, tools),
                forall|i: int|
                    0 <= i < hole_shapes.len() ==> crate::io::import::items::can_be_imported(
                        #[trigger] crate::io::import::items::holes_of(ext_cont.shape)[i],
                        tools,
                    ),
                forall|i: int|
                    0 <= i < ext_cont.zones@.len() && (#[trigger] ext_cont.zones@[i]).quality < q
                        ==> self.can_import_zone(ext_cont.zones@[i].shape, tools),
                quality_zones@.len() == q,
                forall|k: int|
                    0 <= k < q ==> self.makes_zone(
                        ext_cont,
                        k as usize,
                        tools,
                        #[trigger] quality_zones@[k],
                    ),
            decreases N_QUALITIES - q,
        {
            let mut shapes: Vec<OriginalShape> = match self.import_zones(
                &ext_cont.zones,
                q,
                tools,
            ) {
                Ok(shapes) => shapes,
                Err(e) => {
                    let ghost i = choose|i: int|
                        {
                            &&& 0 <= i < ext_cont.zones@.len()
                            &&& (#[trigger] ext_cont.zones@[i]).quality == q
                            &&& self.imports_zone(&ext_cont.zones@[i].shape, tools, Err(e))
                            &&& forall|j: int|
                                0 <= j < i && (#[trigger] ext_cont.zones@[j]).quality == q
                                    ==> self.can_import_zone(ext_cont.zones@[j].shape, tools)
                        };
                    assert(self.fails_first_at_zone(ext_cont.zones@, i, tools, e));
                    return Err(e);
                },
            };
            if q == 0 {
                shapes.append(&mut holes);
            }
            let zone: ImportedZone = ImportedZone { quality: q, shapes };
            assert(self.makes_zone(ext_cont, q, tools, zone));
            quality_zones.push(zone);
            q = q + 1;
        }
        Ok(
            ImportedContainer {
                id: ext_cont.id as usize,
                outer,
                quality_zones,
                cde_config: self.cde_config,
            },
        )
    }
}

/// What becomes of a container with a zone that may have holes is an error, whatever the rest
/// is.
pub proof fn zones_with_holes_are_rejected<
    M: Fn(Elementary) -> Num,
    P: Fn(&SPolygon) -> Result<Circle, GeometryError>,
>(
    importer: Importer,
    ext_cont: &ExtContainer,
    i: int,
    tools: &Toolkit<M, P>,
    container: ImportedContainer,
)
    requires
        0 <= i < ext_cont.zones@.len(),
        ext_cont.zones@[i].shape is Polygon || ext_cont.zones@[i].shape is MultiPolygon,
    ensures
        !importer.makes_container(ext_cont, tools, container),
{
    let zones = ext_cont.zones@;
    let quality = zones[i].quality;
    if importer.makes_container(ext_cont, tools, container) {
        every_zone_has_its_place(zones, i, zones.len());
        let expected = zones_of(zones, quality, zones.len());
        let k = choose|k: int| 0 <= k < expected.len() && expected[k] == zones[i].shape;
        let zone = container.quality_zones@[quality as int];
        assert(importer.makes_zone(ext_cont, quality, tools, zone));
        assert(importer.makes_hazard(&expected[k], tools, zone.shapes@[k]));
    }
}

/// Every zone is among those of its quality.
pub proof fn every_zone_has_its_place(zones: Seq<ExtQualityZone>, i: int, n: nat)
    requires
        0 <= i < n <= zones.len(),
    ensures
        zones_of(zones, zones[i].quality, n).contains(zones[i].shape),
    decreases n,
{
    let quality = zones[i].quality;
    let all = zones_of(zones, quality, n);
    if i == n - 1 {
        assert(all[all.len() - 1] == zones[i].shape);
    } else {
        every_zone_has_its_place(zones, i, (n - 1) as nat);
        let before = zones_of(zones, quality, (n - 1) as nat);
        let k = choose|k: int| 0 <= k < before.len() && before[k] == zones[i].shape;
        assert(all[k] == zones[i].shape);
    }
}

} // verus!
