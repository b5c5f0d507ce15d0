//! Importing items.
use vstd::prelude::*;

use crate::error::GeometryError;
use crate::geometry::fail_fast::sp_surrogate::SPSurrogateConfig;
use crate::geometry::geo_enums::RotationRange;
use crate::geometry::original_shape::OriginalShape;
use crate::geometry::primitives::circle::Circle;
use crate::geometry::primitives::simple_polygon::{SPolygon, Toolkit};
use crate::geometry::shape_modification::{ShapeModifyConfig, ShapeModifyMode};
use crate::geometry::transformation::DTransformation;
use crate::io::ext_repr::{ExtItem, ExtSPolygon, ExtShape};
use crate::io::import::importer::Importer;
use crate::io::import::shapes::import_simple_polygon;
use crate::io::import::transformations::centering_transformation;
use crate::math::Elementary;
use crate::num::Num;

verus! {

/// What an item is made of.
pub struct ImportedItem {
    pub id: usize,
    pub shape: OriginalShape,
    /// The free pockets in the shape.
    pub holes: Vec<OriginalShape>,
    pub allowed_rotation: RotationRange,
    pub min_quality: Option<usize>,
    pub surrogate_config: SPSurrogateConfig,
}

/// An angle in degrees, in radians.
pub open spec fn spec_to_radians(angle: Num) -> Num {
    angle.mul(Num::pi().div(Num::from_usize(180)))
}

#[verifier::when_used_as_spec(spec_to_radians)]
pub fn to_radians(angle: Num) -> (r: Num)
    ensures
        r == spec_to_radians(angle),
{
    angle.mul(Num::pi().div(Num::from_usize(180)))
}

/// `r` is the range of the allowed orientations: any if they are not given, none but the
/// one as it is if there are none or only that one, and else the given ones.
pub open spec fn is_rotation_range(orientations: Option<Vec<Num>>, r: RotationRange) -> bool {
    match orientations {
        None => r == RotationRange::Continuous,
        Some(angles) => if angles@.len() == 0 || (angles@.len() == 1 && angles@[0].num_eq(
            Num::zero(),
        )) {
            r == RotationRange::Fixed
        } else {
            r matches RotationRange::Discrete(radians) && radians@ == angles@.map_values(
                |angle: Num| to_radians(angle),
            )
        },
    }
}

pub fn rotation_range(orientations: &Option<Vec<Num>>) -> (r: RotationRange)
    ensures
        is_rotation_range(*orientations, r),
{
    match orientations {
        None => RotationRange::Continuous,
        Some(angles) => {
            if angles.len() == 0 || (angles.len() == 1 && angles[0].num_eq(Num::zero())) {
                return RotationRange::Fixed;
            }
            let mut radians: Vec<Num> = Vec::new();
            let mut i: usize = 0;
            while i < angles.len()
                invariant
                    i <= angles@.len(),
                    radians@.len() == i,
                    forall|j: int| 0 <= j < i ==> #[trigger] radians@[j] == to_radians(angles@[j]),
                decreases angles.len() - i,
            {
                radians.push(to_radians(angles[i]));
                i = i + 1;
            }
            assert(radians@ =~= angles@.map_values(|angle: Num| to_radians(angle)));
            RotationRange::Discrete(radians)
        },
    }
}

/// The shape of an original one is a possible import of a hole, and it is treated as given.
pub open spec fn is_hole_import<
    M: Fn(Elementary) -> Num,
    P: Fn(&SPolygon) -> Result<Circle, GeometryError>,
>(
    hole: &ExtSPolygon,
    pre_transform: DTransformation,
    modify_mode: ShapeModifyMode,
    modify_config: ShapeModifyConfig,
    tools: &Toolkit<M, P>,
    r: OriginalShape,
) -> bool {
    &&& crate::io::import::shapes::is_straight_import(hole, tools, Ok(r.shape))
    &&& r.pre_transform == pre_transform
    &&& r.modify_mode == modify_mode
    &&& r.modify_config == modify_config
}

/// Hole `i` cannot be imported, and all the holes before it can.
pub open spec fn fails_first<
    M: Fn(Elementary) -> Num,
    P: Fn(&SPolygon) -> Result<Circle, GeometryError>,
>(holes: Seq<ExtSPolygon>, i: int, tools: &Toolkit<M, P>, e: GeometryError) -> bool {
    &&& 0 <= i < holes.len()
    &&& crate::io::import::shapes::is_straight_import(&holes[i], tools, Err(e))
    &&& forall|j: int| 0 <= j < i ==> can_be_imported(#[trigger] holes[j], tools)
}

/// The import of a hole can succeed.
pub open spec fn can_be_imported<
    M: Fn(Elementary) -> Num,
    P: Fn(&SPolygon) -> Result<Circle, GeometryError>,
>(hole: ExtSPolygon, tools: &Toolkit<M, P>) -> bool {
    exists|shape: SPolygon| #[trigger]
        crate::io::import::shapes::is_straight_import(&hole, tools, Ok(shape))
}

/// Imports holes, each with the same treatment, up to the first that fails.
pub fn import_holes<
    M: Fn(Elementary) -> Num,
    P: Fn(&SPolygon) -> Result<Circle, GeometryError>,
>(
    holes: &[ExtSPolygon],
    pre_transform: DTransformation,
    modify_mode: ShapeModifyMode,
    modify_config: ShapeModifyConfig,
    tools: &Toolkit<M, P>,
) -> (r: Result<Vec<OriginalShape>, GeometryError>)
    requires
        tools.usable(),
    ensures
        match r {
            Ok(shapes) => {
                &&& shapes@.len() == holes@.len()
                &&& forall|i: int|
                    0 <= i < holes@.len() ==> is_hole_import(
                        &holes@[i],
                        pre_transform,
                        modify_mode,
                        modify_config,
                        tools,
                        #[trigger] shapes@[i],
                    )
                &&& forall|i: int|
                    0 <= i < holes@.len() ==> (#[trigger] shapes@[i]).shape.valid(&tools.math)
            },
            Err(e) => exists|i: int| #[trigger] fails_first(holes@, i, tools, e),
        },
{
    let mut shapes: Vec<OriginalShape> = Vec::new();
    let mut i: usize = 0;
    while i < holes.len()
        invariant
            i <= holes@.len(),
            tools.usable(),
            shapes@.len() == i,
            forall|j: int|
                0 <= j < i ==> is_hole_import(
                    &holes@[j],
                    pre_transform,
                    modify_mode,
                    modify_config,
                    tools,
                    #[trigger] shapes@[j],
                ),
            forall|j: int| 0 <= j < i ==> (#[trigger] shapes@[j]).shape.valid(&tools.math),
            forall|j: int| 0 <= j < i ==> can_be_imported(#[trigger] holes@[j], tools),
        decreases holes.len() - i,
    {
        match import_simple_polygon(&holes[i], tools) {
            Ok(shape) => {
                assert(crate::io::import::shapes::is_straight_import(
                    &holes@[i as int],
                    tools,
                    Ok(shape),
                ));
                shapes.push(OriginalShape { shape, pre_transform, modify_mode, modify_config });
            },
            Err(e) => {
                assert(fails_first(holes@, i as int, tools, e));
                return Err(e);
            },
        }
        i = i + 1;
    }
    Ok(shapes)
}

/// The holes of an external shape.
pub open spec fn holes_of(shape: ExtShape) -> Seq<ExtSPolygon> {
    match shape {
        ExtShape::Polygon(polygon) => polygon.inner@,
        _ => Seq::empty(),
    }
}

impl Importer {
    /// `r` is a possible outcome when the outline of an item is imported.
    ///
    /// Curves are treated as configured, except that there are none in a polygon with holes.
    pub open spec fn imports_outline<
        M: Fn(Elementary) -> Num,
        P: Fn(&SPolygon) -> Result<Circle, GeometryError>,
    >(
        self,
        shape: &ExtShape,
        tools: &Toolkit<M, P>,
        r: Result<SPolygon, GeometryError>,
    ) -> bool {
        match shape {
            ExtShape::Polygon(polygon) => crate::io::import::shapes::is_straight_import(
                &polygon.outer,
                tools,
                r,
            ),
            _ => self.imports(shape, tools, r),
        }
    }

    /// `item` is what an external item may become.
    pub open spec fn makes_item<
        M: Fn(Elementary) -> Num,
        P: Fn(&SPolygon) -> Result<Circle, GeometryError>,
    >(self, ext_item: &ExtItem, tools: &Toolkit<M, P>, item: ImportedItem) -> bool {
        let holes = holes_of(ext_item.shape);
        let pre_transform = crate::io::import::transformations::translation_to_origin(
            crate::io::import::transformations::centroid_of(&item.shape.shape, &tools.math),
        );
        &&& item.id == ext_item.id as usize
        &&& self.imports_outline(&ext_item.shape, tools, Ok(item.shape.shape))
        &&& item.shape.pre_transform == pre_transform
        &&& item.shape.modify_mode == ShapeModifyMode::Inflate
        &&& item.shape.modify_config == self.shape_modify_config
        &&& item.holes@.len() == holes.len()
        &&& forall|i: int|
            0 <= i < holes.len() ==> is_hole_import(
                &holes[i],
                pre_transform,
                ShapeModifyMode::Deflate,
                self.hole_modify_config,
                tools,
                #[trigger] item.holes@[i],
            )
        &&& is_rotation_range(ext_item.allowed_orientations, item.allowed_rotation)
        &&& item.min_quality == ext_item.min_quality
        &&& item.surrogate_config == self.cde_config.item_surrogate_config
    }

    /// An external item may be rejected for this reason: the outline or one of the holes cannot
    /// be imported.
    pub open spec fn rejects_item<
        M: Fn(Elementary) -> Num,
        P: Fn(&SPolygon) -> Result<Circle, GeometryError>,
    >(self, ext_item: &ExtItem, tools: &Toolkit<M, P>, e: GeometryError) -> bool {
        ||| self.imports_outline(&ext_item.shape, tools, Err(e))
        ||| {
            &&& exists|outline: SPolygon| #[trigger]
                self.imports_outline(&ext_item.shape, tools, Ok(outline))
            &&& exists|i: int| #[trigger] fails_first(holes_of(ext_item.shape), i, tools, e)
        }
    }

    /// Imports an item.
    ///
    /// The outline grows when it is modified, and is centered first; the inner rings of a
    /// polygon become holes, which move with the outline and shrink. It fails if the outline
    /// or one of the holes cannot be imported.
    pub fn import_item<
        M: Fn(Elementary) -> Num,
        P: Fn(&SPolygon) -> Result<Circle, GeometryError>,
    >(&self, ext_item: &ExtItem, tools: &Toolkit<M, P>) -> (r: Result<ImportedItem, GeometryError>)
        requires
            tools.usable(),
        ensures
            match r {
                Ok(item) => self.makes_item(ext_item, tools, item) && item.shape.shape.valid(
                    &tools.math,
                ),
                Err(e) => self.rejects_item(ext_item, tools, e),
            },
    {
        let outline: Result<SPolygon, GeometryError> = match &ext_item.shape {
            ExtShape::Polygon(polygon) => import_simple_polygon(&polygon.outer, tools),
            shape => self.import_shape_as_simple_polygon(shape, tools),
        };
        let shape: SPolygon = match outline {
            Ok(shape) => shape,
            Err(e) => return Err(e),
        };
        let pre_transform: DTransformation = centering_transformation(&shape, &tools.math);
        let holes: Vec<OriginalShape> = match &ext_item.shape {
            ExtShape::Polygon(polygon) => {
                match import_holes(
                    &polygon.inner,
                    pre_transform,
                    ShapeModifyMode::Deflate,
                    self.hole_modify_config,
                    tools,
                ) {
                    Ok(holes) => holes,
                    Err(e) => {
                        let ghost i = choose|i: int| #[trigger]
                            fails_first(polygon.inner@, i, tools, e);
                        assert(holes_of(ext_item.shape) == polygon.inner@);
                        assert(fails_first(holes_of(ext_item.shape), i, tools, e));
                        assert(self.imports_outline(&ext_item.shape, tools, Ok(shape)));
                        assert(self.rejects_item(ext_item, tools, e));
                        return Err(e);
                    },
                }
            },
            _ => Vec::new(),
        };
        Ok(
            ImportedItem {
                id: ext_item.id as usize,
                shape: OriginalShape {
                    shape,
                    pre_transform,
                    modify_mode: ShapeModifyMode::Inflate,
                    modify_config: self.shape_modify_config,
                },
                holes,
                allowed_rotation: rotation_range(&ext_item.allowed_orientations),
                min_quality: ext_item.min_quality,
                surrogate_config: self.cde_config.item_surrogate_config,
            },
        )
    }
}

} // verus!
