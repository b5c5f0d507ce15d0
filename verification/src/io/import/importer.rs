//! How shapes are to be imported.
use vstd::prelude::*;

use crate::error::GeometryError;
use crate::geometry::fail_fast::sp_surrogate::SPSurrogateConfig;
use crate::geometry::primitives::circle::Circle;
use crate::geometry::primitives::simple_polygon::{SPolygon, Toolkit};
use crate::geometry::shape_modification::ShapeModifyConfig;
use crate::io::ext_repr::ExtShape;
use crate::io::import::shapes::{
    apply_curved_geometry_mode, import_shape_as_simple_polygon, CurvedGeometryMode,
};
use crate::math::Elementary;
use crate::num::Num;

verus! {

/// Configuration of the collision detection.
#[derive(Clone, Copy, Debug, PartialEq, Eq)]
pub struct CDEConfig {
    /// How surrogates of items are generated.
    pub item_surrogate_config: SPSurrogateConfig,
}

/// Converts external representations of items and containers into internal ones.
#[derive(Clone, Copy, Debug)]
pub struct Importer {
    /// Modifications of item outlines, which grow by half the separation between items.
    pub shape_modify_config: ShapeModifyConfig,
    /// Modifications of containers and of the hazards in them, compensated for the growth of
    /// the items.
    pub bin_modify_config: ShapeModifyConfig,
    /// Modifications of holes in items; a positive offset shrinks the free pocket.
    pub hole_modify_config: ShapeModifyConfig,
    pub cde_config: CDEConfig,
    pub curved_geometry_mode: CurvedGeometryMode,
}

/// The offset of items: half the separation between them.
pub open spec fn item_offset(min_item_separation: Option<Num>) -> Option<Num> {
    match min_item_separation {
        Some(separation) => Some(separation.div(Num::two())),
        None => None,
    }
}

/// The separation from something that does not grow, less the offset of the items.
pub open spec fn remaining_offset(separation: Option<Num>, min_item_separation: Option<Num>) -> Option<
    Num,
> {
    match separation {
        Some(separation) => Some(
            separation.sub(
                match item_offset(min_item_separation) {
                    Some(offset) => offset,
                    None => Num::zero(),
                },
            ),
        ),
        None => None,
    }
}

impl Importer {
    /// An importer whose clearance between items also holds between items and containers.
    pub fn new(
        cde_config: CDEConfig,
        simplify_tolerance: Option<Num>,
        min_item_separation: Option<Num>,
        min_hole_separation: Option<Num>,
        narrow_concavity_cutoff: Option<(Num, Num)>,
    ) -> (r: Importer)
        ensures
            r.separates(
                cde_config,
                simplify_tolerance,
                min_item_separation,
                min_item_separation,
                min_hole_separation,
                narrow_concavity_cutoff,
            ),
    {
        Importer::new_with_separations(
            cde_config,
            simplify_tolerance,
            min_item_separation,
            min_item_separation,
            min_hole_separation,
            narrow_concavity_cutoff,
        )
    }

    /// The importer keeps the given clearances, simplifies as given, and keeps curves.
    pub open spec fn separates(
        self,
        cde_config: CDEConfig,
        simplify_tolerance: Option<Num>,
        min_item_separation: Option<Num>,
        min_bin_separation: Option<Num>,
        min_hole_separation: Option<Num>,
        narrow_concavity_cutoff: Option<(Num, Num)>,
    ) -> bool {
        let bin_offset = match remaining_offset(min_bin_separation, min_item_separation) {
            Some(offset) => Some(offset),
            None => item_offset(min_item_separation),
        };
        &&& self.shape_modify_config == (ShapeModifyConfig {
            simplify_tolerance,
            offset: item_offset(min_item_separation),
            narrow_concavity_cutoff,
        })
        &&& self.bin_modify_config == (ShapeModifyConfig {
            simplify_tolerance,
            offset: bin_offset,
            narrow_concavity_cutoff,
        })
        &&& self.hole_modify_config == (ShapeModifyConfig {
            simplify_tolerance,
            offset: remaining_offset(min_hole_separation, min_item_separation),
            narrow_concavity_cutoff,
        })
        &&& self.cde_config == cde_config
        &&& self.curved_geometry_mode == CurvedGeometryMode::Native
    }

    /// An importer with independent clearances between items, to containers and to holes.
    pub fn new_with_separations(
        cde_config: CDEConfig,
        simplify_tolerance: Option<Num>,
        min_item_separation: Option<Num>,
        min_bin_separation: Option<Num>,
        min_hole_separation: Option<Num>,
        narrow_concavity_cutoff: Option<(Num, Num)>,
    ) -> (r: Importer)
        ensures
            r.separates(
                cde_config,
                simplify_tolerance,
                min_item_separation,
                min_bin_separation,
                min_hole_separation,
                narrow_concavity_cutoff,
            ),
    {
        let item_offset: Option<Num> = match min_item_separation {
            Some(separation) => Some(separation.div(Num::two())),
            None => None,
        };
        let item_offset_value: Num = match item_offset {
            Some(offset) => offset,
            None => Num::zero(),
        };
        let bin_offset: Option<Num> = match min_bin_separation {
            Some(separation) => Some(separation.sub(item_offset_value)),
            None => item_offset,
        };
        let hole_offset: Option<Num> = match min_hole_separation {
            Some(separation) => Some(separation.sub(item_offset_value)),
            None => None,
        };
        Importer {
            shape_modify_config: ShapeModifyConfig {
                simplify_tolerance,
                offset: item_offset,
                narrow_concavity_cutoff,
            },
            bin_modify_config: ShapeModifyConfig {
                simplify_tolerance,
                offset: bin_offset,
                narrow_concavity_cutoff,
            },
            hole_modify_config: ShapeModifyConfig {
                simplify_tolerance,
                offset: hole_offset,
                narrow_concavity_cutoff,
            },
            cde_config,
            curved_geometry_mode: CurvedGeometryMode::Native,
        }
    }

    /// The importer with another way to represent curved input geometry.
    pub fn with_curved_geometry_mode(self, curved_geometry_mode: CurvedGeometryMode) -> (r:
        Importer)
        ensures
            r == (Importer { curved_geometry_mode, ..self }),
    {
        Importer { curved_geometry_mode, ..self }
    }

    /// `r` is a possible outcome when a shape is imported and its curves are treated as
    /// configured.
    pub open spec fn imports<
        M: Fn(Elementary) -> Num,
        P: Fn(&SPolygon) -> Result<Circle, GeometryError>,
    >(
        self,
        shape: &ExtShape,
        tools: &Toolkit<M, P>,
        r: Result<SPolygon, GeometryError>,
    ) -> bool {
        ||| r is Err && crate::io::import::shapes::is_shape_import(shape, tools, r)
        ||| exists|native: SPolygon|
            crate::io::import::shapes::is_shape_import(shape, tools, Ok(native))
                && #[trigger] crate::io::import::shapes::is_curve_treated(
                &native,
                self.curved_geometry_mode,
                tools,
                r,
            )
    }

    /// The import of a shape can succeed.
    pub open spec fn can_import<
        M: Fn(Elementary) -> Num,
        P: Fn(&SPolygon) -> Result<Circle, GeometryError>,
    >(self, shape: &ExtShape, tools: &Toolkit<M, P>) -> bool {
        exists|r: SPolygon| #[trigger] self.imports(shape, tools, Ok(r))
    }

    /// Imports a shape and treats its curves as configured.
    pub fn import_shape_as_simple_polygon<
        M: Fn(Elementary) -> Num,
        P: Fn(&SPolygon) -> Result<Circle, GeometryError>,
    >(&self, shape: &ExtShape, tools: &Toolkit<M, P>) -> (r: Result<SPolygon, GeometryError>)
        requires
            tools.usable(),
        ensures
            self.imports(shape, tools, r),
            r matches Ok(s) ==> s.valid(&tools.math),
    {
        match import_shape_as_simple_polygon(shape, tools) {
            Err(e) => Err(e),
            Ok(native) => apply_curved_geometry_mode(native, self.curved_geometry_mode, tools),
        }
    }
}

/// An importer without clearances offsets nothing.
pub proof fn importer_without_clearances_offsets_nothing(
    importer: Importer,
    cde_config: CDEConfig,
    simplify_tolerance: Option<Num>,
    narrow_concavity_cutoff: Option<(Num, Num)>,
)
    requires
        importer.separates(
            cde_config,
            simplify_tolerance,
            None,
            None,
            None,
            narrow_concavity_cutoff,
        ),
    ensures
        importer.shape_modify_config.offset is None,
        importer.bin_modify_config.offset is None,
        importer.hole_modify_config.offset is None,
{
}

/// With one clearance for items and containers, half of it goes to the items and the other
/// half to the containers, unless it is an odd multiple of the least positive number.
pub proof fn half_of_the_clearance_goes_to_containers(
    importer: Importer,
    cde_config: CDEConfig,
    simplify_tolerance: Option<Num>,
    separation: Num,
    min_hole_separation: Option<Num>,
    narrow_concavity_cutoff: Option<(Num, Num)>,
)
    requires
        importer.separates(
            cde_config,
            simplify_tolerance,
            Some(separation),
            Some(separation),
            min_hole_separation,
            narrow_concavity_cutoff,
        ),
        separation.is_finite(),
        separation.units() % 2 == 0,
    ensures
        importer.shape_modify_config.offset == Some(separation.div(Num::two())),
        importer.bin_modify_config.offset matches Some(offset) && offset.num_eq(
            separation.div(Num::two()),
        ),
{
    crate::num::laws::the_other_half_is_equal(separation);
}

} // verus!
