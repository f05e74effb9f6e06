use vstd::prelude::*;
use crate::material::Material;
use crate::material::MaterialKind;
use crate::scene::ObjectId;

verus! {

/// Optical scalars at or below this many thousandths count as zero when
/// deciding whether to spawn a reflected or refracted ray.
pub const NEGLIGIBLE: i32 = 10;

/// Most cells the refracted ray crosses while marching through water.
pub const WATER_MARCH_STEPS: u32 = 16;

/// What the tracer does at a surface, decided from the struck material alone.
#[derive(Clone, Copy, Debug, PartialEq, Eq, Structural)]
pub struct ShadingPlan {
    /// The shadow ray sees water as clear (the surface is itself water).
    pub shadow_ignores_water: bool,
    /// The base colour comes from a procedural texture.
    pub textured: bool,
    /// Water shading: rippled normal, depth tint and the marched refraction.
    pub water: bool,
    /// A mirror ray is traced, weighted by the reflectivity.
    pub reflect: bool,
    /// A refracted ray is traced, weighted by the transparency.
    pub refract: bool,
    /// The refraction is mixed with a mirror sample by the Fresnel term.
    pub fresnel: bool,
    /// The surface colour is blended with the refracted colour.
    pub blend_refraction: bool,
    /// The surface colour is blended with the reflected colour.
    pub blend_reflection: bool,
}

impl ShadingPlan {
    /// Whether the plan traces any secondary ray besides the shadow ray.
    pub open spec fn spawns_rays(self) -> bool {
        self.reflect || self.refract
    }
}

pub open spec fn plan_for(mat: Material, object: ObjectId) -> ShadingPlan {
    ShadingPlan {
        shadow_ignores_water: mat.kind == MaterialKind::Water,
        textured: object == ObjectId::Cube && mat.kind.spec_is_textured(),
        water: mat.kind == MaterialKind::Water,
        reflect: mat.reflectivity > NEGLIGIBLE,
        refract: mat.transparency > NEGLIGIBLE,
        fresnel: mat.transparency > NEGLIGIBLE && mat.reflectivity < NEGLIGIBLE,
        blend_refraction: mat.transparency > 0,
        blend_reflection: mat.reflectivity > 0,
    }
}

/// The shading decisions for a hit on `object` made of `mat`.
pub fn shading_plan(mat: &Material, object: ObjectId) -> (p: ShadingPlan)
    ensures
        p == plan_for(*mat, object),
{
    let water = mat.kind == MaterialKind::Water;
    ShadingPlan {
        shadow_ignores_water: water,
        textured: object == ObjectId::Cube && mat.kind.is_textured(),
        water,
        reflect: mat.reflectivity > NEGLIGIBLE,
        refract: mat.transparency > NEGLIGIBLE,
        fresnel: mat.transparency > NEGLIGIBLE && mat.reflectivity < NEGLIGIBLE,
        blend_refraction: mat.transparency > 0,
        blend_reflection: mat.reflectivity > 0,
    }
}

/// A surface that neither reflects nor transmits spawns no secondary ray,
/// so the colour traced from it does not depend on the remaining depth.
pub proof fn law_matte_surface_spawns_no_rays(mat: Material, object: ObjectId)
    requires
        mat.reflectivity == 0,
        mat.transparency == 0,
    ensures
        !plan_for(mat, object).spawns_rays(),
        !plan_for(mat, object).fresnel,
        !plan_for(mat, object).blend_refraction,
        !plan_for(mat, object).blend_reflection,
{
}

/// The next move of the refracted ray marching through a water volume.
#[derive(Clone, Copy, Debug, PartialEq, Eq, Structural)]
pub enum MarchAction {
    /// The ray met more water: move past it and look again.
    Advance,
    /// The ray met a solid cell: shade from there.
    ShadeSolid,
    /// The ray left the world: use the sky seen along it.
    Sky,
    /// The step budget is spent: look straight down for a floor.
    ProbeFloor,
}

pub open spec fn march_action_for(steps: u32, hit: Option<MaterialKind>) -> MarchAction {
    if steps >= WATER_MARCH_STEPS {
        MarchAction::ProbeFloor
    } else {
        match hit {
            None => MarchAction::Sky,
            Some(kind) => if kind == MaterialKind::Water {
                MarchAction::Advance
            } else {
                MarchAction::ShadeSolid
            },
        }
    }
}

/// Decides the march after `steps` advances, given the kind of the cell the
/// ray meets next (`None` when it meets nothing).
pub fn water_march_action(steps: u32, hit: Option<MaterialKind>) -> (a: MarchAction)
    ensures
        a == march_action_for(steps, hit),
{
    if steps >= WATER_MARCH_STEPS {
        MarchAction::ProbeFloor
    } else {
        match hit {
            None => MarchAction::Sky,
            Some(kind) => if kind == MaterialKind::Water {
                MarchAction::Advance
            } else {
                MarchAction::ShadeSolid
            },
        }
    }
}

/// Whatever the volume holds, the march advances at most
/// `WATER_MARCH_STEPS` times before it stops.
pub proof fn law_water_march_is_bounded(steps: u32, hit: Option<MaterialKind>)
    requires
        march_action_for(steps, hit) == MarchAction::Advance,
    ensures
        steps < WATER_MARCH_STEPS,
{
}

} // verus!
