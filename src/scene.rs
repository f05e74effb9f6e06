use vstd::prelude::*;

verus! {

/// Which kind of scene object a ray struck.
#[derive(Clone, Copy, Debug, PartialEq, Eq, Structural)]
pub enum ObjectId {
    Cube,
    Plane,
}

/// The sky: a fixed gradient from the ground band through the horizon to
/// the zenith. It has no state; its colours are a function of direction.
#[derive(Clone, Copy, Debug, PartialEq, Eq, Structural)]
pub struct Skybox;

impl Skybox {
    pub fn new() -> (s: Skybox)
        ensures
            s == Skybox,
    {
        Skybox
    }
}

/// Marker for the procedural voxel textures, which are stateless.
#[derive(Clone, Copy, Debug, PartialEq, Eq, Structural)]
pub struct Texture;

/// Shape of the generated island: radius and height of the top plateau,
/// how many cells the plateau may rise in places, and how many layers lie
/// below it.
#[derive(Clone, Copy, Debug, PartialEq, Eq, Structural)]
pub struct IslandParams {
    pub top_radius: i32,
    pub top_height: i32,
    pub plateau_variation: i32,
    pub depth: i32,
}

impl Default for IslandParams {
    fn default() -> (p: IslandParams)
        ensures
            p == (IslandParams { top_radius: 6, top_height: 6, plateau_variation: 2, depth: 7 }),
    {
        IslandParams { top_radius: 6, top_height: 6, plateau_variation: 2, depth: 7 }
    }
}

} // verus!
