//! Materials of the celestial bodies: what each shader is given and where
//! the shader is found among the assets.

use vstd::prelude::*;

verus! {

/// Asset path of the planet shader.
pub const PLANET_SHADER_ASSET_PATH: &'static str = "shaders/planet_shader.wgsl";

/// Asset path of the skybox shader.
pub const SKYBOX_SHADER_ASSET_PATH: &'static str = "shaders/skybox.wgsl";

/// Surface material of a planet: the shader draws the whole surface from
/// the seed.
#[derive(Clone, Copy, Debug, PartialEq, Eq, Structural)]
pub struct PlanetMaterial {
    pub planet_seed: u32,
}

impl PlanetMaterial {
    /// Asset path of the shader that draws the surface.
    pub fn fragment_shader() -> (path: &'static str)
        ensures
            path@ == PLANET_SHADER_ASSET_PATH@,
    {
        PLANET_SHADER_ASSET_PATH
    }

    /// Asset path of the shader that draws the surface in deferred rendering.
    pub fn deferred_fragment_shader() -> (path: &'static str)
        ensures
            path@ == PLANET_SHADER_ASSET_PATH@,
    {
        PLANET_SHADER_ASSET_PATH
    }
}

/// Material of the sky dome: the shader draws the stars from the seed.
#[derive(Clone, Copy, Debug, PartialEq, Eq, Structural)]
pub struct SkyboxMaterial {
    pub seed: u32,
}

impl SkyboxMaterial {
    /// Asset path of the shader that draws the sky.
    pub fn fragment_shader() -> (path: &'static str)
        ensures
            path@ == SKYBOX_SHADER_ASSET_PATH@,
    {
        SKYBOX_SHADER_ASSET_PATH
    }
}

} // verus!
