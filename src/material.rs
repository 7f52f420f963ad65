//! Material kinds. The material parameters themselves (colors, roughness,
//! refraction index) are kept by the renderer; primitives refer to them by
//! index.
use vstd::prelude::*;

verus! {

/// How a surface scatters light.
#[derive(Clone, Copy, Debug, PartialEq, Eq, Structural)]
pub enum MaterialType {
    Lambertian,
    Metal,
    Dielectric,
    Volume,
}

impl MaterialType {
    /// The tag the traversal kernel reads.
    pub fn gpu_code(self) -> (r: u32)
        ensures
            r == match self {
                MaterialType::Lambertian => 0u32,
                MaterialType::Metal => 1u32,
                MaterialType::Dielectric => 2u32,
                MaterialType::Volume => 3u32,
            },
    {
        match self {
            MaterialType::Lambertian => 0,
            MaterialType::Metal => 1,
            MaterialType::Dielectric => 2,
            MaterialType::Volume => 3,
        }
    }
}

impl Default for MaterialType {
    fn default() -> (r: MaterialType)
        ensures
            r == MaterialType::Lambertian,
    {
        MaterialType::Lambertian
    }
}

} // verus!
