//! Material descriptions that reference texture-table entries by index.
//!
//! The scattering arithmetic itself works on the scene's scalar samples and
//! lives with the sampling loop; these types carry the data every scatter and
//! emit query reads.

use vstd::prelude::*;
use crate::texture::TextureId;

verus! {

/// A diffuse surface: scattered rays leave around the surface normal and are
/// attenuated by the albedo texture.
#[derive(Clone, Copy, PartialEq, Eq, Structural, Debug)]
pub struct Lambertian {
    pub albedo: TextureId,
}

/// A surface that never scatters and emits its texture's value unconditionally.
#[derive(Clone, Copy, PartialEq, Eq, Structural, Debug)]
pub struct DiffuseLight {
    pub emit: TextureId,
}

impl Lambertian {
    pub fn new(albedo: TextureId) -> (r: Lambertian)
        ensures
            r.albedo == albedo,
    {
        Lambertian { albedo }
    }
}

impl DiffuseLight {
    pub fn new(emit: TextureId) -> (r: DiffuseLight)
        ensures
            r.emit == emit,
    {
        DiffuseLight { emit }
    }
}

} // verus!
