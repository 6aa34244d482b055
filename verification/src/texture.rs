//! Textures are stored in a flat, insertion-ordered table owned by the scene.
//! Composite textures (such as a checker built from two sub-textures) refer to
//! sibling entries by index, never by pointer, so the table can never form an
//! ownership cycle. Materials hold such indices as well.

use vstd::prelude::*;

verus! {

/// Index of an entry in the scene's texture table.
pub type TextureId = usize;

} // verus!
