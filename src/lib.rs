//! Block states and resource-pack baking.
//!
//! Block properties are packed into 32-bit state words (`state`, `block`, `kinds`); blockstate
//! selectors are evaluated against those words (`predicate`); block models are linked to their
//! parents and their texture variables resolved (`model`); textures are normalized to RGBA
//! (`texture`); and faces are baked in fixed point (`geometry`, `bake`). Reading files is left
//! to the caller: the loaders say what they need next and take the parsed contents back.
use vstd::prelude::*;

pub mod bits;
pub mod bake;
pub mod block;
pub mod direction;
pub mod geometry;
pub mod kinds;
pub mod location;
pub mod material;
pub mod model;
pub mod pack;
pub mod predicate;
pub mod state;
pub mod text;
pub mod texture;

verus! {

} // verus!
