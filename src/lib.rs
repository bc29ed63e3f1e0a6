//! Import of LDtk tile maps for a tilemap renderer, verified with Verus.
//!
//! - `project`: the map model, as parsed from an LDtk project file.
//! - `asset`: the loaded map asset and the display configuration.
//! - `compose`: spreading a layer's tiles over sublayers and flattening them into dense arrays.
//! - `compositor`: turning a level into the layers to render.
//! - `color`: background colors.
//! - `readiness`, `reload`, `system`: the per-frame decisions of the host plugin.
//! - `pipeline`: what the tilemap shader receives.

pub mod asset;
pub mod color;
pub mod compose;
pub mod compositor;
pub mod pipeline;
pub mod project;
pub mod readiness;
pub mod reload;
pub mod system;
