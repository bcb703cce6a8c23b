//! Scene identifiers, the context passed to scenes, and the scene and
//! selector traits.
pub use crate::scene::{Scene, SceneContext, SceneId, SceneSelector};
