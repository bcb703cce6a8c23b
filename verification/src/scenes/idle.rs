//! The idle scene: emits the blank command every tick, leaving all outputs
//! off.
pub use crate::scene::IdleScene;
