//! Scenes split into one module per part, with a rotate scene whose relays
//! can stay on for a lag after the rotation has moved on.
pub mod idle;
pub mod manager;
pub mod rotate;
pub mod selector;
pub mod types;
