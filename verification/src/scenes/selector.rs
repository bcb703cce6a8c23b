//! The selector that cycles through the scenes on every rising edge of one
//! logical input.
pub use crate::scene::ButtonCycleSelector;
