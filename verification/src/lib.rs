//! Pure, hardware-independent control core for an eight-relay board with
//! blinking relays, debounced inputs and a diagnostic display.
pub mod config;
pub mod relay;
pub mod action;
pub mod input;
pub mod debug;
pub mod board_api;
pub mod wrapper;
pub mod board;
pub mod engine;
pub mod scene;
pub mod scenes;
