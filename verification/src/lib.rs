//! Per-window keyboard-layout engine for a Wayland compositor.
//!
//! The library keeps an in-memory association between window addresses and
//! keyboard-layout indices, derives a layout for windows seen for the first
//! time from a configured policy, and decides which layout-switch commands
//! must be sent to the tracked keyboard devices.  All state transitions are
//! specified against a mathematical model and proved to follow it.

pub mod assoc;
pub mod engine;
pub mod laws;
pub mod model;
pub mod options;
pub mod registry;
pub mod text;
