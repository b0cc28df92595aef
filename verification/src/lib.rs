//! The verified core of a tiling Wayland compositor.
//!
//! Everything the compositor decides is computed here, over plain values: where
//! windows go, which workspace is shown where, what a key press means, when a
//! frame is drawn. The program around the library talks to the display server,
//! the kernel and the graphics driver, hands what it learns to the library as
//! snapshots and events, and carries out the commands that come back.

pub mod utils;
pub mod shell;
pub mod input;
pub mod backend;
pub mod calls;
pub mod environment;
pub mod startup;
pub mod state;
pub mod wayland;
