//! What callers of the library can rely on: laws on what goes into a call and what comes out.

pub mod backend;
pub mod input;
pub mod shell;
pub mod state;
pub mod wayland;
