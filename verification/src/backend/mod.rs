//! Frames, devices and connectors.

pub mod cursor;
pub mod device;
pub mod drm_helpers;
pub mod kms;
pub mod render;
pub mod surface;
