//! Geometry and the coordinate spaces built on it.

pub mod coordinates;
pub mod geometry;
pub mod lists;
pub mod search;
pub mod table;
pub mod text;
