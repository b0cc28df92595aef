//! What clients ask for, and what they are told.

pub mod handlers;
pub mod output_configuration;
