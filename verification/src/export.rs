//! Reports and where they go.

pub mod csv;
pub mod html;
pub mod json;
pub mod target;
pub mod trustees;
