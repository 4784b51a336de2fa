//! Verified core of the H3 tooling: cell indexes, raster geometry helpers
//! and the error types that go with them.

pub mod error;
pub mod geo;
pub mod index;
pub mod index_error;
mod text;
