//! Extraction of image metadata tags into typed values.
//!
//! The library decodes the metadata container of one image file's bytes,
//! turns each field's rendered text into a typed value, and gathers the
//! values by tag name. Reading files, walking path patterns, running files
//! in parallel and printing JSON lines are left to the program around it.

pub mod numeric;
pub mod value;
pub mod field_map;
pub mod extract;
pub mod batch;
