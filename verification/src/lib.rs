//! Calendar entries for a listing of scheduled events.

pub mod aggregate;
pub mod calendar;
pub mod encode;
pub mod entry;
pub mod error;
pub mod generation;
pub mod keys;
pub mod laws;
pub mod model;
pub mod order;
pub mod policy;
pub mod render;
pub mod text;
pub mod time;
