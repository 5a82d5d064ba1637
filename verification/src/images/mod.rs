//! The image store.
mod accounting;
pub mod charge_laws;
pub mod entries;
pub mod entry;
pub mod error;
pub mod laws;
pub mod model;
mod order;
pub mod paint_laws;
pub mod size;
pub mod store;
