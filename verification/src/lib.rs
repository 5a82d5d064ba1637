//! The tile grid and the image store of a canvas renderer.
//!
//! [`tiles`] splits the document into square tiles, knows which shapes touch
//! which tile and decides in which order tiles are painted. [`images`] keeps
//! the images that shapes are filled with, decides which resolution of an
//! image is resident and evicts the ones that were not used for longest.
pub mod images;
pub mod tiles;
pub mod uuid;
