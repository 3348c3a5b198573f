//! The rules behind a sprite atlas, one picture that holds many small images.
//!
//! Given the sizes of the images, [`Layout::new`] places them without overlap
//! into one container and reports the container's size, each image's offset,
//! and how much of the container the images fill. [`Packer`] does the same one
//! image at a time. The module [`laws`] proves what holds of every packing,
//! and [`stylesheet`] says which stylesheet an image may pull in.

pub mod area;
pub mod error;
pub mod freelist;
pub mod geometry;
pub mod laws;
pub mod layout;
pub mod measure;
pub mod order;
pub mod packer;
pub mod stylesheet;

pub use error::PackError;
pub use geometry::{Box, Space};
pub use layout::{Layout, Ratio, Rect};
pub use packer::Packer;
