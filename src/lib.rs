//! A small codec for RGB565 raster images: packed pixels, an image
//! container with row-major coordinates, and the pixel plane of the
//! Limg byte format. The header of that format is read and written by a
//! separate codec; this library takes the header's metadata and bytes as
//! values.

pub mod coords;
pub mod error;
pub mod format;
pub mod image;
pub mod pixel;

pub use coords::ImageIndex;
pub use error::{Error, Result};
pub use format::{ImageSpec, PixelEndian, PIXEL_BYTES};
pub use image::{image_index, Image};
pub use pixel::Pixel;
