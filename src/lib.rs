//! Composition of comic images onto a fixed canvas, and their rendering for
//! a low-colour electrophoretic display.
//!
//! - `layout` places a primary image and further images on the canvas;
//! - `composition` chooses the arrangement and draws the canvas;
//! - `dithering` reduces a raster to 3-bit grayscale by error diffusion;
//! - `encoding` packs that raster two pixels per byte, or encodes PNG;
//! - `comic_image` stores source images compactly;
//! - `feed`, `selection` and `filter` keep the candidate images per account;
//! - `imaging` holds the calls into the image crate.

pub mod dithering;
pub mod raster;
pub mod encoding;
pub mod layout;
pub mod composition;
pub mod imaging;
pub mod comic_image;
pub mod filter;
pub mod feed;
pub mod selection;
