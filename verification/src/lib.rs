//! Extraction of the raster images that a packed game executable carries
//! behind its loader sections.
//!
//! The bytes of the executable are walked in four layers: the loader headers
//! give the offset of the appended archive, the archive index is skipped, the
//! chunk stream behind it is walked up to its sentinel, and every image bank
//! met on the way is inflated and decoded into RGBA rasters.
//!
//! Each layer has a mathematical description over `Seq<u8>` and a function
//! that is proved to compute exactly that description without ever reading
//! outside the buffer.

pub mod bank;
pub mod bytes;
pub mod chunks;
pub mod cursor;
pub mod error;
pub mod extract;
pub mod index;
pub mod inflate;
pub mod locator;
pub mod raster;
pub mod record;
pub mod sink;
