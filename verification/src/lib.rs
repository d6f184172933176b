//! Pixel-format and bit-depth-reduction toolkit for sprite and background
//! assets: bit-replication arithmetic, interpolation tables, ordered
//! dithering, a 2-D pixel buffer, packed 16-bit colour models, and the
//! flat (S16), run-length (C16) and tiled (BLK) binary sheet codecs.

pub mod bitcopy;
pub mod blk16;
pub mod bitdither;
pub mod colours;
pub mod cs16;
pub mod endian;
pub mod raster;
pub mod s16dither;
pub mod spritefile;
