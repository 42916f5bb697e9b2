//! Drawing on a character terminal: packed screen cells, the bytes that draw a frame,
//! the depth buffer, and the integer set-up of a screen triangle.

pub mod cell;
pub mod depth;
pub mod frame;
pub mod raster;
pub mod tiles;

pub use cell::{make_cell, unpack_cell, push_num, push_color, push_usize};
pub use depth::ZBuffer;
pub use frame::FrameBuffer;
pub use raster::{char_for_level, raster_setup, raster_setup_fits, RasterSetup};
