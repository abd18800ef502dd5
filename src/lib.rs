//! Encoding of raster images into the command stream of a small thermal
//! label printer, and the decisions that keep one printer session alive.
pub mod hex;
pub mod pack;
pub mod raster;
pub mod text;
pub mod dither;
pub mod frame;
pub mod instruction;
pub mod printer_image;
pub mod session;
pub mod dispatch;
