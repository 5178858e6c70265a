//! Chaikin corner-cutting curves and an antialiased software rasterizer,
//! computed in fixed-point arithmetic.

pub mod algorithm;
pub mod canvas;
pub mod fixed;
pub mod raster;
pub mod toast;
pub mod types;
pub mod window;
