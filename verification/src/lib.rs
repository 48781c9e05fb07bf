//! Frame types, scene compositing and the pure decision logic of a small
//! screen-capture / preview / recording pipeline, together with two small
//! Fibonacci routines.

pub mod compositor;
pub mod encoder;
pub mod fibonacci;
pub mod pipeline;
pub mod preview;
pub mod raster;
pub mod scene;
pub mod source;
pub mod test_pattern;
pub mod types;
