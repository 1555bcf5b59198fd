//! The tile coder of the JPEG 2000 codec: tile, resolution, band, precinct and
//! code-block geometry, the window of interest of a partial decode, and the
//! conversion of decoded samples.
pub mod math;
pub mod model;
pub mod window;
pub mod decode;
pub mod init;
pub mod samples;
pub mod encode;
