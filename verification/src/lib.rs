//! Laya: an IIIF Image API 3.0 server core.
//!
//! The library holds the logic of the server: region and size arithmetic of
//! image requests, routing of request paths, the mapping of service outcomes to
//! HTTP statuses, the resolution of storage identifiers, and the tile geometry
//! and sample conversion of the JPEG 2000 tile coder.
pub mod image;
pub mod text;
pub mod storage;
pub mod http;
pub mod options;
pub mod tcd;
