//! Configuration of the server.
use vstd::prelude::*;

verus! {

/// Where the images served come from.
#[derive(Debug, PartialEq, Eq)]
pub enum ImageSourceOptions {
    /// Files below a local directory.
    Local { path: String },
}

/// Configuration of the IIIF image service.
#[derive(Debug)]
pub struct IiifImageServiceOptions {
    pub prefix: String,
    pub default_format: String,
    pub image_source: ImageSourceOptions,
}

/// The runtime that handles IO and server traffic.
#[derive(Clone, Copy, Debug, PartialEq, Eq)]
pub enum Rt {
    Tokio,
}

impl Default for Rt {
    fn default() -> (r: Rt)
        ensures
            r == Rt::Tokio,
    {
        Rt::Tokio
    }
}

/// Options of the image decoders.
#[derive(Clone, Copy, Debug, PartialEq, Eq)]
pub struct ImageDecoderOptions {
    pub kakadu: KakaduOptions,
}

/// Options of the Kakadu decoder.
#[derive(Clone, Copy, Debug, PartialEq, Eq)]
pub struct KakaduOptions {
    /// The number of threads used to run image decoding operations; by default
    /// the number of available cores.
    pub decoder_threads: Option<usize>,
    /// The amount of memory allocated to Kakadu in bytes.
    pub memory_limit: Option<usize>,
}

/// Options of the Tokio runtime.
#[derive(Clone, Copy, Debug, PartialEq, Eq)]
pub struct TokioRuntimeOptions {
    /// How many threads are allocated to HTTP listener sockets.
    pub listener_threads: usize,
    /// How many threads are allocated to file and network IO.
    pub io_threads: usize,
}

} // verus!
