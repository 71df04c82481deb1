//! Graphics decoding: legacy bitmap updates and their interleaved-RLE codec
//! ([`bitmap`]).
pub mod avc;
pub mod bitmap;
pub mod pool;
pub mod redirect;
pub mod surface;
