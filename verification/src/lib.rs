//! A schema-based binary serialization format featuring compression, metadata and streaming.
//!
//! A value is encoded into raw bytes ([`codec`]), which an encoder collects into regions
//! ([`encode`]). A region is compressed ([`lz4`]) and written with a header ([`region`]).
//! A sequence of regions is a stream, a stream with a magic number and metadata is a frame
//! ([`frame`]). Decoding goes the other way ([`decode`]). What holds of the way there and
//! back is stated in [`laws`].

pub mod codec;
pub mod cursor;
pub mod decode;
pub mod derive;
pub mod encode;
pub mod frame;
pub mod laws;
pub mod little_endian;
pub mod lz4;
pub mod region;
pub mod stream;
