//! The decoders of image data.
pub mod raw;
pub mod raw_laws;
pub mod trle;
pub mod trle_format;
pub mod trle_laws;
pub mod trle_written;
