//! The decompressors SquashFS chunks may need.
pub mod gzip;
