//! Inflating a whole ZLIB stream, for those who only read.

pub use crate::compression::decompress_zlib;
