//! The framed reader and writer and the constants they share.

pub mod frame;
pub mod log_reader;
pub mod log_writer;
pub mod primitive;
