//! Codec for the `ATRealTimeLog` binary log format: a framed stream of
//! records, each optionally ZLIB-compressed and optionally sealed with
//! ECDH (secp256k1) + AES-128-CFB against a long-lived server key.
//!
//! - [`io::primitive`] and [`io::frame`] hold the constants and the layout
//!   of header and records as functions on bytes.
//! - [`cipher`] holds key pairs and the encryption envelope, [`decrypt`]
//!   the opening side alone, [`compression`] ZLIB.
//! - [`log_writer`] and [`log_reader`] write and read streams whose
//!   compressed records are each a ZLIB stream of their own, and whose
//!   encrypted records are each sealed under a fresh key pair.
//! - [`io::log_writer`] and [`io::log_reader`] write and read streams whose
//!   compressed records are chunks of one long ZLIB stream, and whose
//!   encrypted records are all sealed under the writer's key pair.
//!
//! Streams are held in memory: a writer appends to a `Vec<u8>`, a reader
//! parses one.

pub mod cipher;
pub mod compression;
pub mod decompress;
pub mod decrypt;
pub mod encoding;
pub mod io;
pub mod log_reader;
pub mod log_writer;
