//! Conversion of text alignments (SAM) into the binary container (BAM).
//!
//! The library turns the lines of a text input into the bytes of a
//! container: a magic, a preamble with the header text and the reference
//! dictionary, and one length-prefixed record for each alignment line, all
//! compressed as one gzip member and closed by an end-of-stream marker.
//!
//! - [`text`], [`decimal`], [`endian`]: fields, numbers and byte layouts;
//! - [`cigar`], [`bases`], [`quality`], [`tags`]: the variable-width parts
//!   of a record;
//! - [`dictionary`], [`header`]: the references that a header declares and
//!   the preamble that holds them;
//! - [`record`]: one alignment line as one record;
//! - [`container`], [`gzip`]: the stream, its compression and its end.
//!
//! Every contract is stated over the characters of the input (`Seq<char>`)
//! and the bytes of the output (`Seq<u8>`). The bytes of a text are its
//! UTF-8 encoding.

pub mod bases;
pub mod cigar;
pub mod container;
pub mod decimal;
pub mod dictionary;
pub mod endian;
pub mod gzip;
pub mod header;
pub mod quality;
pub mod record;
pub mod tags;
pub mod text;

pub use bases::encode_seq;
pub use cigar::encode_cigar;
pub use container::convert;
pub use quality::encode_qual;
pub use record::encode_record;
