//! A verified engine for CD-ROM/XA volumes, the ISO 9660 variant used by
//! PlayStation discs.
//!
//! The crate works on an in-memory image of the volume as raw bytes.  It
//! locates volume descriptor sectors, decodes the primary volume descriptor
//! and the directory records it anchors, walks directory extents, reassembles
//! file contents across sectors, and writes replacement content of equal
//! length back into the same sector span.  Callers that hold the image in a
//! file read it into memory first and write the bytes back afterwards.
//!
//! Beside the engine stand two small companions: a parser for signed
//! decimal and hexadecimal numerals, and a tokenizer for a small
//! procedural language.

pub mod buffer;
pub mod byte_range;
pub mod fields;
pub mod directory_record;
pub mod numeric;
pub mod primary_volume_descriptor;
pub mod text;
pub mod tokenizer;
pub mod traits;
pub mod volume;
