//! Extraction and decoding of the best embedded application icon of a
//! Windows portable-executable (PE) file.
//!
//! The pipeline locates the PE resource directory, parses the group-icon
//! resource into a directory of icon variants, collects each variant's raw
//! bytes, selects the best candidate by a lexicographic (width, height,
//! bit-depth) key, and decodes legacy uncompressed bitmaps into a top-down
//! RGBA pixel buffer. PNG-encoded icons pass through undecoded.

pub mod bytes;
pub mod dib;
pub mod exelook;
pub mod icon_group;
pub mod pe;
