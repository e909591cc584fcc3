//! Decoder for the classic handwritten-digit dataset binary files: a label
//! file holds a big-endian magic number, a label count and one byte per
//! label; an image file holds a magic number, three dimension fields and a
//! row-major pixel payload. Each decoder validates the magic number, loads
//! the header and reshapes the remaining bytes; by default the declared
//! counts are never checked against the payload length, and each decoder
//! also offers a strict variant that is exact about it.

pub mod error;
pub mod header;
pub mod labels;
pub mod images;

pub use error::ParseError;
pub use labels::LabelReader;
pub use images::ImageReader;
