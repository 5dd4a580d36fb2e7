//! Decoding of PNG byte streams into chunk records, pixel buffers and
//! character-art renderings, with every stage stated and proved in Verus.

pub mod chunk;
pub mod error;
pub mod framing;
pub mod header;
pub mod image_type;
pub mod pixels;
pub mod png;
pub mod raw_data;
pub mod text;
