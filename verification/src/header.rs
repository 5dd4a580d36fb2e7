//! The image header: thirteen bytes of fixed layout.

use vstd::prelude::*;
use vstd::string::*;
use crate::text::{decimal, push_decimal};

verus! {

/// The fields of the image header, as the stream gives them.
#[derive(Debug, Clone, Copy, PartialEq, Eq, Structural)]
pub struct HeaderInfo {
    pub width: u32,
    pub height: u32,
    pub bit_depth: u8,
    pub color_type: u8,
    pub compression_method: u8,
    pub filter_method: u8,
    pub interlace_method: u8,
}

/// The number that four bytes of `bytes`, from position `at`, spell in
/// big-endian order.
pub open spec fn be_u32(bytes: Seq<u8>, at: int) -> int {
    bytes[at] * 0x100_0000 + bytes[at + 1] * 0x1_0000 + bytes[at + 2] * 0x100 + bytes[at + 3]
}

/// Reads a big-endian 32-bit number.
pub fn read_be_u32(bytes: &[u8], at: usize) -> (r: u32)
    requires
        at + 4 <= bytes@.len(),
    ensures
        r == be_u32(bytes@, at as int),
{
    let b0: u32 = bytes[at] as u32;
    let b1: u32 = bytes[at + 1] as u32;
    let b2: u32 = bytes[at + 2] as u32;
    let b3: u32 = bytes[at + 3] as u32;
    b0 * 0x100_0000 + b1 * 0x1_0000 + b2 * 0x100 + b3
}

/// The label of a colour type.
pub open spec fn color_type_label(color_type: u8) -> Seq<char> {
    if color_type == 0 {
        "Grayscale"@
    } else if color_type == 2 {
        "R,G,B triple"@
    } else if color_type == 3 {
        "Indexed-color"@
    } else if color_type == 4 {
        "Grayscale with alpha"@
    } else if color_type == 6 {
        "R,G,B triple with alpha"@
    } else {
        "Unknown"@
    }
}

/// The label of a compression method.
pub open spec fn compression_method_label(method: u8) -> Seq<char> {
    if method == 0 {
        "Deflate/inflate"@
    } else {
        "Unknown"@
    }
}

/// The label of a filter method.
pub open spec fn filter_method_label(method: u8) -> Seq<char> {
    if method == 0 {
        "None"@
    } else if method == 1 {
        "Sub"@
    } else if method == 2 {
        "Up"@
    } else if method == 3 {
        "Average"@
    } else if method == 4 {
        "Paeth"@
    } else {
        "Unknown"@
    }
}

/// The label of an interlace method.
pub open spec fn interlace_method_label(method: u8) -> Seq<char> {
    if method == 0 {
        "None"@
    } else if method == 1 {
        "Adam7"@
    } else {
        "Unknown"@
    }
}

/// The label of a colour type.
pub fn color_type_name(color_type: u8) -> (r: &'static str)
    ensures
        r@ == color_type_label(color_type),
{
    match color_type {
        0 => "Grayscale",
        2 => "R,G,B triple",
        3 => "Indexed-color",
        4 => "Grayscale with alpha",
        6 => "R,G,B triple with alpha",
        _ => "Unknown",
    }
}

/// The label of a compression method.
pub fn compression_method_name(method: u8) -> (r: &'static str)
    ensures
        r@ == compression_method_label(method),
{
    match method {
        0 => "Deflate/inflate",
        _ => "Unknown",
    }
}

/// The label of a filter method.
pub fn filter_method_name(method: u8) -> (r: &'static str)
    ensures
        r@ == filter_method_label(method),
{
    match method {
        0 => "None",
        1 => "Sub",
        2 => "Up",
        3 => "Average",
        4 => "Paeth",
        _ => "Unknown",
    }
}

/// The label of an interlace method.
pub fn interlace_method_name(method: u8) -> (r: &'static str)
    ensures
        r@ == interlace_method_label(method),
{
    match method {
        0 => "None",
        1 => "Adam7",
        _ => "Unknown",
    }
}

impl HeaderInfo {
    /// The header that the first thirteen bytes of a payload spell.
    pub open spec fn decode(data: Seq<u8>) -> HeaderInfo {
        HeaderInfo {
            width: be_u32(data, 0) as u32,
            height: be_u32(data, 4) as u32,
            bit_depth: data[8],
            color_type: data[9],
            compression_method: data[10],
            filter_method: data[11],
            interlace_method: data[12],
        }
    }

    /// The text of the failure to decode a payload that is too short.
    pub open spec fn too_short() -> Seq<char> {
        "Invalid data: Insufficient bytes for header information"@
    }

    /// The summary of a header, one field to a line.
    pub open spec fn summary(self) -> Seq<char> {
        "\n\tWidth: "@ + decimal(self.width as nat) + "\n\tHeight: "@ + decimal(self.height as nat)
            + "\n\tBit depth: "@ + decimal(self.bit_depth as nat) + "\n\tColor type: "@
            + color_type_label(self.color_type) + "\n\tCompression method: "@
            + compression_method_label(self.compression_method) + "\n\tFilter method: "@
            + filter_method_label(self.filter_method) + "\n\tInterlace method: "@
            + interlace_method_label(self.interlace_method)
    }

    /// Decodes a header payload. A payload under thirteen bytes is refused;
    /// no field is checked against the values that the format knows.
    pub fn new(data: &[u8]) -> (r: Result<Option<HeaderInfo>, String>)
        ensures
            data@.len() < 13 ==> r is Err && r->Err_0@ == Self::too_short(),
            data@.len() >= 13 ==> r == Ok::<Option<HeaderInfo>, String>(
                Some(Self::decode(data@)),
            ),
    {
        if data.len() < 13 {
            return Err(
                String::from_str("Invalid data: Insufficient bytes for header information"),
            );
        }
        let width: u32 = read_be_u32(data, 0);
        let height: u32 = read_be_u32(data, 4);
        let bit_depth: u8 = data[8];
        let color_type: u8 = data[9];
        let compression_method: u8 = data[10];
        let filter_method: u8 = data[11];
        let interlace_method: u8 = data[12];
        Ok(
            Some(
                HeaderInfo {
                    width,
                    height,
                    bit_depth,
                    color_type,
                    compression_method,
                    filter_method,
                    interlace_method,
                },
            ),
        )
    }

    /// The summary of the header, one field to a line.
    pub fn to_string(&self) -> (r: String)
        ensures
            r@ == self.summary(),
    {
        let mut out = String::from_str("\n\tWidth: ");
        push_decimal(&mut out, self.width as u64);
        out.append("\n\tHeight: ");
        push_decimal(&mut out, self.height as u64);
        out.append("\n\tBit depth: ");
        push_decimal(&mut out, self.bit_depth as u64);
        out.append("\n\tColor type: ");
        out.append(color_type_name(self.color_type));
        out.append("\n\tCompression method: ");
        out.append(compression_method_name(self.compression_method));
        out.append("\n\tFilter method: ");
        out.append(filter_method_name(self.filter_method));
        out.append("\n\tInterlace method: ");
        out.append(interlace_method_name(self.interlace_method));
        out
    }
}

} // verus!
