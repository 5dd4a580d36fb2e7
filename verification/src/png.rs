//! The decoder: framing of chunks, reconstruction of scanlines, expansion
//! to RGBA, thumbnails and brightness.

use vstd::prelude::*;
use vstd::slice::*;
use vstd::string::*;
use crate::chunk::{Chunk, ChunkType, ChunkView};
use crate::error::{io_error_text, Failure, PngError};
use crate::framing::{
    chunk_at, chunk_end, chunk_fits, chunks_from, spec_parse, spec_read, starts_with_signature,
    truncated_chunk,
};
use crate::header::{read_be_u32, HeaderInfo};
use crate::image_type::{Brightness, VisualData, VisualView, BRIGHTNESS_UNIT, PNG};
use crate::pixels::{
    spec_bytes_per_pixel, spec_brightness, spec_brightness_from, spec_brightness_of_inflated,
    spec_pixel_bytes, spec_reshape, spec_rgba_at, spec_rgba_from, spec_rgba_of_inflated,
    spec_sample_row, spec_sample_rows, spec_unfilter, spec_unfilter_rows,
};
use crate::raw_data::{chunk_views, idat_stream, RawPng, RawPngView};

verus! {

/// Appends `bytes` to `out`.
pub fn append_bytes(out: &mut Vec<u8>, bytes: &[u8])
    ensures
        final(out)@ == old(out)@ + bytes@,
{
    let mut i: usize = 0;
    while i < bytes.len()
        invariant
            i <= bytes.len(),
            out@ == old(out)@ + bytes@.subrange(0, i as int),
        decreases bytes.len() - i,
    {
        out.push(bytes[i]);
        proof {
            assert(out@ =~= old(out)@ + bytes@.subrange(0, i + 1));
        }
        i = i + 1;
    }
    proof {
        assert(bytes@.subrange(0, i as int) =~= bytes@);
    }
}

/// The number of bytes that a pixel of a colour type takes.
pub fn bytes_per_pixel(color_type: u8) -> (r: Result<usize, PngError>)
    ensures
        match r {
            Ok(n) => spec_bytes_per_pixel(color_type) == Some(n as nat),
            Err(e) => spec_bytes_per_pixel(color_type) is None && e@ == Failure::InvalidColorType,
        },
{
    match color_type {
        0 => Ok(1),
        2 => Ok(3),
        3 => Ok(1),
        4 => Ok(2),
        6 => Ok(4),
        _ => Err(PngError::InvalidColorType),
    }
}

/// What the zlib decoder makes of a byte stream: the bytes that it gives
/// out, or `None` where it reports the stream as incomplete or corrupt.
pub uninterp spec fn zlib_inflated(data: Seq<u8>) -> Option<Seq<u8>>;

/// Runs `flate2::read::ZlibDecoder` over `data`, made by `ZlibDecoder::new`
/// and read to its end by `std::io::Read::read_to_end`. The contract gives
/// what the decoder returns a name and claims nothing else of it.
#[verifier::external_body]
fn inflate(data: &[u8]) -> (r: Result<Vec<u8>, std::io::Error>)
    ensures
        match r {
            Ok(v) => zlib_inflated(data@) == Some(v@),
            Err(_) => zlib_inflated(data@) is None,
        },
{
    let mut decoder = flate2::read::ZlibDecoder::new(data);
    let mut out: Vec<u8> = Vec::new();
    match std::io::Read::read_to_end(&mut decoder, &mut out) {
        Ok(_) => Ok(out),
        Err(e) => Err(e),
    }
}

/// A reader for the stream of one file.
pub struct PngReader {
    file_path: String,
}

impl PngReader {
    /// The path of the file that this reader is for.
    pub closed spec fn path(&self) -> Seq<char> {
        self.file_path@
    }

    /// A reader for the file at `file_path`. The file is not touched.
    pub fn new(file_path: &str) -> (r: Result<Self, std::io::Error>)
        ensures
            r is Ok,
            r->Ok_0.path() == file_path@,
    {
        Ok(Self { file_path: String::from_str(file_path) })
    }

    /// The path of the file that this reader is for.
    pub fn file_path(&self) -> (r: &str)
        ensures
            r@ == self.path(),
    {
        self.file_path.as_str()
    }

    /// Parses the contents of the file: checks the signature, then frames
    /// the header and the chunks.
    pub fn read_png(&mut self, buffer: &[u8]) -> (r: Result<RawPng, PngError>)
        ensures
            final(self).path() == old(self).path(),
            match r {
                Ok(png) => spec_read(buffer@) == Ok::<RawPngView, Failure>(png@),
                Err(e) => spec_read(buffer@) == Err::<RawPngView, Failure>(e@),
            },
    {
        match self.validate_png_signature(buffer) {
            Ok(()) => self.png_chunk_from_buffer(buffer),
            Err(e) => Err(e),
        }
    }

    /// Accepts a stream that begins with the eight signature bytes.
    pub fn validate_png_signature(&self, buffer: &[u8]) -> (r: Result<(), PngError>)
        ensures
            starts_with_signature(buffer@) ==> r is Ok,
            !starts_with_signature(buffer@) ==> r is Err && r->Err_0@ == Failure::InvalidSignature,
    {
        if buffer.len() < 8 {
            return Err(PngError::InvalidSignature);
        }
        let signature: [u8; 8] = [
            buffer[0],
            buffer[1],
            buffer[2],
            buffer[3],
            buffer[4],
            buffer[5],
            buffer[6],
            buffer[7],
        ];
        assert(signature@ =~= buffer@.subrange(0, 8));
        if !RawPng::is_signature_valid(signature) {
            return Err(PngError::InvalidSignature);
        }
        Ok(())
    }

    /// Frames the chunk that begins at `offset` and gives it with the
    /// position just past it.
    pub fn parse_chunk(buffer: &[u8], offset: usize) -> (r: Result<(Chunk, usize), PngError>)
        ensures
            chunk_fits(buffer@, offset as int) ==> r is Ok && r->Ok_0.0@ == chunk_at(
                buffer@,
                offset as int,
            ) && r->Ok_0.1 == chunk_end(buffer@, offset as int),
            !chunk_fits(buffer@, offset as int) ==> r is Err && r->Err_0@ == Failure::ParseError(
                truncated_chunk(),
            ),
    {
        if offset > buffer.len() || buffer.len() - offset < 12 {
            return Err(PngError::parse_error("Truncated chunk"));
        }
        let length: u32 = read_be_u32(buffer, offset);
        let room: usize = buffer.len() - offset - 12;
        if length as usize > room {
            return Err(PngError::parse_error("Truncated chunk"));
        }
        let size: usize = length as usize;
        let tag: [u8; 4] = [
            buffer[offset + 4],
            buffer[offset + 5],
            buffer[offset + 6],
            buffer[offset + 7],
        ];
        assert(tag@ =~= buffer@.subrange(offset + 4, offset + 8));
        let data: Vec<u8> = slice_to_vec(slice_subrange(buffer, offset + 8, offset + 8 + size));
        let crc: u32 = read_be_u32(buffer, offset + 8 + size);
        Ok((Chunk::with_type_code(length, tag, data, crc), offset + 12 + size))
    }

    /// Frames the header and the chunks of a stream and builds the parsed
    /// value from them.
    pub fn png_chunk_from_buffer(&self, buffer: &[u8]) -> (r: Result<RawPng, PngError>)
        ensures
            match r {
                Ok(png) => spec_parse(buffer@) == Ok::<RawPngView, Failure>(png@),
                Err(e) => spec_parse(buffer@) == Err::<RawPngView, Failure>(e@),
            },
    {
        if buffer.len() < 8 {
            return Err(PngError::InvalidSignature);
        }
        let signature: [u8; 8] = [
            buffer[0],
            buffer[1],
            buffer[2],
            buffer[3],
            buffer[4],
            buffer[5],
            buffer[6],
            buffer[7],
        ];
        assert(signature@ =~= buffer@.subrange(0, 8));
        let (ihdr, first) = match Self::parse_chunk(buffer, 8) {
            Ok(pair) => pair,
            Err(e) => {
                return Err(e);
            },
        };
        let header_info = match HeaderInfo::new(ihdr.data.as_slice()) {
            Ok(Some(h)) => h,
            _ => {
                return Err(PngError::InvalidData);
            },
        };
        let mut chunks: Vec<Chunk> = Vec::new();
        let mut offset: usize = first;
        let ghost start = first as int;
        while offset < buffer.len()
            invariant
                8 <= start <= offset,
                buffer@.len() >= 8,
                chunk_fits(buffer@, 8),
                start == chunk_end(buffer@, 8),
                chunk_at(buffer@, 8).data.len() >= 13,
                chunks_from(buffer@, start) == match chunks_from(buffer@, offset as int) {
                    Some(rest) => Some(chunk_views(chunks@) + rest),
                    None => None,
                },
            decreases buffer.len() - offset,
        {
            let ghost before = chunk_views(chunks@);
            match Self::parse_chunk(buffer, offset) {
                Ok((chunk, next)) => {
                    chunks.push(chunk);
                    proof {
                        let after = chunk_views(chunks@);
                        let one = seq![chunk_at(buffer@, offset as int)];
                        assert(after =~= before + one);
                        match chunks_from(buffer@, next as int) {
                            Some(rest) => {
                                assert(before + (one + rest) =~= after + rest);
                            },
                            None => {},
                        }
                    }
                    offset = next;
                },
                Err(e) => {
                    assert(chunks_from(buffer@, offset as int) is None);
                    return Err(e);
                },
            }
        }
        proof {
            assert(chunk_views(chunks@) + Seq::<ChunkView>::empty() =~= chunk_views(chunks@));
        }
        RawPng::new(signature, header_info, chunks)
    }

    /// A scanline whose filter is the identity, as it stands.
    pub fn unfilter_none(scanline: &[u8]) -> (r: Result<Vec<u8>, PngError>)
        ensures
            r is Ok,
            r->Ok_0@ == scanline@,
    {
        Ok(slice_to_vec(scanline))
    }

    /// Strips the filter tag from every scanline of inflated image data.
    pub fn unfilter_data(data: &[u8], header: &HeaderInfo) -> (r: Result<Vec<u8>, PngError>)
        ensures
            match r {
                Ok(v) => spec_unfilter(data@, *header) == Ok::<Seq<u8>, Failure>(v@),
                Err(e) => spec_unfilter(data@, *header) == Err::<Seq<u8>, Failure>(e@),
            },
    {
        let bpp: usize = match bytes_per_pixel(header.color_type) {
            Ok(n) => n,
            Err(e) => {
                return Err(e);
            },
        };
        let scanline_length: u64 = header.width as u64 * bpp as u64;
        let ghost row = header.width as nat * bpp as nat;
        assert(scanline_length == row) by (nonlinear_arith)
            requires
                scanline_length == header.width as u64 * bpp as u64,
                row == header.width as nat * bpp as nat,
                bpp <= 4,
        ;
        let mut unfiltered_data: Vec<u8> = Vec::new();
        let mut offset: usize = 0;
        while offset < data.len()
            invariant
                scanline_length == row,
                row == header.width as nat * bpp as nat,
                spec_bytes_per_pixel(header.color_type) == Some(bpp as nat),
                spec_unfilter_rows(data@, row, 0) == match spec_unfilter_rows(
                    data@,
                    row,
                    offset as int,
                ) {
                    Ok(rest) => Ok::<Seq<u8>, Failure>(unfiltered_data@ + rest),
                    Err(e) => Err(e),
                },
            decreases data.len() - offset,
        {
            let filter_type: u8 = data[offset];
            let room: usize = data.len() - offset - 1;
            if scanline_length > room as u64 {
                return Err(PngError::parse_error("Truncated scanline"));
            }
            let length: usize = scanline_length as usize;
            let scanline = slice_subrange(data, offset + 1, offset + 1 + length);
            let unfiltered_scanline = match filter_type {
                0 => match PngReader::unfilter_none(scanline) {
                    Ok(v) => v,
                    Err(e) => {
                        return Err(e);
                    },
                },
                _ => {
                    return Err(PngError::UnimplementedFilterType);
                },
            };
            let ghost before = unfiltered_data@;
            append_bytes(&mut unfiltered_data, unfiltered_scanline.as_slice());
            proof {
                let next = offset + 1 + length;
                match spec_unfilter_rows(data@, row, next) {
                    Ok(rest) => {
                        assert(before + (scanline@ + rest) =~= unfiltered_data@ + rest);
                    },
                    Err(e) => {},
                }
            }
            offset = offset + 1 + length;
        }
        proof {
            assert(unfiltered_data@ + Seq::<u8>::empty() =~= unfiltered_data@);
        }
        Ok(unfiltered_data)
    }

    /// Expands the pixels of a reconstructed buffer to RGBA.
    pub fn convert_to_visual_code(data: &[u8], header: &HeaderInfo) -> (r: Result<
        Vec<u8>,
        PngError,
    >)
        ensures
            match r {
                Ok(v) => spec_rgba_from(data@, header.color_type, 0) == Ok::<Seq<u8>, Failure>(v@),
                Err(e) => spec_rgba_from(data@, header.color_type, 0) == Err::<Seq<u8>, Failure>(
                    e@,
                ),
            },
    {
        let color_type: u8 = header.color_type;
        let bpp: usize = match bytes_per_pixel(color_type) {
            Ok(n) => n,
            Err(e) => {
                return Err(e);
            },
        };
        let mut rgb_data: Vec<u8> = Vec::new();
        let mut offset: usize = 0;
        while offset < data.len()
            invariant
                color_type == header.color_type,
                spec_bytes_per_pixel(color_type) == Some(bpp as nat),
                spec_rgba_from(data@, color_type, 0) == match spec_rgba_from(
                    data@,
                    color_type,
                    offset as int,
                ) {
                    Ok(rest) => Ok::<Seq<u8>, Failure>(rgb_data@ + rest),
                    Err(e) => Err(e),
                },
            decreases data.len() - offset,
        {
            let room: usize = data.len() - offset;
            let ghost before = rgb_data@;
            if color_type == 3 {
                let entry: usize = data[offset] as usize * 3;
                if entry + 3 > data.len() {
                    return Err(PngError::parse_error("Palette index out of range"));
                }
                rgb_data.push(data[entry]);
                rgb_data.push(data[entry + 1]);
                rgb_data.push(data[entry + 2]);
                rgb_data.push(255);
            } else {
                if room < bpp {
                    return Err(PngError::parse_error("Truncated pixel"));
                }
                if color_type == 0 {
                    let gray: u8 = data[offset];
                    rgb_data.push(gray);
                    rgb_data.push(gray);
                    rgb_data.push(gray);
                    rgb_data.push(255);
                } else if color_type == 2 {
                    rgb_data.push(data[offset]);
                    rgb_data.push(data[offset + 1]);
                    rgb_data.push(data[offset + 2]);
                    rgb_data.push(255);
                } else if color_type == 4 {
                    let gray: u8 = data[offset];
                    rgb_data.push(gray);
                    rgb_data.push(gray);
                    rgb_data.push(gray);
                    rgb_data.push(data[offset + 1]);
                } else {
                    rgb_data.push(data[offset]);
                    rgb_data.push(data[offset + 1]);
                    rgb_data.push(data[offset + 2]);
                    rgb_data.push(data[offset + 3]);
                }
            }
            proof {
                let pixel = spec_rgba_at(data@, color_type, offset as int)->Ok_0;
                assert(rgb_data@ =~= before + pixel);
                match spec_rgba_from(data@, color_type, offset + bpp) {
                    Ok(rest) => {
                        assert(before + (pixel + rest) =~= rgb_data@ + rest);
                    },
                    Err(e) => {},
                }
            }
            offset = offset + bpp;
        }
        proof {
            assert(rgb_data@ + Seq::<u8>::empty() =~= rgb_data@);
        }
        Ok(rgb_data)
    }

    /// Takes every `step_size`-th pixel of every `step_size`-th row.
    pub fn reshape_data(data: &[u8], header: &HeaderInfo, step_size: usize) -> (r: Result<
        Option<VisualData>,
        PngError,
    >)
        ensures
            match r {
                Ok(form) => form is Some && spec_reshape(data@, *header, step_size as nat) == Ok::<
                    VisualView,
                    Failure,
                >(form->Some_0@),
                Err(e) => spec_reshape(data@, *header, step_size as nat) == Err::<
                    VisualView,
                    Failure,
                >(e@),
            },
    {
        let bpp: usize = match bytes_per_pixel(header.color_type) {
            Ok(n) => n,
            Err(e) => {
                return Err(e);
            },
        };
        if step_size == 0 {
            return Err(PngError::parse_error("Step size must be positive"));
        }
        let width: u64 = header.width as u64;
        let height: u64 = header.height as u64;
        let step: u64 = step_size as u64;
        let cols: u64 = width / step;
        let rows: u64 = height / step;
        let mut reshaped_data: Vec<u8> = Vec::new();
        let mut j: u64 = 0;
        while j < rows
            invariant
                j <= rows,
                step > 0,
                1 <= bpp <= 4,
                width == header.width,
                height == header.height,
                cols == width / step,
                rows == height / step,
                reshaped_data@ == spec_sample_rows(
                    data@,
                    width as nat,
                    bpp as nat,
                    step as nat,
                    j as nat,
                    cols as nat,
                ),
            decreases rows - j,
        {
            assert(j * step < height) by (nonlinear_arith)
                requires
                    j < height / step,
                    step > 0,
            ;
            let y: u64 = j * step;
            let ghost done = reshaped_data@;
            let mut i: u64 = 0;
            while i < cols
                invariant
                    i <= cols,
                    step > 0,
                    1 <= bpp <= 4,
                    width <= u32::MAX,
                    y < height <= u32::MAX,
                    cols == width / step,
                    reshaped_data@ == done + spec_sample_row(
                        data@,
                        width as nat,
                        bpp as nat,
                        step as nat,
                        y as nat,
                        i as nat,
                    ),
                decreases cols - i,
            {
                assert(i * step < width) by (nonlinear_arith)
                    requires
                        i < width / step,
                        step > 0,
                ;
                let x: u64 = i * step;
                assert(y * width <= 0xFFFF_FFFF * 0xFFFF_FFFF) by (nonlinear_arith)
                    requires
                        y <= 0xFFFF_FFFF,
                        width <= 0xFFFF_FFFF,
                ;
                let pixel: u128 = y as u128 * width as u128 + x as u128;
                assert(pixel * bpp <= 0x1_0000_0000_0000_0000 * 4) by (nonlinear_arith)
                    requires
                        pixel <= 0x1_0000_0000_0000_0000,
                        bpp <= 4,
                ;
                let offset: u128 = pixel * bpp as u128;
                let ghost before = reshaped_data@;
                if offset + bpp as u128 <= data.len() as u128 {
                    let from: usize = offset as usize;
                    append_bytes(&mut reshaped_data, slice_subrange(data, from, from + bpp));
                }
                proof {
                    assert(offset == (y as nat * width as nat + i as nat * step as nat)
                        * bpp as nat);
                    assert(reshaped_data@ =~= before + spec_pixel_bytes(
                        data@,
                        offset as int,
                        bpp as nat,
                    ));
                    assert(reshaped_data@ =~= done + spec_sample_row(
                        data@,
                        width as nat,
                        bpp as nat,
                        step as nat,
                        y as nat,
                        (i + 1) as nat,
                    ));
                }
                i = i + 1;
            }
            j = j + 1;
        }
        let image = PNG { shape: (cols as u32, rows as u32), data: reshaped_data };
        Ok(Some(VisualData::RGBA(image)))
    }

    /// Reduces the pixels of a visual form that holds bytes to brightness.
    pub fn brightness_representation(b_data: VisualData, header: &HeaderInfo) -> (r: Result<
        Option<VisualData>,
        PngError,
    >)
        ensures
            match r {
                Ok(form) => form is Some && spec_brightness(b_data@, *header) == Ok::<
                    VisualView,
                    Failure,
                >(form->Some_0@),
                Err(e) => spec_brightness(b_data@, *header) == Err::<VisualView, Failure>(e@),
            },
    {
        let color_type: u8 = header.color_type;
        let bpp: usize = match bytes_per_pixel(color_type) {
            Ok(n) => n,
            Err(e) => {
                return Err(e);
            },
        };
        let data: Vec<u8> = match b_data.to_bytes() {
            Some(v) => v,
            None => {
                return Err(PngError::parse_error("Cannot convert to PNG"));
            },
        };
        let mut values: Vec<u32> = Vec::new();
        let mut offset: usize = 0;
        while offset < data.len()
            invariant
                color_type == header.color_type,
                spec_bytes_per_pixel(color_type) == Some(bpp as nat),
                b_data@.bytes() == Some(data@),
                spec_brightness_from(data@, color_type, 0) == match spec_brightness_from(
                    data@,
                    color_type,
                    offset as int,
                ) {
                    Ok(rest) => Ok::<Seq<u32>, Failure>(values@ + rest),
                    Err(e) => Err(e),
                },
            decreases data.len() - offset,
        {
            let room: usize = data.len() - offset;
            let ghost before = values@;
            let brightness: u32 = if color_type == 2 || color_type == 6 {
                if room < 3 {
                    return Err(PngError::parse_error("Truncated pixel"));
                }
                let r: u32 = data[offset] as u32;
                let g: u32 = data[offset + 1] as u32;
                let b: u32 = data[offset + 2] as u32;
                299 * r + 587 * g + 114 * b
            } else {
                BRIGHTNESS_UNIT * data[offset] as u32
            };
            values.push(brightness);
            proof {
                assert(values@ =~= before + seq![brightness]);
                match spec_brightness_from(data@, color_type, offset + bpp) {
                    Ok(rest) => {
                        assert(before + (seq![brightness] + rest) =~= values@ + rest);
                    },
                    Err(e) => {},
                }
            }
            if room <= bpp {
                offset = data.len();
            } else {
                offset = offset + bpp;
            }
        }
        proof {
            assert(values@ + Seq::<u32>::empty() =~= values@);
        }
        let brightness_data = Brightness { shape: (header.width, header.height), data: values };
        Ok(Some(VisualData::Brightness(brightness_data)))
    }

    /// The compressed image data of a parsed stream: the payloads of its
    /// usable image-data chunks, in order.
    pub fn image_data(raw_png: &RawPng) -> (r: Vec<u8>)
        ensures
            r@ == idat_stream(raw_png@.chunks),
    {
        let required_chunk_type = ChunkType::IDAT;
        let mut idat_data: Vec<u8> = Vec::new();
        let ghost views = raw_png@.chunks;
        let mut i: usize = 0;
        while i < raw_png.chunks.len()
            invariant
                i <= raw_png.chunks.len(),
                views == raw_png@.chunks,
                required_chunk_type == ChunkType::IDAT,
                idat_data@ == idat_stream(views.subrange(0, i as int)),
            decreases raw_png.chunks.len() - i,
        {
            let chunk = &raw_png.chunks[i];
            proof {
                let next = views.subrange(0, i + 1);
                assert(next.drop_last() =~= views.subrange(0, i as int));
                assert(next.last() == chunk@);
            }
            if chunk.chunk_type.is_same_as(&required_chunk_type) && chunk.is_valid() {
                append_bytes(&mut idat_data, chunk.data.as_slice());
            }
            i = i + 1;
        }
        proof {
            assert(views.subrange(0, i as int) =~= views);
        }
        idat_data
    }

    /// Inflates compressed image data.
    pub fn decompress_data(data: &[u8]) -> (r: Result<Vec<u8>, PngError>)
        ensures
            match r {
                Ok(v) => zlib_inflated(data@) == Some(v@),
                Err(e) => zlib_inflated(data@) is None && e@ is ParseError,
            },
    {
        match inflate(data) {
            Ok(v) => Ok(v),
            Err(e) => Err(PngError::ParseError(io_error_text(&e))),
        }
    }

    /// Turns inflated image data into RGBA pixels with the shape of the
    /// header.
    pub fn rgba_of_inflated(inflated: &[u8], header: &HeaderInfo) -> (r: Result<
        Option<VisualData>,
        PngError,
    >)
        ensures
            match r {
                Ok(form) => form is Some && spec_rgba_of_inflated(inflated@, *header) == Ok::<
                    VisualView,
                    Failure,
                >(form->Some_0@),
                Err(e) => spec_rgba_of_inflated(inflated@, *header) == Err::<VisualView, Failure>(
                    e@,
                ),
            },
    {
        let unfiltered_data = match PngReader::unfilter_data(inflated, header) {
            Ok(v) => v,
            Err(e) => {
                return Err(e);
            },
        };
        let visual_data = match PngReader::convert_to_visual_code(
            unfiltered_data.as_slice(),
            header,
        ) {
            Ok(v) => v,
            Err(e) => {
                return Err(e);
            },
        };
        let image = PNG { shape: (header.width, header.height), data: visual_data };
        Ok(Some(VisualData::RGBA(image)))
    }

    /// Turns inflated image data into the brightness of a thumbnail.
    pub fn brightness_of_inflated(inflated: &[u8], header: &HeaderInfo, step_size: usize) -> (r:
        Result<Option<VisualData>, PngError>)
        ensures
            match r {
                Ok(form) => form is Some && spec_brightness_of_inflated(
                    inflated@,
                    *header,
                    step_size as nat,
                ) == Ok::<VisualView, Failure>(form->Some_0@),
                Err(e) => spec_brightness_of_inflated(inflated@, *header, step_size as nat)
                    == Err::<VisualView, Failure>(e@),
            },
    {
        let unfiltered_data = match PngReader::unfilter_data(inflated, header) {
            Ok(v) => v,
            Err(e) => {
                return Err(e);
            },
        };
        let thumbnail = match PngReader::reshape_data(
            unfiltered_data.as_slice(),
            header,
            step_size,
        ) {
            Ok(Some(form)) => form,
            Ok(None) => {
                return Ok(None);
            },
            Err(e) => {
                return Err(e);
            },
        };
        PngReader::brightness_representation(thumbnail, header)
    }

    /// Decodes the image data of a parsed stream to RGBA pixels: collects
    /// the usable image-data chunks, inflates them and hands the result to
    /// `rgba_of_inflated`.
    pub fn to_rgba_data(&self, raw_png: &RawPng) -> (r: Result<Option<VisualData>, PngError>)
        ensures
            match zlib_inflated(idat_stream(raw_png@.chunks)) {
                None => r is Err && r->Err_0@ is ParseError,
                Some(inflated) => match r {
                    Ok(form) => form is Some && spec_rgba_of_inflated(inflated, raw_png.header)
                        == Ok::<VisualView, Failure>(form->Some_0@),
                    Err(e) => spec_rgba_of_inflated(inflated, raw_png.header) == Err::<
                        VisualView,
                        Failure,
                    >(e@),
                },
            },
    {
        let idat_data = PngReader::image_data(raw_png);
        let decompressed_data = match PngReader::decompress_data(idat_data.as_slice()) {
            Ok(v) => v,
            Err(e) => {
                return Err(e);
            },
        };
        PngReader::rgba_of_inflated(decompressed_data.as_slice(), &raw_png.header)
    }

    /// Decodes the image data of a parsed stream to the brightness of a
    /// thumbnail: collects the usable image-data chunks, inflates them and
    /// hands the result to `brightness_of_inflated`.
    pub fn to_brightness_data(&self, raw_png: &RawPng, step_size: usize) -> (r: Result<
        Option<VisualData>,
        PngError,
    >)
        ensures
            match zlib_inflated(idat_stream(raw_png@.chunks)) {
                None => r is Err && r->Err_0@ is ParseError,
                Some(inflated) => match r {
                    Ok(form) => form is Some && spec_brightness_of_inflated(
                        inflated,
                        raw_png.header,
                        step_size as nat,
                    ) == Ok::<VisualView, Failure>(form->Some_0@),
                    Err(e) => spec_brightness_of_inflated(
                        inflated,
                        raw_png.header,
                        step_size as nat,
                    ) == Err::<VisualView, Failure>(e@),
                },
            },
    {
        let idat_data = PngReader::image_data(raw_png);
        let decompressed_data = match PngReader::decompress_data(idat_data.as_slice()) {
            Ok(v) => v,
            Err(e) => {
                return Err(e);
            },
        };
        PngReader::brightness_of_inflated(
            decompressed_data.as_slice(),
            &raw_png.header,
            step_size,
        )
    }
}

} // verus!
