//! The framing of a byte stream: a signature, a header chunk and the
//! chunks that follow it.

use vstd::prelude::*;
use crate::chunk::{
    bit_five_clear, lemma_crc32_single_byte_change, spec_crc32, ChunkType, ChunkView,
};
use crate::error::Failure;
use crate::header::{be_u32, HeaderInfo};
use crate::raw_data::{png_signature, sequence_complete, RawPngView};

verus! {

/// Whether a whole chunk lies in `buf` from position `at`: four bytes of
/// length, four of type, the payload and four of checksum.
pub open spec fn chunk_fits(buf: Seq<u8>, at: int) -> bool {
    0 <= at && at + 12 <= buf.len() && at + 12 + be_u32(buf, at) <= buf.len()
}

/// The position just past the chunk that begins at `at`.
pub open spec fn chunk_end(buf: Seq<u8>, at: int) -> int {
    at + 12 + be_u32(buf, at)
}

/// The chunk that begins at `at`.
pub open spec fn chunk_at(buf: Seq<u8>, at: int) -> ChunkView {
    let length = be_u32(buf, at);
    ChunkView {
        length: length as u32,
        chunk_type: ChunkType::of_tag(buf.subrange(at + 4, at + 8)),
        type_code: buf.subrange(at + 4, at + 8),
        data: buf.subrange(at + 8, at + 8 + length),
        crc: be_u32(buf, at + 8 + length) as u32,
    }
}

/// The chunks that lie back to back from `at` to the end of `buf`, or
/// `None` if the last of them is cut short.
pub open spec fn chunks_from(buf: Seq<u8>, at: int) -> Option<Seq<ChunkView>>
    decreases buf.len() - at,
{
    if at < 0 || at >= buf.len() {
        Some(Seq::empty())
    } else if !chunk_fits(buf, at) {
        None
    } else {
        match chunks_from(buf, chunk_end(buf, at)) {
            Some(rest) => Some(seq![chunk_at(buf, at)] + rest),
            None => None,
        }
    }
}

/// The description of a chunk that is cut short.
pub open spec fn truncated_chunk() -> Seq<char> {
    "Truncated chunk"@
}

/// Whether `buf` begins with the eight signature bytes.
pub open spec fn starts_with_signature(buf: Seq<u8>) -> bool {
    buf.len() >= 8 && buf.subrange(0, 8) == png_signature()
}

/// What a byte stream parses to. The first chunk after the signature is
/// taken for the header; the chunk list holds those that follow it. The
/// faults are looked for in this order: a stream too short to hold a
/// signature, a header chunk cut short, a header payload under thirteen
/// bytes, a later chunk cut short, a wrong signature, an incomplete list.
pub open spec fn spec_parse(buf: Seq<u8>) -> Result<RawPngView, Failure> {
    if buf.len() < 8 {
        Err(Failure::InvalidSignature)
    } else if !chunk_fits(buf, 8) {
        Err(Failure::ParseError(truncated_chunk()))
    } else if chunk_at(buf, 8).data.len() < 13 {
        Err(Failure::InvalidData)
    } else {
        match chunks_from(buf, chunk_end(buf, 8)) {
            None => Err(Failure::ParseError(truncated_chunk())),
            Some(chunks) => if buf.subrange(0, 8) != png_signature() {
                Err(Failure::InvalidSignature)
            } else if !sequence_complete(chunks) {
                Err(Failure::InvalidChunkSequence)
            } else {
                Ok(
                    RawPngView {
                        signature: buf.subrange(0, 8),
                        header: HeaderInfo::decode(chunk_at(buf, 8).data),
                        chunks,
                    },
                )
            },
        }
    }
}

/// What reading a stream gives: the signature is checked before anything
/// else is looked at.
pub open spec fn spec_read(buf: Seq<u8>) -> Result<RawPngView, Failure> {
    if !starts_with_signature(buf) {
        Err(Failure::InvalidSignature)
    } else {
        spec_parse(buf)
    }
}

/// A stream is read to a value only if it begins with the signature and
/// holds an image-data chunk and an end chunk after its header; the value
/// then meets what construction checks.
pub proof fn lemma_read_rejects(buf: Seq<u8>)
    ensures
        !starts_with_signature(buf) ==> spec_read(buf) is Err && spec_parse(buf) is Err,
        chunk_fits(buf, 8) && chunks_from(buf, chunk_end(buf, 8)) is Some && !sequence_complete(
            chunks_from(buf, chunk_end(buf, 8))->Some_0,
        ) ==> spec_read(buf) is Err,
        spec_read(buf) is Ok ==> spec_read(buf)->Ok_0.well_formed(),
{
}

/// A framed chunk keeps the four tag bytes as they stand in the stream,
/// and its kind is the one that they stand for.
pub proof fn lemma_chunk_at_keeps_tag(buf: Seq<u8>, at: int)
    requires
        chunk_fits(buf, at),
    ensures
        chunk_at(buf, at).well_formed(),
        chunk_at(buf, at).type_code == buf.subrange(at + 4, at + 8),
        chunk_at(buf, at).is_critical() == bit_five_clear(buf[at + 4]),
        chunk_at(buf, at).is_public() == bit_five_clear(buf[at + 5]),
        chunk_at(buf, at).is_reserved_bit_valid() == bit_five_clear(buf[at + 6]),
        chunk_at(buf, at).verify_crc() == (spec_crc32(buf.subrange(at + 4, at + 8 + be_u32(buf, at)))
            == be_u32(buf, at + 8 + be_u32(buf, at))),
{
    let length = be_u32(buf, at);
    assert(buf.subrange(at + 4, at + 8) + buf.subrange(at + 8, at + 8 + length) =~= buf.subrange(
        at + 4,
        at + 8 + length,
    ));
    let tail = at + 8 + length;
    assert(0 <= be_u32(buf, tail) <= u32::MAX);
}

/// Changing one payload byte of a chunk in a stream leaves the chunk's
/// length, tag and stored checksum as they were, so a chunk whose checksum
/// matched before the change fails the check after it.
pub proof fn lemma_payload_change_fails_crc(buf: Seq<u8>, at: int, position: int, value: u8)
    requires
        chunk_fits(buf, at),
        at + 8 <= position < at + 8 + be_u32(buf, at),
        value != buf[position],
        chunk_at(buf, at).verify_crc(),
    ensures
        chunk_fits(buf.update(position, value), at),
        chunk_end(buf.update(position, value), at) == chunk_end(buf, at),
        chunk_at(buf.update(position, value), at).length == chunk_at(buf, at).length,
        chunk_at(buf.update(position, value), at).chunk_type == chunk_at(buf, at).chunk_type,
        chunk_at(buf.update(position, value), at).type_code == chunk_at(buf, at).type_code,
        chunk_at(buf.update(position, value), at).crc == chunk_at(buf, at).crc,
        chunk_at(buf.update(position, value), at).data == chunk_at(buf, at).data.update(
            position - at - 8,
            value,
        ),
        !chunk_at(buf.update(position, value), at).verify_crc(),
        !chunk_at(buf.update(position, value), at).is_valid(),
{
    let changed = buf.update(position, value);
    let length = be_u32(buf, at);
    assert(be_u32(changed, at) == length);
    assert(changed.subrange(at + 4, at + 8) =~= buf.subrange(at + 4, at + 8));
    assert(be_u32(changed, at + 8 + length) == be_u32(buf, at + 8 + length));
    let before = chunk_at(buf, at);
    let after = chunk_at(changed, at);
    assert(after.data =~= before.data.update(position - at - 8, value));
    lemma_crc32_single_byte_change(before.type_code, before.data, position - at - 8, value);
}

} // verus!
