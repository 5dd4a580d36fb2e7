//! The parsed stream: signature, header and the chunks that follow it.

use vstd::prelude::*;
use vstd::string::*;
use crate::chunk::{Chunk, ChunkType, ChunkView};
use crate::error::{Failure, PngError};
use crate::header::HeaderInfo;
use crate::text::{byte_list, decimal, push_byte_list, push_decimal};

verus! {

/// The eight bytes with which every stream begins.
pub open spec fn png_signature() -> Seq<u8> {
    seq![137u8, 80u8, 78u8, 71u8, 13u8, 10u8, 26u8, 10u8]
}

/// The records of a list of chunks as plain values, in order.
pub open spec fn chunk_views(chunks: Seq<Chunk>) -> Seq<ChunkView> {
    Seq::new(chunks.len(), |i: int| chunks[i]@)
}

/// Whether a chunk of the given kind occurs among `chunks`.
pub open spec fn has_kind(chunks: Seq<ChunkView>, kind: ChunkType) -> bool {
    exists|i: int| 0 <= i < chunks.len() && (#[trigger] chunks[i]).chunk_type == kind
}

/// Whether a list of chunks holds what every image needs: image data and
/// an end.
pub open spec fn sequence_complete(chunks: Seq<ChunkView>) -> bool {
    has_kind(chunks, ChunkType::IDAT) && has_kind(chunks, ChunkType::IEND)
}

/// The payloads of the image-data chunks of a list whose tag bits and
/// checksum are in order, one after another in the order of the list.
pub open spec fn idat_stream(chunks: Seq<ChunkView>) -> Seq<u8>
    decreases chunks.len(),
{
    if chunks.len() == 0 {
        Seq::empty()
    } else {
        let front = idat_stream(chunks.drop_last());
        let chunk = chunks.last();
        if chunk.chunk_type == ChunkType::IDAT && chunk.is_valid() {
            front + chunk.data
        } else {
            front
        }
    }
}

/// A parsed stream. The chunk list holds what follows the header chunk.
#[derive(Debug)]
pub struct RawPng {
    pub signature: [u8; 8],
    pub header: HeaderInfo,
    pub chunks: Vec<Chunk>,
}

/// A parsed stream as plain values.
pub struct RawPngView {
    pub signature: Seq<u8>,
    pub header: HeaderInfo,
    pub chunks: Seq<ChunkView>,
}

impl View for RawPng {
    type V = RawPngView;

    open spec fn view(&self) -> RawPngView {
        RawPngView {
            signature: self.signature@,
            header: self.header,
            chunks: chunk_views(self.chunks@),
        }
    }
}

impl RawPngView {
    /// What construction checks: the signature is the fixed one and the
    /// chunk list is complete.
    pub open spec fn well_formed(self) -> bool {
        self.signature == png_signature() && sequence_complete(self.chunks)
    }

    /// The summary of a parsed stream.
    pub open spec fn summary(self) -> Seq<char> {
        "Raw PNG Information:\nSignature: "@ + byte_list(self.signature) + "\nHeader: "@
            + self.header.summary() + "\nNumber of Chunks: "@ + decimal(self.chunks.len())
    }
}

impl RawPng {
    /// Checks the signature, then the chunk list, and builds the value if
    /// both are in order.
    pub fn new(signature: [u8; 8], header: HeaderInfo, chunks: Vec<Chunk>) -> (r: Result<
        Self,
        PngError,
    >)
        ensures
            signature@ != png_signature() ==> r is Err && r->Err_0@ == Failure::InvalidSignature,
            signature@ == png_signature() && !sequence_complete(chunk_views(chunks@)) ==> r is Err
                && r->Err_0@ == Failure::InvalidChunkSequence,
            signature@ == png_signature() && sequence_complete(chunk_views(chunks@)) ==> r is Ok
                && r->Ok_0.signature == signature && r->Ok_0.header == header && r->Ok_0.chunks
                == chunks && r->Ok_0@.well_formed(),
    {
        if !RawPng::is_signature_valid(signature) {
            return Err(PngError::InvalidSignature);
        }
        if !RawPng::verify_chunk_sequence(&chunks) {
            return Err(PngError::InvalidChunkSequence);
        }
        Ok(Self { signature, header, chunks })
    }

    /// Whether eight bytes are the signature.
    pub fn is_signature_valid(signature: [u8; 8]) -> (r: bool)
        ensures
            r == (signature@ == png_signature()),
    {
        let r: bool = signature[0] == 137 && signature[1] == 80 && signature[2] == 78
            && signature[3] == 71 && signature[4] == 13 && signature[5] == 10 && signature[6]
            == 26 && signature[7] == 10;
        proof {
            let m = png_signature();
            assert(m[0] == 137 && m[1] == 80 && m[2] == 78 && m[3] == 71 && m[4] == 13 && m[5]
                == 10 && m[6] == 26 && m[7] == 10);
            if r {
                assert(signature@ =~= m);
            }
        }
        r
    }

    /// Whether a list holds an image-data chunk and an end chunk, wherever
    /// in the list they stand.
    pub fn verify_chunk_sequence(chunks: &Vec<Chunk>) -> (r: bool)
        ensures
            r == sequence_complete(chunk_views(chunks@)),
    {
        let mut has_idat: bool = false;
        let mut has_iend: bool = false;
        let ghost views = chunk_views(chunks@);
        let mut i: usize = 0;
        while i < chunks.len()
            invariant
                i <= chunks.len(),
                views == chunk_views(chunks@),
                has_idat == has_kind(views.subrange(0, i as int), ChunkType::IDAT),
                has_iend == has_kind(views.subrange(0, i as int), ChunkType::IEND),
            decreases chunks.len() - i,
        {
            proof {
                let before = views.subrange(0, i as int);
                let after = views.subrange(0, i + 1);
                assert(after[i as int] == chunks@[i as int]@);
                assert forall|kind: ChunkType|
                    has_kind(after, kind) == (has_kind(before, kind) || chunks@[i as int].chunk_type
                        == kind) by {
                    if has_kind(before, kind) {
                        let j = choose|j: int|
                            0 <= j < before.len() && (#[trigger] before[j]).chunk_type == kind;
                        assert(after[j] == before[j]);
                    }
                    if has_kind(after, kind) {
                        let j = choose|j: int|
                            0 <= j < after.len() && (#[trigger] after[j]).chunk_type == kind;
                        if j < i {
                            assert(before[j] == after[j]);
                        }
                    }
                }
            }
            match chunks[i].chunk_type {
                ChunkType::IDAT => {
                    has_idat = true;
                },
                ChunkType::IEND => {
                    has_iend = true;
                },
                _ => {},
            }
            i = i + 1;
        }
        proof {
            assert(views.subrange(0, i as int) =~= views);
        }
        has_idat && has_iend
    }

    /// The summary that is printed of a parsed stream.
    pub fn to_string(&self) -> (r: String)
        ensures
            r@ == self@.summary(),
    {
        let mut out = String::from_str("Raw PNG Information:\nSignature: ");
        push_byte_list(&mut out, self.signature.as_slice());
        out.append("\nHeader: ");
        let header = self.header.to_string();
        out.append(header.as_str());
        out.append("\nNumber of Chunks: ");
        push_decimal(&mut out, self.chunks.len() as u64);
        out
    }
}

} // verus!
