//! The ways in which decoding can fail.

use vstd::prelude::*;
use vstd::string::*;

verus! {

/// `std::io::Error`, carried through as an opaque value.
#[verifier::external_type_specification]
#[verifier::external_body]
pub struct ExIoError(std::io::Error);

/// A failure of the decoder.
#[derive(Debug)]
pub enum PngError {
    /// File access failed; the cause is carried along unexamined.
    Io(std::io::Error),
    /// The stream does not begin with the eight signature bytes.
    InvalidSignature,
    /// The chunk list lacks an image-data chunk or an end chunk.
    InvalidChunkSequence,
    /// The header payload is shorter than thirteen bytes.
    InvalidData,
    /// The header names a colour type that the format does not have.
    InvalidColorType,
    /// A scanline asks for a filter other than the identity.
    UnimplementedFilterType,
    /// Any other malformed input, with a description.
    ParseError(String),
}

/// What a failure is, with text as a sequence of characters and the cause
/// of a file-access failure left out.
pub enum Failure {
    Io,
    InvalidSignature,
    InvalidChunkSequence,
    InvalidData,
    InvalidColorType,
    UnimplementedFilterType,
    ParseError(Seq<char>),
}

impl View for PngError {
    type V = Failure;

    open spec fn view(&self) -> Failure {
        match self {
            PngError::Io(_) => Failure::Io,
            PngError::InvalidSignature => Failure::InvalidSignature,
            PngError::InvalidChunkSequence => Failure::InvalidChunkSequence,
            PngError::InvalidData => Failure::InvalidData,
            PngError::InvalidColorType => Failure::InvalidColorType,
            PngError::UnimplementedFilterType => Failure::UnimplementedFilterType,
            PngError::ParseError(m) => Failure::ParseError(m@),
        }
    }
}

impl Failure {
    /// The fixed text of a failure; for a parse error, the text before its
    /// description, and for a file-access failure, the text before its cause.
    pub open spec fn headline(self) -> Seq<char> {
        match self {
            Failure::Io => "IO Error: "@,
            Failure::InvalidSignature => "Invalid PNG Signature"@,
            Failure::InvalidChunkSequence => "Invalid Chunk Sequence"@,
            Failure::InvalidData => "Invalid Data: Insufficient bytes for header information"@,
            Failure::InvalidColorType => "Invalid color type"@,
            Failure::UnimplementedFilterType => "Invalid filter type or not implemented yet"@,
            Failure::ParseError(_) => "Parse Error: "@,
        }
    }

    /// The full text of a failure whose text is fixed by its kind and description.
    pub open spec fn message(self) -> Seq<char> {
        match self {
            Failure::ParseError(m) => self.headline() + m,
            _ => self.headline(),
        }
    }
}

/// The text of an `std::io::Error`, as `to_string` gives it. Nothing is
/// claimed of the text.
#[verifier::external_body]
pub(crate) fn io_error_text(err: &std::io::Error) -> String {
    err.to_string()
}

impl PngError {
    /// A parse error with the given description.
    pub fn parse_error(description: &str) -> (r: PngError)
        ensures
            r@ == Failure::ParseError(description@),
    {
        PngError::ParseError(String::from_str(description))
    }

    /// The text shown for this failure.
    pub fn to_string(&self) -> (r: String)
        ensures
            !(self@ is Io) ==> r@ == self@.message(),
            self@ is Io ==> self@.headline().is_prefix_of(r@),
    {
        match self {
            PngError::Io(err) => {
                let cause = io_error_text(err);
                String::from_str("IO Error: ").concat(cause.as_str())
            },
            PngError::InvalidSignature => String::from_str("Invalid PNG Signature"),
            PngError::InvalidChunkSequence => String::from_str("Invalid Chunk Sequence"),
            PngError::InvalidData => String::from_str(
                "Invalid Data: Insufficient bytes for header information",
            ),
            PngError::InvalidColorType => String::from_str("Invalid color type"),
            PngError::UnimplementedFilterType => String::from_str(
                "Invalid filter type or not implemented yet",
            ),
            PngError::ParseError(m) => String::from_str("Parse Error: ").concat(m.as_str()),
        }
    }
}

impl From<String> for PngError {
    fn from(err: String) -> (r: PngError) {
        PngError::ParseError(err)
    }
}

impl vstd::std_specs::convert::FromSpecImpl<String> for PngError {
    open spec fn obeys_from_spec() -> bool {
        true
    }

    open spec fn from_spec(err: String) -> PngError {
        PngError::ParseError(err)
    }
}

} // verus!
