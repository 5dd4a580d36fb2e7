use png_ascii::chunk::{crc32, Chunk, ChunkType};
use png_ascii::error::PngError;
use png_ascii::header::HeaderInfo;
use png_ascii::png::PngReader;
use png_ascii::raw_data::RawPng;

const SIGNATURE: [u8; 8] = [137, 80, 78, 71, 13, 10, 26, 10];

fn frame(tag: &[u8; 4], data: &[u8]) -> Vec<u8> {
    let mut out = Vec::new();
    out.extend_from_slice(&(data.len() as u32).to_be_bytes());
    out.extend_from_slice(tag);
    out.extend_from_slice(data);
    out.extend_from_slice(&crc32(tag, data).to_be_bytes());
    out
}

fn header_payload(width: u32, height: u32, color_type: u8) -> Vec<u8> {
    let mut out = Vec::new();
    out.extend_from_slice(&width.to_be_bytes());
    out.extend_from_slice(&height.to_be_bytes());
    out.extend_from_slice(&[8, color_type, 0, 0, 0]);
    out
}

fn stream(chunks: &[Vec<u8>]) -> Vec<u8> {
    let mut out = SIGNATURE.to_vec();
    for chunk in chunks {
        out.extend_from_slice(chunk);
    }
    out
}

fn plain_stream() -> Vec<u8> {
    stream(&[
        frame(b"IHDR", &header_payload(2, 3, 6)),
        frame(b"tEXt", b"hello"),
        frame(b"IDAT", &[1, 2, 3]),
        frame(b"IDAT", &[4]),
        frame(b"IEND", &[]),
    ])
}

fn some_header() -> HeaderInfo {
    HeaderInfo::new(&header_payload(1, 1, 2)).unwrap().unwrap()
}

fn reader() -> PngReader {
    PngReader::new("picture.png").unwrap()
}

#[test]
fn reader_new_keeps_the_path() {
    let reader = PngReader::new("some/where.png").unwrap();
    assert_eq!(reader.file_path(), "some/where.png");
}

#[test]
fn signature_check_accepts_the_magic() {
    assert!(RawPng::is_signature_valid(SIGNATURE));
}

#[test]
fn signature_check_rejects_any_changed_byte() {
    for position in 0..8 {
        let mut signature = SIGNATURE;
        signature[position] ^= 0x01;
        assert!(!RawPng::is_signature_valid(signature));
    }
}

#[test]
fn chunk_sequence_needs_image_data_and_end() {
    let idat = || Chunk::new(0, ChunkType::IDAT, vec![], 0);
    let iend = || Chunk::new(0, ChunkType::IEND, vec![], 0);
    let ihdr = || Chunk::new(0, ChunkType::IHDR, vec![], 0);
    let other = || Chunk::new(0, ChunkType::Unknown, vec![], 0);
    assert!(RawPng::verify_chunk_sequence(&vec![idat(), iend()]));
    assert!(RawPng::verify_chunk_sequence(&vec![iend(), other(), idat()]));
    assert!(RawPng::verify_chunk_sequence(&vec![idat(), idat(), iend(), iend()]));
    assert!(!RawPng::verify_chunk_sequence(&vec![]));
    assert!(!RawPng::verify_chunk_sequence(&vec![idat()]));
    assert!(!RawPng::verify_chunk_sequence(&vec![iend()]));
    assert!(!RawPng::verify_chunk_sequence(&vec![ihdr(), other()]));
    assert!(!RawPng::verify_chunk_sequence(&vec![ihdr(), idat(), other()]));
}

#[test]
fn raw_png_new_accepts_a_complete_list() {
    let chunks = vec![
        Chunk::new(1, ChunkType::IDAT, vec![7], 1),
        Chunk::new(0, ChunkType::IEND, vec![], 2),
    ];
    let png = RawPng::new(SIGNATURE, some_header(), chunks.clone()).unwrap();
    assert_eq!(png.signature, SIGNATURE);
    assert_eq!(png.header, some_header());
    assert_eq!(png.chunks, chunks);
}

#[test]
fn raw_png_new_rejects_wrong_signature() {
    let chunks = vec![
        Chunk::new(1, ChunkType::IDAT, vec![7], 1),
        Chunk::new(0, ChunkType::IEND, vec![], 2),
    ];
    let mut signature = SIGNATURE;
    signature[0] = 0;
    let result = RawPng::new(signature, some_header(), chunks);
    assert!(matches!(result, Err(PngError::InvalidSignature)));
}

#[test]
fn raw_png_new_checks_signature_before_chunks() {
    let result = RawPng::new([0; 8], some_header(), vec![]);
    assert!(matches!(result, Err(PngError::InvalidSignature)));
}

#[test]
fn raw_png_new_rejects_list_without_image_data() {
    let chunks = vec![Chunk::new(0, ChunkType::IEND, vec![], 2)];
    let result = RawPng::new(SIGNATURE, some_header(), chunks);
    assert!(matches!(result, Err(PngError::InvalidChunkSequence)));
}

#[test]
fn raw_png_new_rejects_list_without_end() {
    let chunks = vec![Chunk::new(1, ChunkType::IDAT, vec![7], 1)];
    let result = RawPng::new(SIGNATURE, some_header(), chunks);
    assert!(matches!(result, Err(PngError::InvalidChunkSequence)));
}

#[test]
fn raw_png_to_string() {
    let chunks = vec![
        Chunk::new(1, ChunkType::IDAT, vec![7], 1),
        Chunk::new(0, ChunkType::IEND, vec![], 2),
    ];
    let png = RawPng::new(SIGNATURE, some_header(), chunks).unwrap();
    assert_eq!(
        png.to_string(),
        "Raw PNG Information:\nSignature: [137, 80, 78, 71, 13, 10, 26, 10]\nHeader: \n\tWidth: 1\n\tHeight: 1\n\tBit depth: 8\n\tColor type: R,G,B triple\n\tCompression method: Deflate/inflate\n\tFilter method: None\n\tInterlace method: None\nNumber of Chunks: 2"
    );
}

#[test]
fn validate_signature_accepts_a_stream_with_the_magic() {
    assert!(reader().validate_png_signature(&plain_stream()).is_ok());
    assert!(reader().validate_png_signature(&SIGNATURE).is_ok());
}

#[test]
fn validate_signature_rejects_other_streams() {
    let r = reader();
    assert!(matches!(r.validate_png_signature(&[]), Err(PngError::InvalidSignature)));
    assert!(matches!(
        r.validate_png_signature(&SIGNATURE[..7]),
        Err(PngError::InvalidSignature)
    ));
    let mut changed = plain_stream();
    changed[3] = b'g';
    assert!(matches!(r.validate_png_signature(&changed), Err(PngError::InvalidSignature)));
}

#[test]
fn parse_chunk_frames_one_record() {
    let mut buffer = vec![0xAA, 0xBB];
    buffer.extend_from_slice(&frame(b"IDAT", &[1, 2, 3]));
    buffer.extend_from_slice(&[0xCC]);
    let (chunk, next) = PngReader::parse_chunk(&buffer, 2).unwrap();
    assert_eq!(chunk.length, 3);
    assert_eq!(chunk.chunk_type, ChunkType::IDAT);
    assert_eq!(chunk.data, vec![1, 2, 3]);
    assert_eq!(chunk.crc, crc32(b"IDAT", &[1, 2, 3]));
    assert_eq!(next, 2 + 4 + 4 + 3 + 4);
    assert!(chunk.is_valid());
}

#[test]
fn parse_chunk_keeps_a_wrong_checksum() {
    let mut buffer = frame(b"IEND", &[]);
    let last = buffer.len() - 1;
    buffer[last] ^= 0xFF;
    let (chunk, next) = PngReader::parse_chunk(&buffer, 0).unwrap();
    assert_eq!(next, 12);
    assert_eq!(chunk.chunk_type, ChunkType::IEND);
    assert!(!chunk.verify_crc());
}

#[test]
fn parse_chunk_rejects_a_record_cut_short() {
    let whole = frame(b"IDAT", &[1, 2, 3]);
    for length in 0..whole.len() {
        let result = PngReader::parse_chunk(&whole[..length], 0);
        match result {
            Err(PngError::ParseError(message)) => assert_eq!(message, "Truncated chunk"),
            _ => panic!("a record of {} bytes was framed", length),
        }
    }
}

#[test]
fn parse_chunk_rejects_an_offset_past_the_end() {
    let whole = frame(b"IEND", &[]);
    assert!(matches!(PngReader::parse_chunk(&whole, 1), Err(PngError::ParseError(_))));
    assert!(matches!(PngReader::parse_chunk(&whole, 12), Err(PngError::ParseError(_))));
    assert!(matches!(PngReader::parse_chunk(&whole, 13), Err(PngError::ParseError(_))));
    assert!(matches!(
        PngReader::parse_chunk(&whole, usize::MAX),
        Err(PngError::ParseError(_))
    ));
}

#[test]
fn parse_chunk_rejects_a_length_beyond_the_buffer() {
    let mut buffer = vec![0xFF, 0xFF, 0xFF, 0xFF];
    buffer.extend_from_slice(b"IDAT");
    buffer.extend_from_slice(&[0; 16]);
    assert!(matches!(PngReader::parse_chunk(&buffer, 0), Err(PngError::ParseError(_))));
}

#[test]
fn read_png_gives_header_and_later_chunks() {
    let png = reader().read_png(&plain_stream()).unwrap();
    assert_eq!(png.signature, SIGNATURE);
    assert_eq!(png.header.width, 2);
    assert_eq!(png.header.height, 3);
    assert_eq!(png.header.color_type, 6);
    assert_eq!(png.chunks.len(), 4);
    assert_eq!(png.chunks[0].type_code, *b"tEXt");
    assert_eq!(png.chunks[0].chunk_type, ChunkType::Unknown);
    assert_eq!(png.chunks[0].data, b"hello".to_vec());
    assert_eq!(png.chunks[1].type_code, *b"IDAT");
    assert_eq!(png.chunks[1].chunk_type, ChunkType::IDAT);
    assert_eq!(png.chunks[1].data, vec![1, 2, 3]);
    assert_eq!(png.chunks[2].chunk_type, ChunkType::IDAT);
    assert_eq!(png.chunks[2].data, vec![4]);
    assert_eq!(png.chunks[3].type_code, *b"IEND");
    assert_eq!(png.chunks[3].chunk_type, ChunkType::IEND);
    assert_eq!(png.chunks[3].length, 0);
    assert!(png.chunks[1].is_valid());
    assert!(png.chunks[0].verify_crc());
    assert!(!png.chunks[0].is_critical());
    assert!(png.chunks[0].is_public());
    assert!(!png.chunks[0].is_valid());
}

#[test]
fn read_png_keeps_the_tag_of_every_chunk() {
    let bytes = stream(&[
        frame(b"IHDR", &header_payload(1, 1, 3)),
        frame(b"PLTE", &[255, 0, 0, 0, 255, 0]),
        frame(b"IDAT", &[1]),
        frame(b"IEND", &[]),
    ]);
    let png = reader().read_png(&bytes).unwrap();
    let palette = &png.chunks[0];
    assert_eq!(palette.type_code, *b"PLTE");
    assert_eq!(palette.chunk_type, ChunkType::Unknown);
    assert_eq!(palette.length, 6);
    assert_eq!(palette.crc, crc32(b"PLTE", &[255, 0, 0, 0, 255, 0]));
    assert!(palette.verify_crc());
    assert!(palette.is_critical());
    assert!(palette.is_public());
    assert!(palette.is_reserved_bit_valid());
    assert!(palette.is_valid());
}

#[test]
fn read_png_rejects_streams_without_the_magic() {
    let mut r = reader();
    assert!(matches!(r.read_png(&[]), Err(PngError::InvalidSignature)));
    assert!(matches!(r.read_png(&[137, 80, 78]), Err(PngError::InvalidSignature)));
    for position in 0..8 {
        let mut changed = plain_stream();
        changed[position] = changed[position].wrapping_add(1);
        assert!(matches!(r.read_png(&changed), Err(PngError::InvalidSignature)));
    }
    let garbage = vec![0u8; 64];
    assert!(matches!(r.read_png(&garbage), Err(PngError::InvalidSignature)));
}

#[test]
fn read_png_rejects_a_stream_without_image_data() {
    let bytes = stream(&[frame(b"IHDR", &header_payload(1, 1, 2)), frame(b"IEND", &[])]);
    assert!(matches!(reader().read_png(&bytes), Err(PngError::InvalidChunkSequence)));
}

#[test]
fn read_png_rejects_a_stream_without_end() {
    let bytes = stream(&[frame(b"IHDR", &header_payload(1, 1, 2)), frame(b"IDAT", &[1])]);
    assert!(matches!(reader().read_png(&bytes), Err(PngError::InvalidChunkSequence)));
}

#[test]
fn read_png_rejects_a_stream_of_header_only() {
    let bytes = stream(&[frame(b"IHDR", &header_payload(1, 1, 2))]);
    assert!(matches!(reader().read_png(&bytes), Err(PngError::InvalidChunkSequence)));
}

#[test]
fn read_png_rejects_a_short_header_payload() {
    let bytes = stream(&[
        frame(b"IHDR", &[0, 0, 0, 1, 0, 0, 0, 1, 8, 2, 0, 0]),
        frame(b"IDAT", &[1]),
        frame(b"IEND", &[]),
    ]);
    assert!(matches!(reader().read_png(&bytes), Err(PngError::InvalidData)));
}

#[test]
fn read_png_rejects_a_signature_alone() {
    match reader().read_png(&SIGNATURE) {
        Err(PngError::ParseError(message)) => assert_eq!(message, "Truncated chunk"),
        _ => panic!("a stream without a header was read"),
    }
}

#[test]
fn read_png_rejects_a_last_chunk_cut_short() {
    let whole = plain_stream();
    let bytes = &whole[..whole.len() - 1];
    match reader().read_png(bytes) {
        Err(PngError::ParseError(message)) => assert_eq!(message, "Truncated chunk"),
        _ => panic!("a stream cut short was read"),
    }
}

#[test]
fn read_png_takes_the_first_chunk_for_the_header() {
    let bytes = stream(&[
        frame(b"tEXt", &header_payload(5, 6, 0)),
        frame(b"IDAT", &[1]),
        frame(b"IEND", &[]),
    ]);
    let png = reader().read_png(&bytes).unwrap();
    assert_eq!(png.header.width, 5);
    assert_eq!(png.header.height, 6);
    assert_eq!(png.chunks.len(), 2);
}

#[test]
fn read_png_keeps_chunks_with_wrong_checksums() {
    let mut idat = frame(b"IDAT", &[1, 2]);
    idat[9] = 77;
    let bytes = stream(&[frame(b"IHDR", &header_payload(1, 1, 2)), idat, frame(b"IEND", &[])]);
    let png = reader().read_png(&bytes).unwrap();
    assert_eq!(png.chunks.len(), 2);
    assert_eq!(png.chunks[0].data, vec![1, 77]);
    assert!(!png.chunks[0].verify_crc());
    assert!(!png.chunks[0].is_valid());
    assert!(png.chunks[1].is_valid());
}

#[test]
fn png_chunk_from_buffer_reports_the_header_before_the_signature() {
    let mut bytes = stream(&[
        frame(b"IHDR", &[1, 2, 3]),
        frame(b"IDAT", &[1]),
        frame(b"IEND", &[]),
    ]);
    bytes[0] = 0;
    assert!(matches!(reader().png_chunk_from_buffer(&bytes), Err(PngError::InvalidData)));
}

#[test]
fn png_chunk_from_buffer_checks_the_signature() {
    let mut bytes = plain_stream();
    bytes[7] = 11;
    assert!(matches!(
        reader().png_chunk_from_buffer(&bytes),
        Err(PngError::InvalidSignature)
    ));
    assert!(matches!(
        reader().png_chunk_from_buffer(&[1, 2, 3]),
        Err(PngError::InvalidSignature)
    ));
}

#[test]
fn png_chunk_from_buffer_agrees_with_read_png() {
    let bytes = plain_stream();
    let a = reader().png_chunk_from_buffer(&bytes).unwrap();
    let b = reader().read_png(&bytes).unwrap();
    assert_eq!(a.signature, b.signature);
    assert_eq!(a.header, b.header);
    assert_eq!(a.chunks, b.chunks);
}
