use std::io::Write;

use png_ascii::chunk::{crc32, Chunk, ChunkType};
use png_ascii::error::PngError;
use png_ascii::header::HeaderInfo;
use png_ascii::image_type::{Brightness, VisualData, PNG};
use png_ascii::png::PngReader;
use png_ascii::raw_data::RawPng;

const SIGNATURE: [u8; 8] = [137, 80, 78, 71, 13, 10, 26, 10];

fn deflate(data: &[u8]) -> Vec<u8> {
    let mut encoder = flate2::write::ZlibEncoder::new(Vec::new(), flate2::Compression::default());
    encoder.write_all(data).unwrap();
    encoder.finish().unwrap()
}

fn frame(tag: &[u8; 4], data: &[u8]) -> Vec<u8> {
    let mut out = Vec::new();
    out.extend_from_slice(&(data.len() as u32).to_be_bytes());
    out.extend_from_slice(tag);
    out.extend_from_slice(data);
    out.extend_from_slice(&crc32(tag, data).to_be_bytes());
    out
}

fn header_payload(width: u32, height: u32, color_type: u8) -> Vec<u8> {
    let mut out = Vec::new();
    out.extend_from_slice(&width.to_be_bytes());
    out.extend_from_slice(&height.to_be_bytes());
    out.extend_from_slice(&[8, color_type, 0, 0, 0]);
    out
}

fn header(width: u32, height: u32, color_type: u8) -> HeaderInfo {
    HeaderInfo::new(&header_payload(width, height, color_type)).unwrap().unwrap()
}

fn image_chunk(data: &[u8]) -> Chunk {
    Chunk::new(data.len() as u32, ChunkType::IDAT, data.to_vec(), crc32(b"IDAT", data))
}

fn end_chunk() -> Chunk {
    Chunk::new(0, ChunkType::IEND, vec![], crc32(b"IEND", &[]))
}

fn reader() -> PngReader {
    PngReader::new("picture.png").unwrap()
}

fn rgba_of(result: Result<Option<VisualData>, PngError>) -> PNG {
    match result {
        Ok(Some(VisualData::RGBA(png))) => png,
        other => panic!("not an image of bytes: {:?}", other),
    }
}

fn brightness_of(result: Result<Option<VisualData>, PngError>) -> Brightness {
    match result {
        Ok(Some(VisualData::Brightness(brightness))) => brightness,
        other => panic!("not a brightness buffer: {:?}", other),
    }
}

#[test]
fn decompress_inverts_compression() {
    let plain: Vec<u8> = (0..2000u32).map(|i| (i * 7 % 251) as u8).collect();
    let packed = deflate(&plain);
    assert_ne!(packed, plain);
    assert_eq!(PngReader::decompress_data(&packed).unwrap(), plain);
}

#[test]
fn decompress_of_an_empty_stream() {
    assert_eq!(PngReader::decompress_data(&deflate(&[])).unwrap(), Vec::<u8>::new());
}

#[test]
fn decompress_rejects_garbage() {
    let result = PngReader::decompress_data(&[1, 2, 3, 4, 5, 6, 7, 8]);
    match result {
        Err(PngError::ParseError(message)) => assert!(!message.is_empty()),
        other => panic!("garbage was inflated: {:?}", other),
    }
}

#[test]
fn decompress_rejects_a_stream_cut_short() {
    let packed = deflate(&[9; 500]);
    let result = PngReader::decompress_data(&packed[..packed.len() / 2]);
    assert!(matches!(result, Err(PngError::ParseError(_))));
    let result = PngReader::decompress_data(&[]);
    assert!(matches!(result, Err(PngError::ParseError(_))));
}

#[test]
fn image_data_joins_usable_image_chunks_in_order() {
    let mut damaged = image_chunk(&[7, 7]);
    damaged.data[0] = 8;
    let chunks = vec![
        image_chunk(&[1, 2]),
        Chunk::with_type_code(2, *b"PLTE", vec![3, 4], crc32(b"PLTE", &[3, 4])),
        damaged,
        image_chunk(&[]),
        image_chunk(&[5]),
        end_chunk(),
        image_chunk(&[6]),
    ];
    let png = RawPng::new(SIGNATURE, header(1, 1, 2), chunks).unwrap();
    assert_eq!(PngReader::image_data(&png), vec![1, 2, 5, 6]);
}

#[test]
fn end_to_end_single_red_pixel() {
    let bytes = [
        SIGNATURE.to_vec(),
        frame(b"IHDR", &header_payload(1, 1, 2)),
        frame(b"IDAT", &deflate(&[0, 255, 0, 0])),
        frame(b"IEND", &[]),
    ]
    .concat();
    let mut reader = reader();
    let png = reader.read_png(&bytes).unwrap();
    assert_eq!(png.header.width, 1);
    assert_eq!(png.header.height, 1);
    assert_eq!(png.header.color_type, 2);
    assert_eq!(png.header.bit_depth, 8);
    assert_eq!(png.chunks.len(), 2);
    assert!(png.chunks.iter().all(|chunk| chunk.is_valid()));

    let inflated = PngReader::decompress_data(&PngReader::image_data(&png)).unwrap();
    assert_eq!(inflated, vec![0, 255, 0, 0]);
    let pixels = PngReader::unfilter_data(&inflated, &png.header).unwrap();
    assert_eq!(pixels, vec![255, 0, 0]);
    let rgba = PngReader::convert_to_visual_code(&pixels, &png.header).unwrap();
    assert_eq!(rgba, vec![255, 0, 0, 255]);
    let image = rgba_of(reader.to_rgba_data(&png));
    assert_eq!(image.shape, (1, 1));
    assert_eq!(image.data, vec![255, 0, 0, 255]);

    let brightness = brightness_of(reader.to_brightness_data(&png, 1));
    assert_eq!(brightness.shape, (1, 1));
    assert_eq!(brightness.data, vec![76_245]);
    let luma = brightness.data[0] as f64 / 1000.0;
    assert!((luma - 0.299 * 255.0).abs() < 1e-9);
    assert!((luma - 76.245).abs() < 1e-9);
}

#[test]
fn end_to_end_characters() {
    let rows = [0u8, 0, 0, 0, 255, 0, 255, 255, 255, 255];
    let bytes = [
        SIGNATURE.to_vec(),
        frame(b"IHDR", &header_payload(1, 2, 6)),
        frame(b"IDAT", &deflate(&rows)),
        frame(b"IEND", &[]),
    ]
    .concat();
    let mut reader = reader();
    let png = reader.read_png(&bytes).unwrap();
    let form = reader.to_brightness_data(&png, 1).unwrap().unwrap();
    assert_eq!(form.to_brightness(), Some(vec![0, 255_000]));
    assert_eq!(form.to_chars(), Some(vec!['.', '@']));
}

#[test]
fn image_data_may_be_split_over_chunks() {
    let packed = deflate(&[0, 7, 1, 2, 3, 0, 9, 4, 5, 6]);
    let (first, second) = packed.split_at(3);
    let chunks = vec![image_chunk(first), image_chunk(second), end_chunk()];
    let png = RawPng::new(SIGNATURE, header(1, 2, 6), chunks).unwrap();
    let brightness = brightness_of(reader().to_brightness_data(&png, 1));
    assert_eq!(brightness.shape, (1, 2));
    assert_eq!(brightness.data, vec![7 * 299 + 587 + 2 * 114, 9 * 299 + 4 * 587 + 5 * 114]);
}

#[test]
fn brightness_of_grey_rows() {
    let chunks = vec![image_chunk(&deflate(&[0, 7, 0, 9])), end_chunk()];
    let png = RawPng::new(SIGNATURE, header(1, 2, 0), chunks).unwrap();
    let brightness = brightness_of(reader().to_brightness_data(&png, 1));
    assert_eq!(brightness.shape, (1, 2));
    assert_eq!(brightness.data, vec![7_000, 9_000]);
    let image = rgba_of(reader().to_rgba_data(&png));
    assert_eq!(image.shape, (1, 2));
    assert_eq!(image.data, vec![7, 7, 7, 255, 9, 9, 9, 255]);
}

#[test]
fn brightness_with_step_one_has_one_value_for_each_pixel() {
    let cases: [(u8, Vec<u8>, Vec<u32>); 5] = [
        (0, vec![0, 1, 2, 0, 3, 4], vec![1_000, 2_000, 3_000, 4_000]),
        (3, vec![0, 1, 0, 0, 0, 1], vec![1_000, 0, 0, 1_000]),
        (4, vec![0, 1, 9, 2, 9, 0, 3, 9, 4, 9], vec![1_000, 2_000, 3_000, 4_000]),
        (
            2,
            vec![0, 255, 0, 0, 0, 255, 0, 0, 0, 0, 255, 100, 100, 100],
            vec![76_245, 149_685, 29_070, 100_000],
        ),
        (
            6,
            vec![0, 255, 0, 0, 1, 0, 255, 0, 2, 0, 0, 0, 255, 3, 100, 100, 100, 4],
            vec![76_245, 149_685, 29_070, 100_000],
        ),
    ];
    for (color_type, inflated, expected) in cases {
        let form = PngReader::brightness_of_inflated(&inflated, &header(2, 2, color_type), 1);
        let brightness = brightness_of(form);
        assert_eq!(brightness.shape, (2, 2));
        assert_eq!(brightness.data, expected);
    }
}

#[test]
fn brightness_of_indexed_colour_is_the_index() {
    let form = PngReader::brightness_of_inflated(&[0, 200], &header(1, 1, 3), 1);
    assert_eq!(brightness_of(form).data, vec![200_000]);
}

#[test]
fn brightness_of_uniform_true_colour_image() {
    let mut inflated = Vec::new();
    for _ in 0..3 {
        inflated.push(0);
        inflated.extend_from_slice(&[100; 12]);
    }
    let form = PngReader::brightness_of_inflated(&inflated, &header(4, 3, 2), 1);
    let brightness = brightness_of(form);
    assert_eq!(brightness.data, vec![100_000; 12]);
    for value in brightness.data {
        assert!((value as f32 / 1000.0 - 100.0).abs() < 1e-3);
    }
}

#[test]
fn brightness_with_step_two_takes_every_second_pixel() {
    let mut inflated = Vec::new();
    for row in 0..4u8 {
        inflated.push(0);
        for column in 0..4u8 {
            inflated.push(row * 4 + column);
        }
    }
    let form = PngReader::brightness_of_inflated(&inflated, &header(4, 4, 0), 2);
    let brightness = brightness_of(form);
    assert_eq!(brightness.shape, (4, 4));
    assert_eq!(brightness.data, vec![0, 2_000, 8_000, 10_000]);
}

#[test]
fn rgba_of_inflated_expands_every_pixel() {
    let image = rgba_of(PngReader::rgba_of_inflated(&[0, 1, 2, 3, 0, 4, 5, 6], &header(1, 2, 2)));
    assert_eq!(image.shape, (1, 2));
    assert_eq!(image.data, vec![1, 2, 3, 255, 4, 5, 6, 255]);
    let image = rgba_of(PngReader::rgba_of_inflated(&[0, 1, 200, 0, 2, 100], &header(1, 2, 4)));
    assert_eq!(image.data, vec![1, 1, 1, 200, 2, 2, 2, 100]);
}

#[test]
fn rgba_of_inflated_reports_faults() {
    let result = PngReader::rgba_of_inflated(&[0, 1], &header(1, 1, 9));
    assert!(matches!(result, Err(PngError::InvalidColorType)));
    let result = PngReader::rgba_of_inflated(&[4, 1], &header(1, 1, 0));
    assert!(matches!(result, Err(PngError::UnimplementedFilterType)));
    let result = PngReader::rgba_of_inflated(&[0, 200], &header(1, 1, 3));
    assert!(matches!(result, Err(PngError::ParseError(_))));
    let result = PngReader::rgba_of_inflated(&[0, 1, 2], &header(2, 1, 2));
    assert!(matches!(result, Err(PngError::ParseError(_))));
}

#[test]
fn damaged_image_chunks_are_left_out() {
    let packed = deflate(&[0, 7]);
    let mut damaged = image_chunk(&packed);
    damaged.crc ^= 1;
    let chunks = vec![damaged, end_chunk()];
    let png = RawPng::new(SIGNATURE, header(1, 1, 0), chunks).unwrap();
    let result = reader().to_brightness_data(&png, 1);
    assert!(matches!(result, Err(PngError::ParseError(_))));
}

#[test]
fn pipeline_from_inflated_bytes() {
    let inflated = [0u8, 1, 2, 3, 4, 0, 5, 6, 7, 8];
    let form = PngReader::brightness_of_inflated(&inflated, &header(1, 2, 6), 1);
    let brightness = brightness_of(form);
    assert_eq!(brightness.shape, (1, 2));
    assert_eq!(brightness.data, vec![299 + 2 * 587 + 3 * 114, 5 * 299 + 6 * 587 + 7 * 114]);
}

#[test]
fn pipeline_thins_with_the_step() {
    let inflated = [0u8, 1, 2, 3, 4, 5, 6, 7, 8, 0, 9, 9, 9, 9, 9, 9, 9, 9];
    let form = PngReader::brightness_of_inflated(&inflated, &header(2, 2, 6), 2);
    let brightness = brightness_of(form);
    assert_eq!(brightness.shape, (2, 2));
    assert_eq!(brightness.data, vec![299 + 2 * 587 + 3 * 114]);
}

#[test]
fn pipeline_reports_the_fault_of_each_stage() {
    let result = PngReader::brightness_of_inflated(&[0, 1], &header(1, 1, 9), 1);
    assert!(matches!(result, Err(PngError::InvalidColorType)));
    let result = PngReader::brightness_of_inflated(&[2, 1], &header(1, 1, 0), 1);
    assert!(matches!(result, Err(PngError::UnimplementedFilterType)));
    let result = PngReader::brightness_of_inflated(&[0, 1, 2, 0, 3], &header(1, 2, 4), 1);
    assert!(matches!(result, Err(PngError::ParseError(_))));
    let result = PngReader::brightness_of_inflated(&[0, 1], &header(1, 1, 0), 0);
    assert!(matches!(result, Err(PngError::ParseError(_))));
}
