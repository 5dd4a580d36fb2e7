use png_ascii::image_type::{density_char, render, Brightness, CharImage, VisualData, PNG};

fn text(chars: &[char]) -> String {
    chars.iter().collect()
}

#[test]
fn density_ramp_symbols() {
    let ramp: Vec<char> = (0..9).map(density_char).collect();
    assert_eq!(text(&ramp), ".,:+*?%#@");
}

#[test]
fn render_maps_least_and_greatest() {
    let out = render(&vec![0, 255_000]);
    assert_eq!(out, vec!['.', '@']);
    let out = render(&vec![255_000, 0, 255_000, 0]);
    assert_eq!(out, vec!['@', '.', '@', '.']);
}

#[test]
fn render_of_a_full_ramp() {
    let values: Vec<u32> = vec![0, 100, 200, 300, 400, 500, 600, 700, 800, 900];
    assert_eq!(text(&render(&values)), ".,:+*?%#@@");
}

#[test]
fn render_bucket_edges() {
    let values: Vec<u32> = vec![0, 99, 100, 199, 200, 699, 700, 799, 800, 899, 900];
    assert_eq!(text(&render(&values)), "..,,:%##@@@");
}

#[test]
fn render_range_starts_at_one_unit_at_most() {
    let values: Vec<u32> = vec![100_000, 200_000];
    assert_eq!(text(&render(&values)), "*@");
    let values: Vec<u32> = vec![1_000, 10_000];
    assert_eq!(text(&render(&values)), ".@");
}

#[test]
fn render_range_ends_at_zero_at_least() {
    let values: Vec<u32> = vec![0, 0, 0];
    assert_eq!(text(&render(&values)), "...");
}

#[test]
fn render_of_uniform_brightness() {
    assert_eq!(text(&render(&vec![500; 4])), "....");
    assert_eq!(text(&render(&vec![1_000; 2])), "..");
    assert_eq!(text(&render(&vec![100_000; 3])), "@@@");
}

#[test]
fn render_of_nothing() {
    assert_eq!(render(&vec![]), Vec::<char>::new());
}

#[test]
fn render_of_the_largest_values() {
    assert_eq!(text(&render(&vec![u32::MAX, 0, u32::MAX / 2])), "@.*");
}

#[test]
fn bytes_come_from_the_rgba_form_only() {
    let rgba = VisualData::RGBA(PNG { shape: (1, 1), data: vec![1, 2, 3, 4] });
    let brightness = VisualData::Brightness(Brightness { shape: (1, 1), data: vec![5] });
    let chars = VisualData::Charimage(CharImage { shape: (1, 1), data: vec!['#'] });
    assert_eq!(rgba.to_bytes(), Some(vec![1, 2, 3, 4]));
    assert_eq!(brightness.to_bytes(), None);
    assert_eq!(chars.to_bytes(), None);
}

#[test]
fn brightness_comes_from_the_brightness_form_only() {
    let rgba = VisualData::RGBA(PNG { shape: (1, 1), data: vec![1, 2, 3, 4] });
    let brightness = VisualData::Brightness(Brightness { shape: (1, 1), data: vec![5, 6] });
    let chars = VisualData::Charimage(CharImage { shape: (1, 1), data: vec!['#'] });
    assert_eq!(rgba.to_brightness(), None);
    assert_eq!(brightness.to_brightness(), Some(vec![5, 6]));
    assert_eq!(chars.to_brightness(), None);
}

#[test]
fn chars_come_from_brightness_and_characters() {
    let rgba = VisualData::RGBA(PNG { shape: (1, 1), data: vec![1, 2, 3, 4] });
    let brightness = VisualData::Brightness(Brightness { shape: (2, 1), data: vec![0, 255_000] });
    let chars = VisualData::Charimage(CharImage { shape: (2, 1), data: vec!['#', '?'] });
    assert_eq!(rgba.to_chars(), None);
    assert_eq!(brightness.to_chars(), Some(vec!['.', '@']));
    assert_eq!(chars.to_chars(), Some(vec!['#', '?']));
}

#[test]
fn text_of_an_image_of_bytes() {
    let png = PNG { shape: (20, 10), data: vec![0; 12] };
    assert_eq!(png.to_string(), "PNG image with shape: (20, 10) and 12 bytes of data");
    assert_eq!(
        VisualData::RGBA(png).to_string(),
        "PNG image with shape: (20, 10) and 12 bytes of data"
    );
}

#[test]
fn text_of_a_brightness_buffer() {
    let brightness = Brightness { shape: (0, 4294967295), data: vec![1, 2, 3] };
    assert_eq!(
        brightness.to_string(),
        "Brightness data with shape: (0, 4294967295) and 3 bytes of data"
    );
    assert_eq!(
        VisualData::Brightness(brightness).to_string(),
        "Brightness data with shape: (0, 4294967295) and 3 bytes of data"
    );
}

#[test]
fn text_of_characters_breaks_rows() {
    let data: Vec<char> = "abcdef".chars().collect();
    let image = VisualData::Charimage(CharImage { shape: (2, 3), data });
    assert_eq!(image.to_string(), "abc\ndef\n");
}

#[test]
fn text_of_characters_ends_a_short_last_row() {
    let data: Vec<char> = "abcdefg".chars().collect();
    let image = VisualData::Charimage(CharImage { shape: (9, 3), data });
    assert_eq!(image.to_string(), "abc\ndef\ng\n");
    let data: Vec<char> = "ab".chars().collect();
    let image = VisualData::Charimage(CharImage { shape: (1, 5), data });
    assert_eq!(image.to_string(), "ab\n");
    let image = VisualData::Charimage(CharImage { shape: (1, 5), data: vec![] });
    assert_eq!(image.to_string(), "");
}
