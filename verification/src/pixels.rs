//! What the stages after inflation compute: scanlines without their filter
//! tags, RGBA pixels, thumbnails and brightness.

use vstd::prelude::*;
use crate::error::Failure;
use crate::header::HeaderInfo;
use crate::image_type::{VisualView, BRIGHTNESS_UNIT};

verus! {

/// The number of bytes that a pixel of a colour type takes: one for grey
/// and for indexed colour, two for grey with alpha, three for true colour,
/// four for true colour with alpha. Other colour types have none.
pub open spec fn spec_bytes_per_pixel(color_type: u8) -> Option<nat> {
    if color_type == 0 || color_type == 3 {
        Some(1)
    } else if color_type == 4 {
        Some(2)
    } else if color_type == 2 {
        Some(3)
    } else if color_type == 6 {
        Some(4)
    } else {
        None
    }
}

/// The description of a scanline that is cut short.
pub open spec fn truncated_scanline() -> Seq<char> {
    "Truncated scanline"@
}

/// The description of a pixel that is cut short.
pub open spec fn truncated_pixel() -> Seq<char> {
    "Truncated pixel"@
}

/// The description of a palette entry that lies outside the buffer.
pub open spec fn palette_out_of_range() -> Seq<char> {
    "Palette index out of range"@
}

/// The description of a step size of zero.
pub open spec fn zero_step() -> Seq<char> {
    "Step size must be positive"@
}

/// The description of a visual form that holds no bytes.
pub open spec fn not_bytes() -> Seq<char> {
    "Cannot convert to PNG"@
}

/// The rows of `data` from position `at` on, each without the filter tag
/// that leads it. A row takes one byte of tag and `row` bytes of pixels.
/// The first row that is cut short, or whose tag is not zero, is a fault.
pub open spec fn spec_unfilter_rows(data: Seq<u8>, row: nat, at: int) -> Result<
    Seq<u8>,
    Failure,
>
    decreases data.len() - at,
{
    if at < 0 || at >= data.len() {
        Ok(Seq::empty())
    } else if at + 1 + row > data.len() {
        Err(Failure::ParseError(truncated_scanline()))
    } else if data[at] != 0 {
        Err(Failure::UnimplementedFilterType)
    } else {
        match spec_unfilter_rows(data, row, at + 1 + row) {
            Ok(rest) => Ok(data.subrange(at + 1, at + 1 + row) + rest),
            Err(e) => Err(e),
        }
    }
}

/// The pixel bytes that inflated image data holds, for a header.
pub open spec fn spec_unfilter(data: Seq<u8>, header: HeaderInfo) -> Result<Seq<u8>, Failure> {
    match spec_bytes_per_pixel(header.color_type) {
        None => Err(Failure::InvalidColorType),
        Some(bpp) => spec_unfilter_rows(data, header.width as nat * bpp, 0),
    }
}

/// The four RGBA bytes of the pixel that begins at `at`. An indexed pixel
/// takes its three colour bytes from `data` itself, at three times its index.
pub open spec fn spec_rgba_at(data: Seq<u8>, color_type: u8, at: int) -> Result<
    Seq<u8>,
    Failure,
> {
    if color_type == 0 {
        Ok(seq![data[at], data[at], data[at], 255u8])
    } else if color_type == 2 {
        if at + 3 > data.len() {
            Err(Failure::ParseError(truncated_pixel()))
        } else {
            Ok(seq![data[at], data[at + 1], data[at + 2], 255u8])
        }
    } else if color_type == 3 {
        let entry = data[at] as int * 3;
        if entry + 3 > data.len() {
            Err(Failure::ParseError(palette_out_of_range()))
        } else {
            Ok(seq![data[entry], data[entry + 1], data[entry + 2], 255u8])
        }
    } else if color_type == 4 {
        if at + 2 > data.len() {
            Err(Failure::ParseError(truncated_pixel()))
        } else {
            Ok(seq![data[at], data[at], data[at], data[at + 1]])
        }
    } else if color_type == 6 {
        if at + 4 > data.len() {
            Err(Failure::ParseError(truncated_pixel()))
        } else {
            Ok(seq![data[at], data[at + 1], data[at + 2], data[at + 3]])
        }
    } else {
        Err(Failure::InvalidColorType)
    }
}

/// The RGBA bytes of the pixels of `data` from position `at` on. The first
/// pixel that cannot be expanded is a fault.
pub open spec fn spec_rgba_from(data: Seq<u8>, color_type: u8, at: int) -> Result<
    Seq<u8>,
    Failure,
>
    decreases (if at < data.len() { data.len() - at } else { 0 }),
{
    match spec_bytes_per_pixel(color_type) {
        None => Err(Failure::InvalidColorType),
        Some(bpp) => if at < 0 || at >= data.len() {
            Ok(Seq::empty())
        } else {
            match spec_rgba_at(data, color_type, at) {
                Err(e) => Err(e),
                Ok(pixel) => match spec_rgba_from(data, color_type, at + bpp) {
                    Ok(rest) => Ok(pixel + rest),
                    Err(e) => Err(e),
                },
            }
        },
    }
}

/// The `bpp` bytes of the pixel at `offset`, or nothing where the pixel
/// does not lie within `data`.
pub open spec fn spec_pixel_bytes(data: Seq<u8>, offset: int, bpp: nat) -> Seq<u8> {
    if 0 <= offset && offset + bpp <= data.len() {
        data.subrange(offset, offset + bpp)
    } else {
        Seq::empty()
    }
}

/// The first `cols` samples of row `y`: the pixels at the columns 0, `step`,
/// twice `step` and so on, of an image `width` pixels wide.
pub open spec fn spec_sample_row(
    data: Seq<u8>,
    width: nat,
    bpp: nat,
    step: nat,
    y: nat,
    cols: nat,
) -> Seq<u8>
    decreases cols,
{
    if cols == 0 {
        Seq::empty()
    } else {
        spec_sample_row(data, width, bpp, step, y, (cols - 1) as nat) + spec_pixel_bytes(
            data,
            (y * width + (cols - 1) * step) * bpp,
            bpp,
        )
    }
}

/// The first `rows` sampled rows, `cols` samples each: the rows 0, `step`,
/// twice `step` and so on.
pub open spec fn spec_sample_rows(
    data: Seq<u8>,
    width: nat,
    bpp: nat,
    step: nat,
    rows: nat,
    cols: nat,
) -> Seq<u8>
    decreases rows,
{
    if rows == 0 {
        Seq::empty()
    } else {
        spec_sample_rows(data, width, bpp, step, (rows - 1) as nat, cols) + spec_sample_row(
            data,
            width,
            bpp,
            step,
            ((rows - 1) * step) as nat,
            cols,
        )
    }
}

/// The thumbnail of a pixel buffer: every `step`-th pixel of every
/// `step`-th row, as far as whole steps fit into the width and the height.
/// The size of a pixel is that of the header's colour type.
pub open spec fn spec_reshape(data: Seq<u8>, header: HeaderInfo, step: nat) -> Result<
    VisualView,
    Failure,
> {
    match spec_bytes_per_pixel(header.color_type) {
        None => Err(Failure::InvalidColorType),
        Some(bpp) => if step == 0 {
            Err(Failure::ParseError(zero_step()))
        } else {
            Ok(
                VisualView::RGBA {
                    shape: ((header.width as nat / step) as u32, (header.height as nat / step) as u32),
                    bytes: spec_sample_rows(
                        data,
                        header.width as nat,
                        bpp,
                        step,
                        header.height as nat / step,
                        header.width as nat / step,
                    ),
                },
            )
        },
    }
}

/// The brightness of a colour, in thousandths: 0.299 of red, 0.587 of
/// green and 0.114 of blue.
pub open spec fn luma(r: u8, g: u8, b: u8) -> int {
    299 * r + 587 * g + 114 * b
}

/// The brightness of the pixel that begins at `at`, in thousandths: the
/// grey level or the palette index as it stands, or the luma of a colour.
/// Alpha is not looked at.
pub open spec fn spec_brightness_at(data: Seq<u8>, color_type: u8, at: int) -> Result<
    u32,
    Failure,
> {
    if color_type == 0 || color_type == 3 || color_type == 4 {
        Ok((BRIGHTNESS_UNIT * data[at]) as u32)
    } else if color_type == 2 || color_type == 6 {
        if at + 3 > data.len() {
            Err(Failure::ParseError(truncated_pixel()))
        } else {
            Ok(luma(data[at], data[at + 1], data[at + 2]) as u32)
        }
    } else {
        Err(Failure::InvalidColorType)
    }
}

/// The brightness of the pixels of `data` from position `at` on.
pub open spec fn spec_brightness_from(data: Seq<u8>, color_type: u8, at: int) -> Result<
    Seq<u32>,
    Failure,
>
    decreases (if at < data.len() { data.len() - at } else { 0 }),
{
    match spec_bytes_per_pixel(color_type) {
        None => Err(Failure::InvalidColorType),
        Some(bpp) => if at < 0 || at >= data.len() {
            Ok(Seq::empty())
        } else {
            match spec_brightness_at(data, color_type, at) {
                Err(e) => Err(e),
                Ok(value) => match spec_brightness_from(data, color_type, at + bpp) {
                    Ok(rest) => Ok(seq![value] + rest),
                    Err(e) => Err(e),
                },
            }
        },
    }
}

/// The brightness form of a visual form that holds bytes. The shape is
/// that of the header, whatever the shape of the bytes was.
pub open spec fn spec_brightness(form: VisualView, header: HeaderInfo) -> Result<
    VisualView,
    Failure,
> {
    match spec_bytes_per_pixel(header.color_type) {
        None => Err(Failure::InvalidColorType),
        Some(_) => match form.bytes() {
            None => Err(Failure::ParseError(not_bytes())),
            Some(bytes) => match spec_brightness_from(bytes, header.color_type, 0) {
                Err(e) => Err(e),
                Ok(values) => Ok(
                    VisualView::Brightness { shape: (header.width, header.height), values },
                ),
            },
        },
    }
}

/// The RGBA form of inflated image data: the scanlines without their
/// filter tags, expanded to four bytes a pixel, with the shape of the header.
pub open spec fn spec_rgba_of_inflated(inflated: Seq<u8>, header: HeaderInfo) -> Result<
    VisualView,
    Failure,
> {
    match spec_unfilter(inflated, header) {
        Err(e) => Err(e),
        Ok(pixels) => match spec_rgba_from(pixels, header.color_type, 0) {
            Err(e) => Err(e),
            Ok(rgba) => Ok(VisualView::RGBA { shape: (header.width, header.height), bytes: rgba }),
        },
    }
}

/// The brightness form of inflated image data: the scanlines without their
/// filter tags, thinned to a thumbnail and reduced to brightness. The
/// thumbnail and the brightness are taken from the reconstructed pixels,
/// whose size is that of the header's colour type, so that each stage
/// reads whole pixels of the stage before it.
pub open spec fn spec_brightness_of_inflated(
    inflated: Seq<u8>,
    header: HeaderInfo,
    step: nat,
) -> Result<VisualView, Failure> {
    match spec_unfilter(inflated, header) {
        Err(e) => Err(e),
        Ok(pixels) => match spec_reshape(pixels, header, step) {
            Err(e) => Err(e),
            Ok(thumbnail) => spec_brightness(thumbnail, header),
        },
    }
}

/// With a step of one, the first `cols` samples of a row that lies within
/// `data` are the bytes of its first `cols` pixels.
proof fn lemma_sample_row_whole(data: Seq<u8>, width: nat, bpp: nat, y: nat, cols: nat)
    requires
        cols <= width,
        (y * width + cols) * bpp <= data.len(),
    ensures
        spec_sample_row(data, width, bpp, 1, y, cols) == data.subrange(
            (y * width * bpp) as int,
            ((y * width + cols) * bpp) as int,
        ),
    decreases cols,
{
    let base = y * width;
    assert(base * bpp <= (base + cols) * bpp) by (nonlinear_arith);
    if cols == 0 {
        assert(data.subrange((base * bpp) as int, ((base + cols) * bpp) as int) =~= Seq::<
            u8,
        >::empty());
    } else {
        let c = (cols - 1) as nat;
        assert((base + c) * bpp + bpp == (base + cols) * bpp) by (nonlinear_arith)
            requires
                c + 1 == cols,
        ;
        assert(base * bpp <= (base + c) * bpp) by (nonlinear_arith);
        lemma_sample_row_whole(data, width, bpp, y, c);
        assert(c * 1 == c);
        let offset = (base + c * 1) * bpp;
        assert(spec_pixel_bytes(data, offset as int, bpp) == data.subrange(
            offset as int,
            (offset + bpp) as int,
        ));
        assert(data.subrange((base * bpp) as int, offset as int) + data.subrange(
            offset as int,
            (offset + bpp) as int,
        ) =~= data.subrange((base * bpp) as int, ((base + cols) * bpp) as int));
    }
}

/// With a step of one, the first `rows` sampled rows of full width are the
/// bytes of the first `rows` rows.
proof fn lemma_sample_rows_whole(data: Seq<u8>, width: nat, bpp: nat, rows: nat)
    requires
        rows * width * bpp <= data.len(),
    ensures
        spec_sample_rows(data, width, bpp, 1, rows, width) == data.subrange(
            0,
            (rows * width * bpp) as int,
        ),
    decreases rows,
{
    if rows == 0 {
        assert(rows * width * bpp == 0) by (nonlinear_arith)
            requires
                rows == 0,
        ;
        assert(data.subrange(0, 0) =~= Seq::<u8>::empty());
    } else {
        let r = (rows - 1) as nat;
        assert(r * width + width == rows * width) by (nonlinear_arith)
            requires
                r + 1 == rows,
        ;
        assert(r * width * bpp <= rows * width * bpp) by (nonlinear_arith)
            requires
                r * width <= rows * width,
        ;
        lemma_sample_rows_whole(data, width, bpp, r);
        assert(r * 1 == r);
        lemma_sample_row_whole(data, width, bpp, r, width);
        assert(data.subrange(0, (r * width * bpp) as int) + data.subrange(
            (r * width * bpp) as int,
            ((r * width + width) * bpp) as int,
        ) =~= data.subrange(0, (rows * width * bpp) as int));
    }
}

/// A thumbnail taken with a step of one is the image itself: where the
/// buffer holds exactly the pixels of the header's width and height, the
/// bytes come back unchanged and the shape is that of the header.
pub proof fn lemma_reshape_identity(data: Seq<u8>, header: HeaderInfo)
    requires
        spec_bytes_per_pixel(header.color_type) is Some,
        data.len() == header.height * header.width * spec_bytes_per_pixel(
            header.color_type,
        )->Some_0,
    ensures
        spec_reshape(data, header, 1) == Ok::<VisualView, Failure>(
            VisualView::RGBA { shape: (header.width, header.height), bytes: data },
        ),
{
    let bpp = spec_bytes_per_pixel(header.color_type)->Some_0;
    lemma_sample_rows_whole(data, header.width as nat, bpp, header.height as nat);
    assert(data.subrange(0, data.len() as int) =~= data);
}

/// A colour whose three channels are equal is as bright as each of them.
pub proof fn lemma_luma_of_grey(c: u8)
    ensures
        luma(c, c, c) == BRIGHTNESS_UNIT * c,
{
}

/// A true-colour buffer of whole pixels in which every byte is `c` has the
/// brightness `c` at every pixel.
pub proof fn lemma_uniform_truecolor_brightness(data: Seq<u8>, c: u8, at: int)
    requires
        0 <= at <= data.len(),
        (data.len() - at) % 3 == 0,
        forall|i: int| 0 <= i < data.len() ==> data[i] == c,
    ensures
        spec_brightness_from(data, 2, at) == Ok::<Seq<u32>, Failure>(
            Seq::new(((data.len() - at) / 3) as nat, |k: int| (BRIGHTNESS_UNIT * c) as u32),
        ),
    decreases data.len() - at,
{
    let n = ((data.len() - at) / 3) as nat;
    let all = Seq::new(n, |k: int| (BRIGHTNESS_UNIT * c) as u32);
    if at >= data.len() {
        assert(all =~= Seq::<u32>::empty());
    } else {
        lemma_uniform_truecolor_brightness(data, c, at + 3);
        let rest = Seq::new(((data.len() - at - 3) / 3) as nat, |k: int| (BRIGHTNESS_UNIT * c) as u32);
        assert(seq![(BRIGHTNESS_UNIT * c) as u32] + rest =~= all);
    }
}

/// An expanded pixel has four bytes.
pub proof fn lemma_rgba_at_len(data: Seq<u8>, color_type: u8, at: int)
    ensures
        spec_rgba_at(data, color_type, at) is Ok ==> spec_rgba_at(data, color_type, at)->Ok_0.len()
            == 4,
{
}

/// Where a buffer holds `n` whole pixels and each can be expanded, the
/// expansion from pixel `m` on succeeds and holds, for each pixel, its four
/// RGBA bytes in order.
pub proof fn lemma_rgba_from_pixels(data: Seq<u8>, color_type: u8, m: int, n: int)
    requires
        0 <= m,
        spec_bytes_per_pixel(color_type) is Some,
        data.len() == n * spec_bytes_per_pixel(color_type)->Some_0,
        m <= n,
        forall|k: int|
            m <= k < n ==> (#[trigger] spec_rgba_at(
                data,
                color_type,
                k * spec_bytes_per_pixel(color_type)->Some_0,
            )) is Ok,
    ensures
        spec_rgba_from(data, color_type, m * spec_bytes_per_pixel(color_type)->Some_0) is Ok,
        spec_rgba_from(data, color_type, m * spec_bytes_per_pixel(color_type)->Some_0)->Ok_0.len()
            == 4 * (n - m),
        forall|k: int|
            0 <= k < n - m ==> (#[trigger] spec_rgba_from(
                data,
                color_type,
                m * spec_bytes_per_pixel(color_type)->Some_0,
            )->Ok_0.subrange(4 * k, 4 * k + 4)) == spec_rgba_at(
                data,
                color_type,
                (m + k) * spec_bytes_per_pixel(color_type)->Some_0,
            )->Ok_0,
    decreases n - m,
{
    let bpp = spec_bytes_per_pixel(color_type)->Some_0;
    let at: int = m * bpp;
    if m == n {
    } else {
        assert(at + bpp == (m + 1) * bpp) by (nonlinear_arith)
            requires
                at == m * bpp,
        ;
        assert((m + 1) * bpp <= n * bpp) by (nonlinear_arith)
            requires
                m + 1 <= n,
        ;
        assert(spec_rgba_at(data, color_type, m * bpp) is Ok);
        lemma_rgba_at_len(data, color_type, at);
        lemma_rgba_from_pixels(data, color_type, m + 1, n);
        let pixel = spec_rgba_at(data, color_type, at)->Ok_0;
        let rest = spec_rgba_from(data, color_type, (m + 1) * bpp)->Ok_0;
        let all = spec_rgba_from(data, color_type, at)->Ok_0;
        assert(all == pixel + rest);
        assert forall|k: int| 0 <= k < n - m implies (#[trigger] all.subrange(4 * k, 4 * k + 4))
            == spec_rgba_at(data, color_type, (m + k) * bpp)->Ok_0 by {
            if k == 0 {
                assert(all.subrange(0, 4) =~= pixel);
            } else {
                assert(all.subrange(4 * k, 4 * k + 4) =~= rest.subrange(
                    4 * (k - 1),
                    4 * (k - 1) + 4,
                ));
                assert((m + 1 + (k - 1)) * bpp == (m + k) * bpp);
            }
        }
    }
}

/// Where a buffer holds `n` whole pixels and the brightness of each can be
/// taken, the brightness from pixel `m` on is one value for each pixel.
pub proof fn lemma_brightness_from_pixels(data: Seq<u8>, color_type: u8, m: int, n: int)
    requires
        0 <= m,
        spec_bytes_per_pixel(color_type) is Some,
        data.len() == n * spec_bytes_per_pixel(color_type)->Some_0,
        m <= n,
        forall|k: int|
            m <= k < n ==> (#[trigger] spec_brightness_at(
                data,
                color_type,
                k * spec_bytes_per_pixel(color_type)->Some_0,
            )) is Ok,
    ensures
        spec_brightness_from(data, color_type, m * spec_bytes_per_pixel(color_type)->Some_0) is Ok,
        spec_brightness_from(
            data,
            color_type,
            m * spec_bytes_per_pixel(color_type)->Some_0,
        )->Ok_0.len() == n - m,
        forall|k: int|
            0 <= k < n - m ==> (#[trigger] spec_brightness_from(
                data,
                color_type,
                m * spec_bytes_per_pixel(color_type)->Some_0,
            )->Ok_0[k]) == spec_brightness_at(
                data,
                color_type,
                (m + k) * spec_bytes_per_pixel(color_type)->Some_0,
            )->Ok_0,
    decreases n - m,
{
    let bpp = spec_bytes_per_pixel(color_type)->Some_0;
    let at: int = m * bpp;
    if m == n {
    } else {
        assert(at + bpp == (m + 1) * bpp) by (nonlinear_arith)
            requires
                at == m * bpp,
        ;
        assert((m + 1) * bpp <= n * bpp) by (nonlinear_arith)
            requires
                m + 1 <= n,
        ;
        assert(spec_brightness_at(data, color_type, m * bpp) is Ok);
        lemma_brightness_from_pixels(data, color_type, m + 1, n);
        let value = spec_brightness_at(data, color_type, at)->Ok_0;
        let rest = spec_brightness_from(data, color_type, (m + 1) * bpp)->Ok_0;
        let all = spec_brightness_from(data, color_type, at)->Ok_0;
        assert(all == seq![value] + rest);
        assert forall|k: int| 0 <= k < n - m implies (#[trigger] all[k]) == spec_brightness_at(
            data,
            color_type,
            (m + k) * bpp,
        )->Ok_0 by {
            if k > 0 {
                assert(all[k] == rest[k - 1]);
                assert((m + 1 + (k - 1)) * bpp == (m + k) * bpp);
            }
        }
    }
}

/// Where inflated data is `n` whole rows and every filter tag is zero,
/// the reconstruction from row `m` on holds the pixel bytes of each row
/// in order.
pub proof fn lemma_unfilter_rows(data: Seq<u8>, row: nat, m: int, n: int)
    requires
        0 <= m,
        data.len() == n * (row + 1),
        m <= n,
        forall|k: int| m <= k < n ==> #[trigger] data[k * (row + 1)] == 0,
    ensures
        spec_unfilter_rows(data, row, m * (row + 1)) is Ok,
        spec_unfilter_rows(data, row, m * (row + 1))->Ok_0.len() == (n - m) * row,
        forall|k: int|
            0 <= k < n - m ==> (#[trigger] spec_unfilter_rows(
                data,
                row,
                m * (row + 1),
            )->Ok_0.subrange(k * row, k * row + row)) == data.subrange(
                (m + k) * (row + 1) + 1,
                (m + k) * (row + 1) + 1 + row,
            ),
    decreases n - m,
{
    let at: int = m * (row + 1);
    if m == n {
        assert((n - m) * row == 0) by (nonlinear_arith)
            requires
                n == m,
        ;
    } else {
        assert(at + 1 + row == (m + 1) * (row + 1)) by (nonlinear_arith)
            requires
                at == m * (row + 1),
        ;
        assert((m + 1) * (row + 1) <= n * (row + 1)) by (nonlinear_arith)
            requires
                m + 1 <= n,
        ;
        assert(data[m * (row + 1)] == 0);
        lemma_unfilter_rows(data, row, m + 1, n);
        let line = data.subrange(at + 1, at + 1 + row);
        let rest = spec_unfilter_rows(data, row, (m + 1) * (row + 1))->Ok_0;
        let all = spec_unfilter_rows(data, row, at)->Ok_0;
        assert(all == line + rest);
        assert((n - m) * row == row + (n - (m + 1)) * row) by (nonlinear_arith)
            requires
                m < n,
        ;
        assert forall|k: int| 0 <= k < n - m implies (#[trigger] all.subrange(
            k * row,
            k * row + row,
        )) == data.subrange((m + k) * (row + 1) + 1, (m + k) * (row + 1) + 1 + row) by {
            if k == 0 {
                assert(0 * row == 0) by (nonlinear_arith);
                assert(all.subrange(0, row as int) =~= line);
                assert((m + 0) * (row + 1) == at);
            } else {
                assert(k * row == row + (k - 1) * row) by (nonlinear_arith);
                assert((k - 1) * row + row <= (n - (m + 1)) * row) by (nonlinear_arith)
                    requires
                        k - 1 < n - (m + 1),
                        k >= 1,
                ;
                assert((k - 1) * row >= 0) by (nonlinear_arith)
                    requires
                        k >= 1,
                ;
                assert(all.subrange(k * row, k * row + row) =~= rest.subrange(
                    (k - 1) * row,
                    (k - 1) * row + row,
                ));
                assert((m + 1 + (k - 1)) * (row + 1) == (m + k) * (row + 1));
            }
        }
    }
}

/// The position in a buffer of the pixel in column `x` of row `y`.
pub open spec fn pixel_offset(width: nat, bpp: nat, y: int, x: int) -> int {
    (y * width + x) * bpp
}

/// The bytes of the pixel in column `x` of row `y` of an image.
pub open spec fn pixel_of(data: Seq<u8>, width: nat, bpp: nat, y: int, x: int) -> Seq<u8> {
    data.subrange(pixel_offset(width, bpp, y, x), pixel_offset(width, bpp, y, x) + bpp)
}

/// Where every sampled pixel of a row lies within the buffer, the samples
/// of the row are those pixels, one after another.
proof fn lemma_sample_row_pixels(
    data: Seq<u8>,
    width: nat,
    bpp: nat,
    step: nat,
    y: nat,
    cols: nat,
)
    requires
        forall|c: int|
            0 <= c < cols ==> 0 <= #[trigger] pixel_offset(width, bpp, y as int, c * step)
                && pixel_offset(width, bpp, y as int, c * step) + bpp <= data.len(),
    ensures
        spec_sample_row(data, width, bpp, step, y, cols).len() == cols * bpp,
        forall|c: int|
            0 <= c < cols ==> #[trigger] pixel_of(
                spec_sample_row(data, width, bpp, step, y, cols),
                cols,
                bpp,
                0,
                c,
            ) == pixel_of(data, width, bpp, y as int, c * step),
    decreases cols,
{
    if cols == 0 {
        assert(cols * bpp == 0) by (nonlinear_arith)
            requires
                cols == 0,
        ;
    } else {
        let last: int = cols - 1;
        lemma_sample_row_pixels(data, width, bpp, step, y, last as nat);
        let front = spec_sample_row(data, width, bpp, step, y, last as nat);
        let all = spec_sample_row(data, width, bpp, step, y, cols);
        let offset = pixel_offset(width, bpp, y as int, last * step);
        assert(0 <= offset && offset + bpp <= data.len());
        assert(all == front + data.subrange(offset, offset + bpp));
        assert(last * bpp + bpp == cols * bpp) by (nonlinear_arith)
            requires
                last + 1 == cols,
        ;
        assert forall|c: int| 0 <= c < cols implies #[trigger] pixel_of(all, cols, bpp, 0, c)
            == pixel_of(data, width, bpp, y as int, c * step) by {
            assert(pixel_offset(cols, bpp, 0, c) == c * bpp) by (nonlinear_arith)
                requires
                    pixel_offset(cols, bpp, 0, c) == (0 * cols + c) * bpp,
            ;
            assert(pixel_offset(last as nat, bpp, 0, c) == c * bpp) by (nonlinear_arith)
                requires
                    pixel_offset(last as nat, bpp, 0, c) == (0 * last + c) * bpp,
            ;
            assert(c * bpp >= 0 && (c < last ==> c * bpp + bpp <= last * bpp)) by (nonlinear_arith)
                requires
                    0 <= c,
            ;
            if c < last {
                assert(pixel_of(front, last as nat, bpp, 0, c) == pixel_of(
                    data,
                    width,
                    bpp,
                    y as int,
                    c * step,
                ));
                assert(pixel_of(all, cols, bpp, 0, c) =~= pixel_of(front, last as nat, bpp, 0, c));
            } else {
                assert(pixel_of(all, cols, bpp, 0, c) =~= data.subrange(offset, offset + bpp));
            }
        }
    }
}

/// Where every sampled pixel lies within the buffer, the thumbnail holds,
/// at row `j` and column `c`, the pixel at row `j * step` and column
/// `c * step` of the image.
pub proof fn lemma_sample_rows_pixels(
    data: Seq<u8>,
    width: nat,
    bpp: nat,
    step: nat,
    rows: nat,
    cols: nat,
)
    requires
        forall|j: int, c: int|
            0 <= j < rows && 0 <= c < cols ==> 0 <= #[trigger] pixel_offset(
                width,
                bpp,
                j * step,
                c * step,
            ) && pixel_offset(width, bpp, j * step, c * step) + bpp <= data.len(),
    ensures
        spec_sample_rows(data, width, bpp, step, rows, cols).len() == rows * cols * bpp,
        forall|j: int, c: int|
            0 <= j < rows && 0 <= c < cols ==> #[trigger] pixel_of(
                spec_sample_rows(data, width, bpp, step, rows, cols),
                cols,
                bpp,
                j,
                c,
            ) == pixel_of(data, width, bpp, j * step, c * step),
    decreases rows,
{
    if rows == 0 {
        assert(rows * cols * bpp == 0) by (nonlinear_arith)
            requires
                rows == 0,
        ;
    } else {
        let last: int = rows - 1;
        let y = (last * step) as nat;
        lemma_sample_rows_pixels(data, width, bpp, step, last as nat, cols);
        assert forall|c: int| 0 <= c < cols implies 0 <= #[trigger] pixel_offset(
            width,
            bpp,
            y as int,
            c * step,
        ) && pixel_offset(width, bpp, y as int, c * step) + bpp <= data.len() by {
            assert(0 <= pixel_offset(width, bpp, last * step, c * step) && pixel_offset(
                width,
                bpp,
                last * step,
                c * step,
            ) + bpp <= data.len());
        }
        lemma_sample_row_pixels(data, width, bpp, step, y, cols);
        let front = spec_sample_rows(data, width, bpp, step, last as nat, cols);
        let line = spec_sample_row(data, width, bpp, step, y, cols);
        let all = spec_sample_rows(data, width, bpp, step, rows, cols);
        assert(all == front + line);
        assert(last * cols * bpp + cols * bpp == rows * cols * bpp) by (nonlinear_arith)
            requires
                last + 1 == rows,
        ;
        assert forall|j: int, c: int| 0 <= j < rows && 0 <= c < cols implies #[trigger] pixel_of(
            all,
            cols,
            bpp,
            j,
            c,
        ) == pixel_of(data, width, bpp, j * step, c * step) by {
            let at = pixel_offset(cols, bpp, j, c);
            assert(at == j * cols * bpp + c * bpp && c * bpp >= 0 && c * bpp + bpp <= cols * bpp
                && j * cols * bpp >= 0) by (nonlinear_arith)
                requires
                    at == (j * cols + c) * bpp,
                    0 <= c < cols,
                    0 <= j,
            ;
            if j < last {
                assert(j * cols * bpp + cols * bpp <= last * cols * bpp) by (nonlinear_arith)
                    requires
                        0 <= j < last,
                ;
                assert(pixel_of(front, cols, bpp, j, c) == pixel_of(
                    data,
                    width,
                    bpp,
                    j * step,
                    c * step,
                ));
                assert(pixel_of(all, cols, bpp, j, c) =~= pixel_of(front, cols, bpp, j, c));
            } else {
                assert(pixel_offset(cols, bpp, 0, c) == c * bpp) by (nonlinear_arith)
                    requires
                        pixel_offset(cols, bpp, 0, c) == (0 * cols + c) * bpp,
                ;
                assert(pixel_of(line, cols, bpp, 0, c) == pixel_of(
                    data,
                    width,
                    bpp,
                    y as int,
                    c * step,
                ));
                assert(pixel_of(all, cols, bpp, j, c) =~= pixel_of(line, cols, bpp, 0, c));
            }
        }
    }
}

/// The thumbnail of a buffer that holds all pixels of the header's width
/// and height: its shape is the width and the height divided by the step,
/// and at row `j` and column `c` it holds the pixel at row `j * step` and
/// column `c * step` of the image.
pub proof fn lemma_thumbnail_pixels(data: Seq<u8>, header: HeaderInfo, step: nat)
    requires
        step > 0,
        spec_bytes_per_pixel(header.color_type) is Some,
        data.len() >= header.height * header.width * spec_bytes_per_pixel(
            header.color_type,
        )->Some_0,
    ensures
        spec_reshape(data, header, step) is Ok,
        spec_reshape(data, header, step)->Ok_0 is RGBA,
        spec_reshape(data, header, step)->Ok_0->RGBA_shape == (
            (header.width as nat / step) as u32,
            (header.height as nat / step) as u32,
        ),
        spec_reshape(data, header, step)->Ok_0->bytes.len() == (header.height as nat / step) * (
        header.width as nat / step) * spec_bytes_per_pixel(header.color_type)->Some_0,
        forall|j: int, c: int|
            0 <= j < header.height as nat / step && 0 <= c < header.width as nat / step
                ==> #[trigger] pixel_of(
                spec_reshape(data, header, step)->Ok_0->bytes,
                header.width as nat / step,
                spec_bytes_per_pixel(header.color_type)->Some_0,
                j,
                c,
            ) == pixel_of(
                data,
                header.width as nat,
                spec_bytes_per_pixel(header.color_type)->Some_0,
                j * step,
                c * step,
            ),
{
    let bpp = spec_bytes_per_pixel(header.color_type)->Some_0;
    let width = header.width as nat;
    let height = header.height as nat;
    let rows = height / step;
    let cols = width / step;
    assert forall|j: int, c: int| 0 <= j < rows && 0 <= c < cols implies 0 <= #[trigger] pixel_offset(
        width,
        bpp,
        j * step,
        c * step,
    ) && pixel_offset(width, bpp, j * step, c * step) + bpp <= data.len() by {
        let y = j * step;
        let x = c * step;
        assert(0 <= y < height) by (nonlinear_arith)
            requires
                y == j * step,
                0 <= j < height / step,
                step > 0,
        ;
        assert(0 <= x < width) by (nonlinear_arith)
            requires
                x == c * step,
                0 <= c < width / step,
                step > 0,
        ;
        assert(0 <= (y * width + x) * bpp && (y * width + x) * bpp + bpp <= height * width * bpp)
            by (nonlinear_arith)
            requires
                0 <= y < height,
                0 <= x < width,
                bpp >= 0,
        ;
    }
    lemma_sample_rows_pixels(data, width, bpp, step, rows, cols);
}

/// Every pixel of a buffer of whole pixels has a brightness.
pub proof fn lemma_brightness_at_whole_pixels(data: Seq<u8>, color_type: u8, n: int, k: int)
    requires
        spec_bytes_per_pixel(color_type) is Some,
        data.len() == n * spec_bytes_per_pixel(color_type)->Some_0,
        0 <= k < n,
    ensures
        spec_brightness_at(data, color_type, k * spec_bytes_per_pixel(color_type)->Some_0) is Ok,
{
    let bpp = spec_bytes_per_pixel(color_type)->Some_0;
    assert(k * bpp + bpp <= n * bpp) by (nonlinear_arith)
        requires
            0 <= k < n,
            bpp >= 0,
    ;
}

/// The brightness of a whole image at a step of one. Where the inflated
/// data is one row for each line of the header's height, each row a zero
/// filter tag followed by the pixels of the header's width, the pixels are
/// reconstructed row by row, the thumbnail is the image itself, and the
/// brightness holds one value for each pixel, in order: that of the pixel
/// as the colour type lays it out.
pub proof fn lemma_brightness_of_whole_image(inflated: Seq<u8>, header: HeaderInfo)
    requires
        spec_bytes_per_pixel(header.color_type) is Some,
        inflated.len() == header.height * (header.width * spec_bytes_per_pixel(
            header.color_type,
        )->Some_0 + 1),
        forall|k: int|
            0 <= k < header.height ==> #[trigger] inflated[k * (header.width
                * spec_bytes_per_pixel(header.color_type)->Some_0 + 1)] == 0,
    ensures
        spec_unfilter(inflated, header) is Ok,
        spec_unfilter(inflated, header)->Ok_0.len() == header.height * header.width
            * spec_bytes_per_pixel(header.color_type)->Some_0,
        spec_reshape(spec_unfilter(inflated, header)->Ok_0, header, 1) == Ok::<
            VisualView,
            Failure,
        >(
            VisualView::RGBA {
                shape: (header.width, header.height),
                bytes: spec_unfilter(inflated, header)->Ok_0,
            },
        ),
        spec_brightness_of_inflated(inflated, header, 1) is Ok,
        spec_brightness_of_inflated(inflated, header, 1)->Ok_0 is Brightness,
        spec_brightness_of_inflated(inflated, header, 1)->Ok_0->Brightness_shape == (
            header.width,
            header.height,
        ),
        spec_brightness_of_inflated(inflated, header, 1)->Ok_0->values.len() == header.height
            * header.width,
        forall|p: int|
            0 <= p < header.height * header.width ==> (#[trigger] spec_brightness_of_inflated(
                inflated,
                header,
                1,
            )->Ok_0->values[p]) == spec_brightness_at(
                spec_unfilter(inflated, header)->Ok_0,
                header.color_type,
                p * spec_bytes_per_pixel(header.color_type)->Some_0,
            )->Ok_0,
{
    let bpp = spec_bytes_per_pixel(header.color_type)->Some_0;
    let width = header.width as int;
    let height = header.height as int;
    let row = (header.width as nat * bpp) as nat;
    assert(row == width * bpp);
    assert(0 * (row + 1) == 0);
    lemma_unfilter_rows(inflated, row, 0, height);
    let pixels = spec_unfilter(inflated, header)->Ok_0;
    assert(pixels == spec_unfilter_rows(inflated, row, 0)->Ok_0);
    let count = height * width;
    assert(height * row == count * bpp) by (nonlinear_arith)
        requires
            row == width * bpp,
            count == height * width,
    ;
    assert(count >= 0) by (nonlinear_arith)
        requires
            count == height * width,
            height >= 0,
            width >= 0,
    ;
    lemma_reshape_identity(pixels, header);
    assert forall|k: int| 0 <= k < count implies (#[trigger] spec_brightness_at(
        pixels,
        header.color_type,
        k * bpp,
    )) is Ok by {
        lemma_brightness_at_whole_pixels(pixels, header.color_type, count, k);
    }
    lemma_brightness_from_pixels(pixels, header.color_type, 0, count);
    assert(0 * bpp == 0);
}

} // verus!
