//! The visual forms of an image: RGBA bytes, brightness and characters.

use vstd::prelude::*;
use vstd::slice::*;
use vstd::string::*;
use crate::text::{decimal, push_decimal};

verus! {

/// `String::push` of the standard library appends the character to the
/// end of the string.
pub assume_specification[ String::push ](s: &mut String, ch: char)
    ensures
        final(s)@ == old(s)@.push(ch),
;

/// The nine symbols of the density ramp, lightest first.
pub open spec fn density_ramp() -> Seq<char> {
    seq!['.', ',', ':', '+', '*', '?', '%', '#', '@']
}

/// The symbol of a bucket of the density ramp.
pub fn density_char(index: usize) -> (r: char)
    requires
        index < 9,
    ensures
        r == density_ramp()[index as int],
{
    if index == 0 {
        '.'
    } else if index == 1 {
        ','
    } else if index == 2 {
        ':'
    } else if index == 3 {
        '+'
    } else if index == 4 {
        '*'
    } else if index == 5 {
        '?'
    } else if index == 6 {
        '%'
    } else if index == 7 {
        '#'
    } else {
        '@'
    }
}

/// One unit of brightness, in the thousandths in which brightness is kept.
pub const BRIGHTNESS_UNIT: u32 = 1000;

/// The least of `seed` and all of `values`.
pub open spec fn least(values: Seq<u32>, seed: int) -> int
    decreases values.len(),
{
    if values.len() == 0 {
        seed
    } else {
        let rest = least(values.drop_last(), seed);
        if values.last() < rest {
            values.last() as int
        } else {
            rest
        }
    }
}

/// The greatest of `seed` and all of `values`.
pub open spec fn greatest(values: Seq<u32>, seed: int) -> int
    decreases values.len(),
{
    if values.len() == 0 {
        seed
    } else {
        let rest = greatest(values.drop_last(), seed);
        if values.last() > rest {
            values.last() as int
        } else {
            rest
        }
    }
}

/// The lower end of the range that a brightness buffer is spread over:
/// the least of its values and one unit.
pub open spec fn range_low(values: Seq<u32>) -> int {
    least(values, BRIGHTNESS_UNIT as int)
}

/// The upper end of that range: the greatest of its values and zero.
pub open spec fn range_high(values: Seq<u32>) -> int {
    greatest(values, 0)
}

/// The bucket of a value in the range from `low` to `high`, split in nine
/// equal parts; the upper end falls in the last bucket, and a range
/// without extent has the first bucket only.
pub open spec fn bucket(value: int, low: int, high: int) -> int {
    if high <= low {
        0
    } else {
        let q = (value - low) * 9 / (high - low);
        if q >= 9 {
            8
        } else {
            q
        }
    }
}

/// The characters that a brightness buffer is drawn with.
pub open spec fn spec_render(values: Seq<u32>) -> Seq<char> {
    Seq::new(
        values.len(),
        |i: int| density_ramp()[bucket(values[i] as int, range_low(values), range_high(values))],
    )
}

/// Every value lies between the least and the greatest.
pub proof fn lemma_range_bounds(values: Seq<u32>, low_seed: int, high_seed: int)
    ensures
        least(values, low_seed) <= low_seed,
        greatest(values, high_seed) >= high_seed,
        forall|i: int|
            0 <= i < values.len() ==> least(values, low_seed) <= (#[trigger] values[i])
                <= greatest(values, high_seed),
    decreases values.len(),
{
    if values.len() > 0 {
        let front = values.drop_last();
        lemma_range_bounds(front, low_seed, high_seed);
        assert forall|i: int| 0 <= i < values.len() implies least(values, low_seed) <= (
        #[trigger] values[i]) <= greatest(values, high_seed) by {
            if i < front.len() {
                assert(front[i] == values[i]);
            }
        }
    }
}

/// The least and the greatest are each the seed or one of the values.
pub proof fn lemma_range_attained(values: Seq<u32>, low_seed: int, high_seed: int)
    ensures
        least(values, low_seed) == low_seed || exists|i: int|
            0 <= i < values.len() && #[trigger] values[i] == least(values, low_seed),
        greatest(values, high_seed) == high_seed || exists|i: int|
            0 <= i < values.len() && #[trigger] values[i] == greatest(values, high_seed),
    decreases values.len(),
{
    if values.len() > 0 {
        let front = values.drop_last();
        let last = values.len() - 1;
        lemma_range_attained(front, low_seed, high_seed);
        if least(values, low_seed) != low_seed {
            if values.last() < least(front, low_seed) {
                assert(values[last] == least(values, low_seed));
            } else {
                let i = choose|i: int|
                    0 <= i < front.len() && #[trigger] front[i] == least(front, low_seed);
                assert(values[i] == least(values, low_seed));
            }
        }
        if greatest(values, high_seed) != high_seed {
            if values.last() > greatest(front, high_seed) {
                assert(values[last] == greatest(values, high_seed));
            } else {
                let i = choose|i: int|
                    0 <= i < front.len() && #[trigger] front[i] == greatest(front, high_seed);
                assert(values[i] == greatest(values, high_seed));
            }
        }
    }
}

/// A bucket is one of the nine of the ramp.
pub proof fn lemma_bucket_in_ramp(value: int, low: int, high: int)
    requires
        low <= value,
    ensures
        0 <= bucket(value, low, high) < 9,
{
    if high > low {
        let d = high - low;
        let n = (value - low) * 9;
        assert(n / d >= 0) by (nonlinear_arith)
            requires
                n >= 0,
                d > 0,
        ;
    }
}

/// Where the range has an extent, a value at its lower end is drawn with
/// the lightest symbol and a value at its upper end with the darkest.
pub proof fn lemma_render_extremes(values: Seq<u32>, i: int)
    requires
        0 <= i < values.len(),
        range_low(values) < range_high(values),
    ensures
        values[i] == range_low(values) ==> spec_render(values)[i] == '.',
        values[i] == range_high(values) ==> spec_render(values)[i] == '@',
{
    let low = range_low(values);
    let high = range_high(values);
    let d = high - low;
    if values[i] == low {
        assert(0int * 9 / d == 0) by (nonlinear_arith)
            requires
                d > 0,
        ;
    }
    if values[i] == high {
        assert(d * 9 / d == 9) by (nonlinear_arith)
            requires
                d > 0,
        ;
    }
}

/// A copy of a vector of plain values.
pub fn copy_of<T: Copy>(items: &Vec<T>) -> (r: Vec<T>)
    ensures
        r@ == items@,
{
    slice_to_vec(items.as_slice())
}

/// Draws a brightness buffer with the symbols of the density ramp.
pub fn render(values: &Vec<u32>) -> (r: Vec<char>)
    ensures
        r@ == spec_render(values@),
{
    let mut low: u32 = BRIGHTNESS_UNIT;
    let mut high: u32 = 0;
    let mut i: usize = 0;
    while i < values.len()
        invariant
            i <= values.len(),
            low == least(values@.subrange(0, i as int), BRIGHTNESS_UNIT as int),
            high == greatest(values@.subrange(0, i as int), 0),
        decreases values.len() - i,
    {
        proof {
            let next = values@.subrange(0, i + 1);
            assert(next.drop_last() =~= values@.subrange(0, i as int));
            assert(next.last() == values@[i as int]);
        }
        let v: u32 = values[i];
        if v < low {
            low = v;
        }
        if v > high {
            high = v;
        }
        i = i + 1;
    }
    proof {
        assert(values@.subrange(0, i as int) =~= values@);
        lemma_range_bounds(values@, BRIGHTNESS_UNIT as int, 0);
    }
    let mut out: Vec<char> = Vec::new();
    let mut k: usize = 0;
    while k < values.len()
        invariant
            k <= values.len(),
            low == range_low(values@),
            high == range_high(values@),
            forall|j: int| 0 <= j < values@.len() ==> low <= #[trigger] values@[j],
            out@ == spec_render(values@).subrange(0, k as int),
        decreases values.len() - k,
    {
        let v: u32 = values[k];
        let index: usize = if high <= low {
            0
        } else {
            let q: u64 = (v - low) as u64 * 9 / ((high - low) as u64);
            if q >= 9 {
                8
            } else {
                q as usize
            }
        };
        proof {
            lemma_bucket_in_ramp(v as int, low as int, high as int);
            assert(index == bucket(v as int, low as int, high as int));
        }
        out.push(density_char(index));
        proof {
            assert(out@ =~= spec_render(values@).subrange(0, k + 1));
        }
        k = k + 1;
    }
    proof {
        assert(spec_render(values@).subrange(0, k as int) =~= spec_render(values@));
    }
    out
}

/// An image drawn with characters.
#[derive(Debug, PartialEq, Eq)]
pub struct CharImage {
    pub shape: (u32, u32),
    pub data: Vec<char>,
}

/// An image as bytes, with the shape that was asked for.
#[derive(Debug, PartialEq, Eq)]
pub struct PNG {
    pub shape: (u32, u32),
    pub data: Vec<u8>,
}

/// The brightness of the pixels of an image, each in thousandths of a unit:
/// a grey level of 255 is kept as 255000.
#[derive(Debug, PartialEq, Eq)]
pub struct Brightness {
    pub shape: (u32, u32),
    pub data: Vec<u32>,
}

/// One of the visual forms of an image.
#[derive(Debug, PartialEq, Eq)]
pub enum VisualData {
    RGBA(PNG),
    Brightness(Brightness),
    Charimage(CharImage),
}

/// A visual form as plain values.
pub enum VisualView {
    RGBA { shape: (u32, u32), bytes: Seq<u8> },
    Brightness { shape: (u32, u32), values: Seq<u32> },
    Charimage { shape: (u32, u32), symbols: Seq<char> },
}

impl View for VisualData {
    type V = VisualView;

    open spec fn view(&self) -> VisualView {
        match self {
            VisualData::RGBA(p) => VisualView::RGBA { shape: p.shape, bytes: p.data@ },
            VisualData::Brightness(b) => VisualView::Brightness { shape: b.shape, values: b.data@ },
            VisualData::Charimage(c) => VisualView::Charimage { shape: c.shape, symbols: c.data@ },
        }
    }
}

/// A shape as a debugging printout shows it.
pub open spec fn shape_text(shape: (u32, u32)) -> Seq<char> {
    "("@ + decimal(shape.0 as nat) + ", "@ + decimal(shape.1 as nat) + ")"@
}

/// The first `n` of `chars`, with a line break after every `width` of them
/// and after the last.
pub open spec fn spec_rows(chars: Seq<char>, width: nat, n: nat) -> Seq<char>
    decreases n,
{
    if n == 0 {
        Seq::empty()
    } else {
        let body = spec_rows(chars, width, (n - 1) as nat).push(chars[n - 1]);
        if n % width == 0 || n == chars.len() {
            body.push('\n')
        } else {
            body
        }
    }
}

impl VisualView {
    /// The bytes of this form, which only the RGBA form has.
    pub open spec fn bytes(self) -> Option<Seq<u8>> {
        match self {
            VisualView::RGBA { bytes, .. } => Some(bytes),
            _ => None,
        }
    }

    /// The brightness values of this form, which only the brightness form has.
    pub open spec fn brightness(self) -> Option<Seq<u32>> {
        match self {
            VisualView::Brightness { values, .. } => Some(values),
            _ => None,
        }
    }

    /// The characters of this form: its own, or those that its brightness
    /// is drawn with; the RGBA form has none.
    pub open spec fn chars(self) -> Option<Seq<char>> {
        match self {
            VisualView::RGBA { .. } => None,
            VisualView::Brightness { values, .. } => Some(spec_render(values)),
            VisualView::Charimage { symbols, .. } => Some(symbols),
        }
    }

    /// The text that is printed of this form. The rows of characters are as
    /// long as the second number of the shape says.
    pub open spec fn text(self) -> Seq<char> {
        match self {
            VisualView::RGBA { shape, bytes } => "PNG image with shape: "@ + shape_text(shape)
                + " and "@ + decimal(bytes.len()) + " bytes of data"@,
            VisualView::Brightness { shape, values } => "Brightness data with shape: "@
                + shape_text(shape) + " and "@ + decimal(values.len()) + " bytes of data"@,
            VisualView::Charimage { shape, symbols } => spec_rows(
                symbols,
                shape.1 as nat,
                symbols.len(),
            ),
        }
    }
}

fn push_shape(out: &mut String, shape: (u32, u32))
    ensures
        final(out)@ == old(out)@ + shape_text(shape),
{
    out.append("(");
    push_decimal(out, shape.0 as u64);
    out.append(", ");
    push_decimal(out, shape.1 as u64);
    out.append(")");
    assert(final(out)@ =~= old(out)@ + shape_text(shape));
}

impl PNG {
    /// The text that is printed of an image of bytes.
    pub fn to_string(&self) -> (r: String)
        ensures
            r@ == (VisualView::RGBA { shape: self.shape, bytes: self.data@ }).text(),
    {
        let mut out = String::from_str("PNG image with shape: ");
        push_shape(&mut out, self.shape);
        out.append(" and ");
        push_decimal(&mut out, self.data.len() as u64);
        out.append(" bytes of data");
        out
    }
}

impl Brightness {
    /// The text that is printed of a brightness buffer.
    pub fn to_string(&self) -> (r: String)
        ensures
            r@ == (VisualView::Brightness { shape: self.shape, values: self.data@ }).text(),
    {
        let mut out = String::from_str("Brightness data with shape: ");
        push_shape(&mut out, self.shape);
        out.append(" and ");
        push_decimal(&mut out, self.data.len() as u64);
        out.append(" bytes of data");
        out
    }
}

impl VisualData {
    /// The bytes of the RGBA form; the other forms have none.
    pub fn to_bytes(&self) -> (r: Option<Vec<u8>>)
        ensures
            match r {
                Some(v) => self@.bytes() == Some(v@),
                None => self@.bytes() is None,
            },
    {
        match self {
            VisualData::RGBA(png) => Some(copy_of(&png.data)),
            _ => None,
        }
    }

    /// The values of the brightness form; the other forms have none.
    pub fn to_brightness(&self) -> (r: Option<Vec<u32>>)
        ensures
            match r {
                Some(v) => self@.brightness() == Some(v@),
                None => self@.brightness() is None,
            },
    {
        match self {
            VisualData::Brightness(brightness) => Some(copy_of(&brightness.data)),
            _ => None,
        }
    }

    /// The characters of the character form, or those that the brightness
    /// form is drawn with; the RGBA form has none.
    pub fn to_chars(&self) -> (r: Option<Vec<char>>)
        ensures
            match r {
                Some(v) => self@.chars() == Some(v@),
                None => self@.chars() is None,
            },
    {
        match self {
            VisualData::RGBA(_) => None,
            VisualData::Charimage(char_image) => Some(copy_of(&char_image.data)),
            VisualData::Brightness(brightness) => Some(render(&brightness.data)),
        }
    }

    /// The text that is printed of this form.
    pub fn to_string(&self) -> (r: String)
        requires
            self is Charimage ==> self->Charimage_0.shape.1 > 0,
        ensures
            r@ == self@.text(),
    {
        match self {
            VisualData::RGBA(png) => png.to_string(),
            VisualData::Brightness(brightness) => brightness.to_string(),
            VisualData::Charimage(char_image) => {
                let width: usize = char_image.shape.1 as usize;
                let mut out = String::new();
                let mut n: usize = 0;
                while n < char_image.data.len()
                    invariant
                        n <= char_image.data.len(),
                        width == char_image.shape.1,
                        width > 0,
                        out@ == spec_rows(char_image.data@, width as nat, n as nat),
                    decreases char_image.data.len() - n,
                {
                    out.push(char_image.data[n]);
                    n = n + 1;
                    if n % width == 0 || n == char_image.data.len() {
                        out.push('\n');
                    }
                }
                out
            },
        }
    }
}

} // verus!
