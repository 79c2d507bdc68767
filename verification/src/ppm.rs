//! The plain-text image format: a line `P3`, a line with width and height, a
//! line with the largest channel value, then one line per row of pixels, the
//! top row first, each pixel as its red, green and blue value.

use crate::color::Color;
use crate::pixmap::Pixmap;
use crate::pixmap::Raster;
use crate::pixmap::lemma_index_in_range;
use crate::pixmap::lemma_place_in_range;
use crate::text::BLANK;
use crate::text::LINE_FEED;
use crate::text::Span;
use crate::text::decimal;
use crate::text::lines;
use crate::text::number;
use crate::text::number_up_to;
use crate::text::parse_number;
use crate::text::push_decimal;
use crate::text::read_line;
use crate::text::spells;
use crate::text::split_words;
use crate::text::words;
use vstd::prelude::*;

verus! {

/// What is wrong with a line of a text that is not an image.
#[derive(Clone, Copy, Debug, PartialEq, Eq, Structural)]
pub enum PpmErrorKind {
    /// The first line is not `P3`.
    Magic,
    /// The second line does not hold exactly two words.
    Dimensions,
    /// The width is not a number of 32 bits.
    Width,
    /// The height is not a number of 32 bits.
    Height,
    /// The image has more pixels than 32 bits can count.
    Size,
    /// A row does not hold three words for each column.
    RowLength,
    /// A red value is not a number from 0 to 255.
    Red,
    /// A green value is not a number from 0 to 255.
    Green,
    /// A blue value is not a number from 0 to 255.
    Blue,
    /// A line follows the last row.
    ExtraRow,
}

/// Why a text is not an image: the number of the line at fault, counted from
/// 1, and what is wrong with it.
#[derive(Clone, Copy, Debug, PartialEq, Eq, Structural)]
pub struct PpmError {
    pub line: usize,
    pub kind: PpmErrorKind,
}

/// A fault of a text that is not an image, with the number of its line.
pub struct PpmFault {
    pub line: nat,
    pub kind: PpmErrorKind,
}

impl View for PpmError {
    type V = PpmFault;

    open spec fn view(&self) -> PpmFault {
        PpmFault { line: self.line as nat, kind: self.kind }
    }
}

impl PpmError {
    /// The fault in words, without the number of the line.
    pub fn message(&self) -> (s: String)
        ensures
            s@ == self.kind.text(),
    {
        self.kind.message()
    }
}

impl PpmErrorKind {
    /// What `message` says.
    pub open spec fn text(self) -> Seq<char> {
        match self {
            PpmErrorKind::Magic => "Header does not equal 'P3'"@,
            PpmErrorKind::Dimensions => "Dimensions should consist of width and height"@,
            PpmErrorKind::Width => "Cannot parse width."@,
            PpmErrorKind::Height => "Cannot parse height."@,
            PpmErrorKind::Size => "Width times height is too large."@,
            PpmErrorKind::RowLength => "A row should consist of three values for each pixel"@,
            PpmErrorKind::Red => "Cannot parse r color"@,
            PpmErrorKind::Green => "Cannot parse g color"@,
            PpmErrorKind::Blue => "Cannot parse b color"@,
            PpmErrorKind::ExtraRow => "There are more rows than the height allows."@,
        }
    }

    /// The fault in words.
    pub fn message(&self) -> (s: String)
        ensures
            s@ == self.text(),
    {
        match self {
            PpmErrorKind::Magic => "Header does not equal 'P3'".to_owned(),
            PpmErrorKind::Dimensions => "Dimensions should consist of width and height".to_owned(),
            PpmErrorKind::Width => "Cannot parse width.".to_owned(),
            PpmErrorKind::Height => "Cannot parse height.".to_owned(),
            PpmErrorKind::Size => "Width times height is too large.".to_owned(),
            PpmErrorKind::RowLength => "A row should consist of three values for each pixel".to_owned(),
            PpmErrorKind::Red => "Cannot parse r color".to_owned(),
            PpmErrorKind::Green => "Cannot parse g color".to_owned(),
            PpmErrorKind::Blue => "Cannot parse b color".to_owned(),
            PpmErrorKind::ExtraRow => "There are more rows than the height allows.".to_owned(),
        }
    }
}

/// The letter `P`.
pub const LETTER_P: u8 = 80;

/// The digit `2`.
pub const DIGIT_2: u8 = 50;

/// The digit `3`.
pub const DIGIT_3: u8 = 51;

/// The digit `5`.
pub const DIGIT_5: u8 = 53;

/// The largest value of a channel.
pub const CHANNEL_MAX: u8 = 255;

/// The first line of every image.
pub open spec fn magic() -> Seq<u8> {
    seq![LETTER_P, DIGIT_3]
}

/// The third line of every image that this library writes.
pub open spec fn depth() -> Seq<u8> {
    seq![DIGIT_2, DIGIT_5, DIGIT_5]
}

/// The fault in word `i` of a row, which holds red, green and blue in turn.
pub open spec fn channel_fault(i: int) -> PpmErrorKind {
    if i % 3 == 0 {
        PpmErrorKind::Red
    } else if i % 3 == 1 {
        PpmErrorKind::Green
    } else {
        PpmErrorKind::Blue
    }
}

/// The first fault among the words of a row from word `i` on.
pub open spec fn first_channel_fault(row: Seq<Seq<u8>>, i: int) -> Option<PpmErrorKind>
    decreases row.len() - i,
{
    if i >= row.len() {
        None
    } else if number_up_to(row[i], CHANNEL_MAX as nat) is None {
        Some(channel_fault(i))
    } else {
        first_channel_fault(row, i + 1)
    }
}

/// The fault of a row line of an image that is `width` pixels wide, if it has
/// one: a wrong number of words, or else its first unreadable word.
pub open spec fn row_fault(line: Seq<u8>, width: nat) -> Option<PpmErrorKind> {
    let row = words(line);
    if row.len() != 3 * width {
        Some(PpmErrorKind::RowLength)
    } else {
        first_channel_fault(row, 0)
    }
}

/// The fault of row line `k`, counted from 0, of an image of the given size,
/// if it has one: it lies past the height of the image, or it is a faulty row.
pub open spec fn row_line_fault(rows: Seq<Seq<u8>>, width: nat, height: nat, k: int) -> Option<
    PpmErrorKind,
> {
    if k >= height {
        Some(PpmErrorKind::ExtraRow)
    } else {
        row_fault(rows[k], width)
    }
}

/// The first row line at fault from line `k` on, if there is one.
pub open spec fn first_row_fault(rows: Seq<Seq<u8>>, width: nat, height: nat, k: int) -> Option<
    int,
>
    decreases rows.len() - k,
{
    if k >= rows.len() {
        None
    } else if row_line_fault(rows, width, height, k) is Some {
        Some(k)
    } else {
        first_row_fault(rows, width, height, k + 1)
    }
}

/// The value of a channel, as the word `word` writes it.
pub open spec fn channel(word: Seq<u8>) -> u8 {
    number(word).unwrap() as u8
}

/// The colour that pixel `x` of a row has.
pub open spec fn color_in(row: Seq<Seq<u8>>, x: int) -> Color {
    Color { r: channel(row[3 * x]), g: channel(row[3 * x + 1]), b: channel(row[3 * x + 2]) }
}

/// The colour of the pixel at `(x, y)` of an image of the given height once
/// its first `count` row lines are read. The first line is the top row. A
/// pixel whose row was not read is black.
pub open spec fn pixel_of(rows: Seq<Seq<u8>>, count: int, height: nat, x: int, y: int) -> Color {
    let k = height - 1 - y;
    if 0 <= k < count {
        color_in(words(rows[k]), x)
    } else {
        Color::black()
    }
}

/// The colours of an image with the given row lines, in the order of a raster.
pub open spec fn picture(rows: Seq<Seq<u8>>, width: nat, height: nat) -> Seq<Color> {
    Seq::new(
        width * height,
        |i: int| pixel_of(rows, rows.len() as int, height, i / (height as int), i % (height as int)),
    )
}

/// The lines of an image after its three header lines.
pub open spec fn row_lines(all: Seq<Seq<u8>>) -> Seq<Seq<u8>> {
    if all.len() > 3 {
        all.skip(3)
    } else {
        Seq::empty()
    }
}

/// The image of the given size that the row lines describe, which follow the
/// three header lines, or their first fault.
pub open spec fn rows_picture(rows: Seq<Seq<u8>>, width: nat, height: nat) -> Result<
    Raster,
    PpmFault,
> {
    match first_row_fault(rows, width, height, 0) {
        Some(k) => Err(
            PpmFault {
                line: (k + 4) as nat,
                kind: row_line_fault(rows, width, height, k).unwrap(),
            },
        ),
        None => Ok(Raster { width, height, colors: picture(rows, width, height) }),
    }
}

/// The width and the height that the second line of an image gives, or its
/// fault.
pub open spec fn image_size(line: Seq<u8>) -> Result<(nat, nat), PpmErrorKind> {
    let sizes = words(line);
    if sizes.len() != 2 {
        Err(PpmErrorKind::Dimensions)
    } else if number_up_to(sizes[0], u32::MAX as nat) is None {
        Err(PpmErrorKind::Width)
    } else if number_up_to(sizes[1], u32::MAX as nat) is None {
        Err(PpmErrorKind::Height)
    } else if number(sizes[0]).unwrap() * number(sizes[1]).unwrap() > u32::MAX {
        Err(PpmErrorKind::Size)
    } else {
        Ok((number(sizes[0]).unwrap(), number(sizes[1]).unwrap()))
    }
}

/// The image that a text describes, or the first fault that keeps it from
/// describing one.
///
/// The third line is not looked at. A text that stops after the first or the
/// second line, or before the last row, is no fault: the rows that are
/// missing are black, and without a second line the image is empty.
pub open spec fn ppm_picture(text: Seq<u8>) -> Result<Raster, PpmFault> {
    let all = lines(text);
    if all.len() == 0 {
        Ok(Raster::blank(0, 0))
    } else if all[0] != magic() {
        Err(PpmFault { line: 1, kind: PpmErrorKind::Magic })
    } else if all.len() == 1 {
        Ok(Raster::blank(0, 0))
    } else {
        match image_size(all[1]) {
            Err(kind) => Err(PpmFault { line: 2, kind }),
            Ok((width, height)) => rows_picture(row_lines(all), width, height),
        }
    }
}

/// A pixel as it is written: its three channels, a blank after each.
pub open spec fn pixel_text(c: Color) -> Seq<u8> {
    decimal(c.r as nat).push(BLANK) + decimal(c.g as nat).push(BLANK) + decimal(c.b as nat).push(
        BLANK,
    )
}

/// Row `y` of a raster as it is written, from column `x` on.
pub open spec fn row_text(r: Raster, y: int, x: int) -> Seq<u8>
    decreases r.width - x,
{
    if x >= r.width {
        Seq::empty()
    } else {
        pixel_text(r.at(x, y)) + row_text(r, y, x + 1)
    }
}

/// The rows of a raster as they are written, from the `k`-th line on (the
/// first line, `k == 0`, is the top row), a line feed after each.
pub open spec fn rows_text(r: Raster, k: int) -> Seq<u8>
    decreases r.height - k,
{
    if k >= r.height {
        Seq::empty()
    } else {
        row_text(r, r.height - 1 - k, 0).push(LINE_FEED) + rows_text(r, k + 1)
    }
}

/// The three header lines of a raster as they are written.
pub open spec fn header_text(r: Raster) -> Seq<u8> {
    magic().push(LINE_FEED) + (decimal(r.width).push(BLANK) + decimal(r.height)).push(LINE_FEED)
        + depth().push(LINE_FEED)
}

/// A raster as it is written.
pub open spec fn ppm_text(r: Raster) -> Seq<u8> {
    header_text(r) + rows_text(r, 0)
}

/// Tells whether a line is the first line of an image.
fn is_magic(text: &[u8], line: Span) -> (r: bool)
    requires
        line.start <= line.end <= text.len(),
    ensures
        r == (line.of(text@) == magic()),
{
    let r = line.end - line.start == 2 && text[line.start] == LETTER_P && text[line.start + 1]
        == DIGIT_3;
    proof {
        assert(magic().len() == 2);
        if r {
            assert(line.of(text@) =~= magic());
        } else if line.end - line.start == 2 {
            assert(line.of(text@)[0] == text@[line.start as int]);
            assert(line.of(text@)[1] == text@[line.start + 1]);
        }
    }
    r
}

/// Reads one channel value.
fn read_channel(text: &[u8], word: Span) -> (r: Option<u8>)
    requires
        word.start <= word.end <= text.len(),
    ensures
        r is None <==> number_up_to(word.of(text@), CHANNEL_MAX as nat) is None,
        r is Some ==> r.unwrap() == channel(word.of(text@)),
{
    match parse_number(text, word, CHANNEL_MAX as u64) {
        Some(v) => Some(v as u8),
        None => None,
    }
}

/// Reads a row line and draws its pixels into row `y` of the frame buffer.
fn read_row(text: &[u8], line: Span, pixmap: &mut Pixmap, y: u32) -> (r: Result<(), PpmErrorKind>)
    requires
        line.start <= line.end <= text.len(),
        y < old(pixmap)@.height,
    ensures
        final(pixmap)@.wf(),
        final(pixmap)@.width == old(pixmap)@.width,
        final(pixmap)@.height == old(pixmap)@.height,
        match r {
            Ok(()) => {
                &&& row_fault(line.of(text@), old(pixmap)@.width) is None
                &&& forall|i: int|
                    0 <= i < old(pixmap)@.colors.len() ==> #[trigger] final(pixmap)@.colors[i] == (
                    if i % (old(pixmap)@.height as int) == y {
                        color_in(words(line.of(text@)), i / (old(pixmap)@.height as int))
                    } else {
                        old(pixmap)@.colors[i]
                    })
            },
            Err(e) => row_fault(line.of(text@), old(pixmap)@.width) == Some(e),
        },
{
    let width = pixmap.width();
    let height = pixmap.height();
    let spans = split_words(text, line);
    let ghost row = words(line.of(text@));
    if spans.len() as u64 != 3 * (width as u64) {
        return Err(PpmErrorKind::RowLength);
    }
    let mut x: u32 = 0;
    while x < width
        invariant
            x <= width,
            spans.len() == 3 * width,
            row == words(line.of(text@)),
            spells(text@, spans@, row),
            forall|k: int| 0 <= k < spans.len() ==> (#[trigger] spans[k]).within(
                line.start as int,
                line.end as int,
            ),
            line.end <= text.len(),
            pixmap@.wf(),
            pixmap@.width == width == old(pixmap)@.width,
            pixmap@.height == height == old(pixmap)@.height,
            y < height,
            first_channel_fault(row, 0) == first_channel_fault(row, 3 * x),
            forall|i: int|
                0 <= i < pixmap@.colors.len() ==> #[trigger] pixmap@.colors[i] == (if i % (
                height as int) == y && i / (height as int) < x {
                    color_in(row, i / (height as int))
                } else {
                    old(pixmap)@.colors[i]
                }),
        decreases width - x,
    {
        let at = 3 * (x as usize);
        let ghost before = pixmap@;
        assert(spans[at as int].within(line.start as int, line.end as int));
        assert(spans[at + 1].within(line.start as int, line.end as int));
        assert(spans[at + 2].within(line.start as int, line.end as int));
        let red = match read_channel(text, spans[at]) {
            Some(v) => v,
            None => {
                return Err(PpmErrorKind::Red);
            },
        };
        assert(first_channel_fault(row, 3 * x) == first_channel_fault(row, 3 * x + 1));
        let green = match read_channel(text, spans[at + 1]) {
            Some(v) => v,
            None => {
                return Err(PpmErrorKind::Green);
            },
        };
        assert(first_channel_fault(row, 3 * x + 1) == first_channel_fault(row, 3 * x + 2));
        let blue = match read_channel(text, spans[at + 2]) {
            Some(v) => v,
            None => {
                return Err(PpmErrorKind::Blue);
            },
        };
        assert(first_channel_fault(row, 3 * x + 2) == first_channel_fault(row, 3 * x + 3));
        let color = Color { r: red, g: green, b: blue };
        assert(color == color_in(row, x as int));
        pixmap.draw(x, y, color);
        proof {
            let h = height as int;
            let j = x * h + y;
            lemma_index_in_range(width as int, h, x as int, y as int);
            assert forall|i: int| 0 <= i < pixmap@.colors.len() implies #[trigger] pixmap@.colors[i]
                == (if i % h == y && i / h < x + 1 {
                color_in(row, i / h)
            } else {
                old(pixmap)@.colors[i]
            }) by {
                if i != j {
                    assert(pixmap@.colors[i] == before.colors[i]);
                    if i % h == y && i / h == x {
                        vstd::arithmetic::div_mod::lemma_fundamental_div_mod(i, h);
                        assert(h * (i / h) == (i / h) * h) by (nonlinear_arith);
                    }
                }
            }
        }
        x += 1;
    }
    proof {
        let h = height as int;
        assert forall|i: int| 0 <= i < pixmap@.colors.len() implies #[trigger] pixmap@.colors[i]
            == (if i % h == y {
            color_in(row, i / h)
        } else {
            old(pixmap)@.colors[i]
        }) by {
            lemma_place_in_range(width as int, h, i);
        }
    }
    Ok(())
}

/// Reads the line that gives the width and the height of an image.
fn read_size(text: &[u8], line: Span) -> (r: Result<(u32, u32), PpmErrorKind>)
    requires
        line.start <= line.end <= text.len(),
    ensures
        match r {
            Ok((width, height)) => image_size(line.of(text@)) == Ok::<(nat, nat), PpmErrorKind>(
                (width as nat, height as nat),
            ),
            Err(e) => image_size(line.of(text@)) == Err::<(nat, nat), PpmErrorKind>(e),
        },
{
    let sizes = split_words(text, line);
    if sizes.len() != 2 {
        return Err(PpmErrorKind::Dimensions);
    }
    assert(sizes[0].within(line.start as int, line.end as int));
    assert(sizes[1].within(line.start as int, line.end as int));
    let width = match parse_number(text, sizes[0], u32::MAX as u64) {
        Some(v) => v,
        None => {
            return Err(PpmErrorKind::Width);
        },
    };
    let height = match parse_number(text, sizes[1], u32::MAX as u64) {
        Some(v) => v,
        None => {
            return Err(PpmErrorKind::Height);
        },
    };
    assert(width * height <= u32::MAX * u32::MAX) by (nonlinear_arith)
        requires
            width <= u32::MAX,
            height <= u32::MAX,
    ;
    if width * height > u32::MAX as u64 {
        return Err(PpmErrorKind::Size);
    }
    Ok((width as u32, height as u32))
}

/// Reads the row lines of an image, which start at `start`, after the three
/// header lines, into a black frame buffer of the size of the image.
fn read_rows(text: &[u8], start: usize, blank: Pixmap) -> (r: Result<Pixmap, PpmError>)
    requires
        3 <= start <= text.len(),
        blank@ == Raster::blank(blank@.width, blank@.height),
    ensures
        match r {
            Ok(done) => {
                &&& done@.wf()
                &&& rows_picture(lines(text@.skip(start as int)), blank@.width, blank@.height)
                    == Ok::<Raster, PpmFault>(done@)
            },
            Err(e) => rows_picture(lines(text@.skip(start as int)), blank@.width, blank@.height)
                == Err::<Raster, PpmFault>(e@),
        },
{
    let ghost rows = lines(text@.skip(start as int));
    let width = blank.width();
    let height = blank.height();
    let mut pixmap = blank;
    let mut pos = start;
    let mut k: u32 = 0;
    assert(rows.skip(0) =~= rows);
    while pos < text.len()
        invariant
            pos <= text.len(),
            rows == lines(text@.skip(start as int)),
            blank@.width == width,
            blank@.height == height,
            k <= height,
            k <= rows.len(),
            k + 3 <= pos,
            lines(text@.skip(pos as int)) == rows.skip(k as int),
            first_row_fault(rows, width as nat, height as nat, 0) == first_row_fault(
                rows,
                width as nat,
                height as nat,
                k as int,
            ),
            pixmap@.wf(),
            pixmap@.width == width,
            pixmap@.height == height,
            forall|i: int|
                0 <= i < pixmap@.colors.len() ==> #[trigger] pixmap@.colors[i] == pixel_of(
                    rows,
                    k as int,
                    height as nat,
                    i / (height as int),
                    i % (height as int),
                ),
        decreases text.len() - pos,
    {
        let (line, next) = read_line(text, pos);
        proof {
            assert(rows.skip(k as int)[0] == line.of(text@));
            assert(rows.skip(k as int).skip(1) =~= rows.skip(k + 1));
        }
        if k >= height {
            return Err(PpmError { line: k as usize + 4, kind: PpmErrorKind::ExtraRow });
        }
        match read_row(text, line, &mut pixmap, height - 1 - k) {
            Ok(()) => {},
            Err(kind) => {
                return Err(PpmError { line: k as usize + 4, kind });
            },
        }
        pos = next;
        k += 1;
    }
    proof {
        assert(rows.skip(k as int).len() == 0);
        assert(pixmap@.colors =~= picture(rows, width as nat, height as nat));
    }
    Ok(pixmap)
}

impl Pixmap {
    /// Writes the frame buffer as an image text.
    pub fn save_as_ppm(&self) -> (out: Vec<u8>)
        ensures
            out@ == ppm_text(self@),
    {
        let width = self.width();
        let height = self.height();
        let mut out: Vec<u8> = Vec::new();
        out.push(LETTER_P);
        out.push(DIGIT_3);
        out.push(LINE_FEED);
        push_decimal(&mut out, width);
        out.push(BLANK);
        push_decimal(&mut out, height);
        out.push(LINE_FEED);
        out.push(DIGIT_2);
        out.push(DIGIT_5);
        out.push(DIGIT_5);
        out.push(LINE_FEED);
        assert(out@ =~= header_text(self@));
        let mut k: u32 = 0;
        while k < height
            invariant
                k <= height,
                self@.width == width,
                self@.height == height,
                out@ + rows_text(self@, k as int) == ppm_text(self@),
            decreases height - k,
        {
            let y = height - 1 - k;
            let ghost rest = rows_text(self@, k + 1);
            let mut x: u32 = 0;
            while x < width
                invariant
                    x <= width,
                    y < height,
                    self@.width == width,
                    self@.height == height,
                    out@ + (row_text(self@, y as int, x as int).push(LINE_FEED) + rest)
                        == ppm_text(self@),
                decreases width - x,
            {
                let color = self.get_color(x, y);
                let ghost start = out@;
                let ghost tail = row_text(self@, y as int, x + 1).push(LINE_FEED) + rest;
                push_decimal(&mut out, color.r as u32);
                out.push(BLANK);
                push_decimal(&mut out, color.g as u32);
                out.push(BLANK);
                push_decimal(&mut out, color.b as u32);
                out.push(BLANK);
                proof {
                    assert(out@ =~= start + pixel_text(color));
                    assert(row_text(self@, y as int, x as int).push(LINE_FEED) + rest =~= pixel_text(
                        color,
                    ) + tail);
                    assert(start + (pixel_text(color) + tail) =~= (start + pixel_text(color))
                        + tail);
                }
                x += 1;
            }
            let ghost start = out@;
            out.push(LINE_FEED);
            proof {
                assert(row_text(self@, y as int, x as int) =~= Seq::<u8>::empty());
                assert(start + (Seq::<u8>::empty().push(LINE_FEED) + rest) =~= start.push(
                    LINE_FEED,
                ) + rest);
            }
            k += 1;
        }
        assert(out@ + rows_text(self@, k as int) =~= out@);
        out
    }

    /// Reads an image text into a frame buffer.
    pub fn try_load_from_ppm(text: &[u8]) -> (r: Result<Pixmap, PpmError>)
        ensures
            match r {
                Ok(pixmap) => ppm_picture(text@) == Ok::<Raster, PpmFault>(pixmap@) && pixmap@.wf(),
                Err(e) => ppm_picture(text@) == Err::<Raster, PpmFault>(e@),
            },
    {
        let ghost all = lines(text@);
        assert(text@.skip(0) =~= text@);
        if text.len() == 0 {
            return Ok(Pixmap::new(0, 0));
        }
        let (first, pos) = read_line(text, 0);
        if !is_magic(text, first) {
            return Err(PpmError { line: 1, kind: PpmErrorKind::Magic });
        }
        if pos >= text.len() {
            return Ok(Pixmap::new(0, 0));
        }
        let (second, pos) = read_line(text, pos);
        assert(all[1] == second.of(text@));
        let (width, height) = match read_size(text, second) {
            Ok(size) => size,
            Err(kind) => {
                return Err(PpmError { line: 2, kind });
            },
        };
        let pixmap = Pixmap::new(width, height);
        if pos >= text.len() {
            proof {
                assert(all.len() == 2);
                assert(pixmap@.colors =~= picture(row_lines(all), width as nat, height as nat));
            }
            return Ok(pixmap);
        }
        let (_, pos) = read_line(text, pos);
        assert(row_lines(all) =~= lines(text@.skip(pos as int)));
        read_rows(text, pos, pixmap)
    }
}

} // verus!
