//! What writing and reading an image have to do with each other.

use crate::color::Color;
use crate::pixmap::Raster;
use crate::pixmap::lemma_place_in_range;
use crate::ppm::CHANNEL_MAX;
use crate::ppm::color_in;
use crate::ppm::depth;
use crate::ppm::first_channel_fault;
use crate::ppm::first_row_fault;
use crate::ppm::header_text;
use crate::ppm::magic;
use crate::ppm::picture;
use crate::ppm::pixel_text;
use crate::ppm::ppm_picture;
use crate::ppm::ppm_text;
use crate::ppm::row_fault;
use crate::ppm::row_line_fault;
use crate::ppm::row_lines;
use crate::ppm::row_text;
use crate::ppm::rows_text;
use crate::text::BLANK;
use crate::text::LINE_FEED;
use crate::text::decimal;
use crate::text::is_digit;
use crate::text::is_space;
use crate::text::lemma_decimal_reads_back;
use crate::text::lemma_lines_cons;
use crate::text::lemma_words_cons;
use crate::text::lemma_words_single;
use crate::text::lines;
use crate::text::number_up_to;
use crate::text::words;
use vstd::prelude::*;

verus! {

/// The words of row `y` of a raster as it is written, from column `x` on.
pub open spec fn row_words(r: Raster, y: int, x: int) -> Seq<Seq<u8>>
    decreases r.width - x,
{
    if x >= r.width {
        Seq::empty()
    } else {
        let c = r.at(x, y);
        seq![decimal(c.r as nat), decimal(c.g as nat), decimal(c.b as nat)] + row_words(
            r,
            y,
            x + 1,
        )
    }
}

/// The lines that the rows of a raster are written as, from the `k`-th on.
pub open spec fn written_rows(r: Raster, k: int) -> Seq<Seq<u8>> {
    Seq::new((r.height - k) as nat, |j: int| row_text(r, r.height - 1 - (k + j), 0))
}

/// A written number holds digits only.
proof fn lemma_decimal_plain(n: nat)
    ensures
        decimal(n).len() > 0,
        forall|i: int| 0 <= i < decimal(n).len() ==> is_digit(#[trigger] decimal(n)[i]),
        forall|i: int| 0 <= i < decimal(n).len() ==> !is_space(#[trigger] decimal(n)[i]),
{
    lemma_decimal_reads_back(n);
}

/// A written pixel holds digits and blanks only, and reads as three words.
proof fn lemma_pixel_words(c: Color, rest: Seq<u8>)
    ensures
        words(pixel_text(c) + rest) == seq![
            decimal(c.r as nat),
            decimal(c.g as nat),
            decimal(c.b as nat),
        ] + words(rest),
        forall|i: int|
            0 <= i < pixel_text(c).len() ==> is_digit(#[trigger] pixel_text(c)[i]) || pixel_text(
                c,
            )[i] == BLANK,
{
    let red = decimal(c.r as nat);
    let green = decimal(c.g as nat);
    let blue = decimal(c.b as nat);
    lemma_decimal_plain(c.r as nat);
    lemma_decimal_plain(c.g as nat);
    lemma_decimal_plain(c.b as nat);
    let after_blue = blue.push(BLANK) + rest;
    let after_green = green.push(BLANK) + after_blue;
    assert(pixel_text(c) + rest =~= red.push(BLANK) + after_green);
    lemma_words_cons(red, after_green);
    lemma_words_cons(green, after_blue);
    lemma_words_cons(blue, rest);
    assert(seq![red] + (seq![green] + (seq![blue] + words(rest))) =~= seq![red, green, blue]
        + words(rest));
    assert forall|i: int| 0 <= i < pixel_text(c).len() implies is_digit(
        #[trigger] pixel_text(c)[i],
    ) || pixel_text(c)[i] == BLANK by {
        let a = red.len() as int + 1;
        let b = a + green.len() as int + 1;
        if i < red.len() {
            assert(pixel_text(c)[i] == red[i]);
        } else if i < a {
        } else if i < a + green.len() {
            assert(pixel_text(c)[i] == green[i - a]);
        } else if i < b {
        } else if i < b + blue.len() {
            assert(pixel_text(c)[i] == blue[i - b]);
        }
    }
}

/// A written row holds digits and blanks only, and its words are the channel
/// values of its pixels.
proof fn lemma_row_words(r: Raster, y: int, x: int)
    requires
        0 <= x,
    ensures
        words(row_text(r, y, x)) == row_words(r, y, x),
        forall|i: int|
            0 <= i < row_text(r, y, x).len() ==> is_digit(#[trigger] row_text(r, y, x)[i])
                || row_text(r, y, x)[i] == BLANK,
    decreases r.width - x,
{
    if x < r.width {
        let c = r.at(x, y);
        let rest = row_text(r, y, x + 1);
        lemma_row_words(r, y, x + 1);
        lemma_pixel_words(c, rest);
        assert forall|i: int| 0 <= i < row_text(r, y, x).len() implies is_digit(
            #[trigger] row_text(r, y, x)[i],
        ) || row_text(r, y, x)[i] == BLANK by {
            if i < pixel_text(c).len() {
                assert(row_text(r, y, x)[i] == pixel_text(c)[i]);
            } else {
                assert(row_text(r, y, x)[i] == rest[i - pixel_text(c).len()]);
            }
        }
    }
}

/// The words of a written row: three for each pixel, which read back as the
/// pixel's colour.
proof fn lemma_row_words_at(r: Raster, y: int, x: int, j: int)
    requires
        0 <= x,
        0 <= j,
        x + j < r.width,
    ensures
        row_words(r, y, x).len() == 3 * (r.width - x),
        row_words(r, y, x)[3 * j] == decimal(r.at(x + j, y).r as nat),
        row_words(r, y, x)[3 * j + 1] == decimal(r.at(x + j, y).g as nat),
        row_words(r, y, x)[3 * j + 2] == decimal(r.at(x + j, y).b as nat),
    decreases r.width - x,
{
    lemma_row_words_len(r, y, x + 1);
    if j > 0 {
        lemma_row_words_at(r, y, x + 1, j - 1);
    }
}

/// A written row holds three words for each of its pixels.
proof fn lemma_row_words_len(r: Raster, y: int, x: int)
    requires
        0 <= x <= r.width,
    ensures
        row_words(r, y, x).len() == 3 * (r.width - x),
    decreases r.width - x,
{
    if x < r.width {
        lemma_row_words_len(r, y, x + 1);
    }
}

/// No word of a written row is at fault.
proof fn lemma_no_channel_fault(r: Raster, y: int, i: int)
    requires
        0 <= i,
    ensures
        first_channel_fault(row_words(r, y, 0), i) is None,
    decreases row_words(r, y, 0).len() - i,
{
    let row = row_words(r, y, 0);
    if i < row.len() {
        lemma_row_words_len(r, y, 0);
        let j = i / 3;
        lemma_row_words_at(r, y, 0, j);
        let c = r.at(j, y);
        lemma_decimal_reads_back(c.r as nat);
        lemma_decimal_reads_back(c.g as nat);
        lemma_decimal_reads_back(c.b as nat);
        assert(number_up_to(row[i], CHANNEL_MAX as nat) is Some);
        lemma_no_channel_fault(r, y, i + 1);
    }
}

/// The written rows of a raster are split into lines as they were written.
proof fn lemma_rows_lines(r: Raster, k: int)
    requires
        0 <= k <= r.height,
    ensures
        lines(rows_text(r, k)) == written_rows(r, k),
    decreases r.height - k,
{
    if k < r.height {
        let row = row_text(r, r.height - 1 - k, 0);
        let rest = rows_text(r, k + 1);
        lemma_rows_lines(r, k + 1);
        lemma_row_words(r, r.height - 1 - k, 0);
        assert forall|i: int| 0 <= i < row.len() implies row[i] != LINE_FEED by {
            assert(is_digit(row[i]) || row[i] == BLANK);
        }
        if row.len() > 0 {
            assert(is_digit(row[row.len() - 1]) || row[row.len() - 1] == BLANK);
        }
        lemma_lines_cons(row, rest);
        assert(seq![row] + written_rows(r, k + 1) =~= written_rows(r, k));
    } else {
        assert(written_rows(r, k) =~= Seq::<Seq<u8>>::empty());
    }
}

/// No written row is at fault.
proof fn lemma_no_row_fault(r: Raster, k: int)
    requires
        0 <= k,
    ensures
        first_row_fault(written_rows(r, 0), r.width, r.height, k) is None,
    decreases r.height - k,
{
    let rows = written_rows(r, 0);
    if k < rows.len() {
        let y = r.height - 1 - k;
        lemma_row_words(r, y, 0);
        lemma_row_words_len(r, y, 0);
        lemma_no_channel_fault(r, y, 0);
        assert(row_fault(rows[k], r.width) is None);
        assert(row_line_fault(rows, r.width, r.height, k) is None);
        lemma_no_row_fault(r, k + 1);
    }
}

/// The header of a written raster is split into its three lines.
proof fn lemma_header_lines(r: Raster, rest: Seq<u8>)
    ensures
        lines(header_text(r) + rest) == seq![
            magic(),
            decimal(r.width).push(BLANK) + decimal(r.height),
            depth(),
        ] + lines(rest),
        words(decimal(r.width).push(BLANK) + decimal(r.height)) == seq![
            decimal(r.width),
            decimal(r.height),
        ],
{
    let sizes = decimal(r.width).push(BLANK) + decimal(r.height);
    lemma_decimal_plain(r.width);
    lemma_decimal_plain(r.height);
    lemma_words_cons(decimal(r.width), decimal(r.height));
    lemma_words_single(decimal(r.height));
    assert(seq![decimal(r.width)] + seq![decimal(r.height)] =~= seq![
        decimal(r.width),
        decimal(r.height),
    ]);
    assert forall|i: int| 0 <= i < sizes.len() implies is_digit(#[trigger] sizes[i]) || sizes[i]
        == BLANK by {
        if i < decimal(r.width).len() {
            assert(sizes[i] == decimal(r.width)[i]);
        } else if i > decimal(r.width).len() {
            assert(sizes[i] == decimal(r.height)[i - decimal(r.width).len() - 1]);
        }
    }
    assert(is_digit(sizes[sizes.len() - 1]) || sizes[sizes.len() - 1] == BLANK);
    let third = depth().push(LINE_FEED) + rest;
    let second = sizes.push(LINE_FEED) + third;
    assert(header_text(r) + rest =~= magic().push(LINE_FEED) + second);
    lemma_lines_cons(magic(), second);
    lemma_lines_cons(sizes, third);
    lemma_lines_cons(depth(), rest);
    assert(seq![magic()] + (seq![sizes] + (seq![depth()] + lines(rest))) =~= seq![
        magic(),
        sizes,
        depth(),
    ] + lines(rest));
}

/// Writing a frame buffer and reading the text again gives the frame buffer
/// back: the same size, and the same colour in every pixel. This holds for
/// every size, an image without pixels and an image of one pixel included.
pub proof fn lemma_written_image_reads_back(r: Raster)
    requires
        r.wf(),
    ensures
        ppm_picture(ppm_text(r)) == Ok::<Raster, crate::ppm::PpmFault>(r),
{
    let text = ppm_text(r);
    let all = lines(text);
    let rows = written_rows(r, 0);
    lemma_header_lines(r, rows_text(r, 0));
    lemma_rows_lines(r, 0);
    lemma_decimal_reads_back(r.width);
    lemma_decimal_reads_back(r.height);
    assert(all.len() == 3 + rows.len());
    assert(row_lines(all) =~= rows);
    lemma_no_row_fault(r, 0);
    let read = picture(rows, r.width, r.height);
    assert(read =~= r.colors) by {
        assert forall|i: int| 0 <= i < read.len() implies read[i] == r.colors[i] by {
            let h = r.height as int;
            lemma_place_in_range(r.width as int, h, i);
            let x = i / h;
            let y = i % h;
            let k = h - 1 - y;
            assert(rows[k] == row_text(r, y, 0));
            lemma_row_words(r, y, 0);
            lemma_row_words_at(r, y, 0, x);
            let c = r.at(x, y);
            lemma_decimal_reads_back(c.r as nat);
            lemma_decimal_reads_back(c.g as nat);
            lemma_decimal_reads_back(c.b as nat);
            assert(color_in(row_words(r, y, 0), x) == c);
        }
    }
}

} // verus!
