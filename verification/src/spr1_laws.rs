//! What holds of every row and frame of the older format: what a decoder
//! reads back, where pad bytes stand, and when a run is repeated.

use vstd::prelude::*;
use crate::error::FrameError;
use crate::pixels::{all_equal_to, blank_rows, lemma_row_bounds, pixel_row, PixelBuffer};
use crate::spr1::{
    encoding, end_marker, frame_bytes, frame_header, literal_rest, opaque_command,
    repeat_command, row_block, row_commands, row_commands_from, row_counts_fit_from, row_fits,
    rows_fit_from, rows_from, same_after, start_marker, stored_pixels,
    transparent_rows_command, MAX_COUNT, OPAQUE, OPAQUE_REPEAT, REPEAT_THRESHOLD, START_ROW,
    TRANSPARENT, TRANSPARENT_ROWS,
};

verus! {

/// `n` pixels of the value `pixel`.
pub open spec fn repeated(pixel: u8, n: int) -> Seq<u8> {
    Seq::new(n as nat, |k: int| pixel)
}

/// The run that starts at `i` lies in the row, holds one value, and ends
/// where the row ends or the value changes.
pub proof fn lemma_run(row: Seq<u8>, i: int)
    requires
        0 <= i < row.len(),
    ensures
        i + 1 + same_after(row, i) <= row.len(),
        forall|k: int| i <= k <= i + same_after(row, i) ==> row[k] == row[i],
        i + 1 + same_after(row, i) < row.len() ==> row[i + 1 + same_after(row, i)] != row[i],
    decreases row.len() - i,
{
    if i + 1 < row.len() && row[i + 1] == row[i] {
        lemma_run(row, i + 1);
    }
}

/// Pixels of one value from `i` up to `j`, with another value or the end of
/// the row behind them, are the run that starts at `i`.
pub proof fn lemma_run_is(row: Seq<u8>, i: int, j: int)
    requires
        0 <= i < j <= row.len(),
        forall|k: int| i <= k < j ==> row[k] == row[i],
        j < row.len() ==> row[j] != row[i],
    ensures
        1 + same_after(row, i) == j - i,
    decreases j - i,
{
    if i + 1 < j {
        lemma_run_is(row, i + 1, j);
    }
}

/// The pixels that join a pending literal run lie in the row, and none of
/// them is transparent.
pub proof fn lemma_literal(row: Seq<u8>, t: u8, i: int)
    requires
        0 <= i <= row.len(),
    ensures
        i + literal_rest(row, t, i) <= row.len(),
        forall|k: int| i <= k < i + literal_rest(row, t, i) ==> row[k] != t,
    decreases row.len() - i,
{
    if i < row.len() && row[i] != t {
        lemma_run(row, i);
        let n: int = 1 + same_after(row, i) as int;
        if n < REPEAT_THRESHOLD {
            lemma_literal(row, t, i + n);
        }
    }
}

/// A literal run takes its count, its pixels, and one zero byte more where
/// the count is odd: its length is always even.
pub proof fn law_opaque_padding(pixels: Seq<u8>, real_palette: bool)
    ensures
        opaque_command(pixels, real_palette).len() == 2 + pixels.len() + pixels.len() % 2,
        opaque_command(pixels, real_palette).subrange(2, 2 + pixels.len() as int) == stored_pixels(
            pixels,
            real_palette,
        ),
        pixels.len() % 2 == 1 ==> opaque_command(pixels, real_palette).last() == 0,
        opaque_command(pixels, real_palette).len() % 2 == 0,
{
    assert(opaque_command(pixels, real_palette).subrange(2, 2 + pixels.len() as int) =~= stored_pixels(
        pixels,
        real_palette,
    ));
}

/// The commands of a row take an even number of bytes.
pub proof fn law_row_length_even(row: Seq<u8>, t: u8, real_palette: bool, i: int)
    requires
        0 <= i <= row.len(),
    ensures
        row_commands_from(row, t, real_palette, i).len() % 2 == 0,
    decreases row.len() - i,
{
    if i < row.len() {
        lemma_run(row, i);
        let n: int = 1 + same_after(row, i) as int;
        if row[i] == t {
            if i + n < row.len() {
                law_row_length_even(row, t, real_palette, i + n);
            }
        } else if n >= REPEAT_THRESHOLD {
            law_row_length_even(row, t, real_palette, i + n);
        } else {
            lemma_literal(row, t, i + n);
            let m: int = n + literal_rest(row, t, i + n) as int;
            law_opaque_padding(row.subrange(i, i + m), real_palette);
            law_row_length_even(row, t, real_palette, i + m);
        }
    }
}

/// Seven equal pixels that are not transparent are one literal run.
pub proof fn law_seven_equal_pixels_are_literal(pixel: u8, t: u8, real_palette: bool)
    requires
        pixel != t,
    ensures
        row_commands(repeated(pixel, 7), t, real_palette) == opaque_command(
            repeated(pixel, 7),
            real_palette,
        ),
{
    let row = repeated(pixel, 7);
    lemma_run_is(row, 0, 7);
    assert(literal_rest(row, t, 7) == 0);
    assert(row.subrange(0, 7) =~= row);
    assert(row_commands_from(row, t, real_palette, 7) =~= Seq::<u8>::empty());
    assert(row_commands(row, t, real_palette) =~= opaque_command(row, real_palette));
}

/// Eight equal pixels that are not transparent, with no literal run
/// pending, are one repeat command.
pub proof fn law_eight_equal_pixels_are_repeated(pixel: u8, t: u8, real_palette: bool)
    requires
        pixel != t,
    ensures
        row_commands(repeated(pixel, 8), t, real_palette) == repeat_command(
            8,
            pixel,
            real_palette,
        ),
{
    let row = repeated(pixel, 8);
    lemma_run_is(row, 0, 8);
    assert(row_commands_from(row, t, real_palette, 8) =~= Seq::<u8>::empty());
    assert(row_commands(row, t, real_palette) =~= repeat_command(8, pixel, real_palette));
}

/// A run that reaches the threshold behind a pending literal run closes the
/// literal run first and then becomes a repeat command of its own: here
/// `k` pixels of one colour, fewer than the threshold, and `n` pixels of
/// another, at least the threshold.
pub proof fn law_repeat_flushes_pending_literal(
    first: u8,
    k: int,
    second: u8,
    n: int,
    t: u8,
    real_palette: bool,
)
    requires
        first != t,
        second != t,
        first != second,
        1 <= k < REPEAT_THRESHOLD,
        REPEAT_THRESHOLD <= n,
    ensures
        row_commands(repeated(first, k) + repeated(second, n), t, real_palette) == opaque_command(
            repeated(first, k),
            real_palette,
        ) + repeat_command(n, second, real_palette),
{
    let row = repeated(first, k) + repeated(second, n);
    lemma_run_is(row, 0, k);
    lemma_run_is(row, k, k + n);
    assert(literal_rest(row, t, k) == 0);
    assert(row.subrange(0, k) =~= repeated(first, k));
    assert(row_commands_from(row, t, real_palette, k + n) =~= Seq::<u8>::empty());
    assert(row_commands_from(row, t, real_palette, k) =~= repeat_command(
        n,
        second,
        real_palette,
    ));
}

/// The pixels that the commands of a row stand for, as a decoder reads
/// them: a transparent run is the transparent colour repeated, a repeat
/// command its colour repeated, a literal run its pixels.
pub open spec fn decoded_row(body: Seq<u8>, t: u8) -> Seq<u8>
    decreases body.len(),
{
    if body.len() < 2 {
        Seq::empty()
    } else {
        let n: int = body[1] as int;
        if body[0] == TRANSPARENT {
            repeated(t, n) + decoded_row(body.skip(2), t)
        } else if body[0] == OPAQUE_REPEAT && body.len() >= 4 {
            repeated(body[2], n) + decoded_row(body.skip(4), t)
        } else if body[0] == OPAQUE && body.len() >= 2 + n + n % 2 {
            body.subrange(2, 2 + n) + decoded_row(body.skip(2 + n + n % 2), t)
        } else {
            Seq::empty()
        }
    }
}

/// The pixels of `row` from `i` on are what a decoder reads from their
/// commands, and transparent pixels behind that up to the end of the row.
pub proof fn lemma_round_trip_from(row: Seq<u8>, t: u8, i: int)
    requires
        0 <= i <= row.len(),
        row_counts_fit_from(row, t, i),
    ensures
        decoded_row(row_commands_from(row, t, true, i), t).len() <= row.len() - i,
        row.skip(i) == decoded_row(row_commands_from(row, t, true, i), t) + repeated(
            t,
            row.len() - i - decoded_row(row_commands_from(row, t, true, i), t).len(),
        ),
    decreases row.len() - i,
{
    let body = row_commands_from(row, t, true, i);
    if i >= row.len() {
        assert(row.skip(i) =~= decoded_row(body, t) + repeated(t, 0));
    } else {
        lemma_run(row, i);
        let n: int = 1 + same_after(row, i) as int;
        if row[i] == t {
            if i + n >= row.len() {
                assert(row.skip(i) =~= decoded_row(body, t) + repeated(t, row.len() - i));
            } else {
                let rest = row_commands_from(row, t, true, i + n);
                lemma_round_trip_from(row, t, i + n);
                assert(body.skip(2) =~= rest);
                assert(decoded_row(body, t) == repeated(t, n) + decoded_row(rest, t));
                assert(row.skip(i) =~= repeated(t, n) + row.skip(i + n));
                assert(row.skip(i) =~= decoded_row(body, t) + repeated(
                    t,
                    row.len() - i - decoded_row(body, t).len(),
                ));
            }
        } else if n >= REPEAT_THRESHOLD {
            let rest = row_commands_from(row, t, true, i + n);
            lemma_round_trip_from(row, t, i + n);
            assert(body.skip(4) =~= rest);
            assert(decoded_row(body, t) == repeated(row[i], n) + decoded_row(rest, t));
            assert(row.skip(i) =~= repeated(row[i], n) + row.skip(i + n));
            assert(row.skip(i) =~= decoded_row(body, t) + repeated(
                t,
                row.len() - i - decoded_row(body, t).len(),
            ));
        } else {
            lemma_literal(row, t, i + n);
            let m: int = n + literal_rest(row, t, i + n) as int;
            let pixels = row.subrange(i, i + m);
            let rest = row_commands_from(row, t, true, i + m);
            lemma_round_trip_from(row, t, i + m);
            law_opaque_padding(pixels, true);
            assert(stored_pixels(pixels, true) =~= pixels);
            assert(body.skip(2 + m + m % 2) =~= rest);
            assert(body.subrange(2, 2 + m) =~= pixels);
            assert(decoded_row(body, t) == pixels + decoded_row(rest, t));
            assert(row.skip(i) =~= pixels + row.skip(i + m));
            assert(row.skip(i) =~= decoded_row(body, t) + repeated(
                t,
                row.len() - i - decoded_row(body, t).len(),
            ));
        }
    }
}

/// Decoding the commands of a row gives the row back: its pixels up to the
/// last one that is not transparent, which the transparent colour then
/// fills up to the width. This holds of every row whose counts fit, in a
/// sprite with a palette of its own, whose pixels are stored as they are.
pub proof fn law_row_round_trip(row: Seq<u8>, t: u8)
    requires
        row_counts_fit_from(row, t, 0),
    ensures
        decoded_row(row_commands(row, t, true), t).len() <= row.len(),
        row == decoded_row(row_commands(row, t, true), t) + repeated(
            t,
            row.len() - decoded_row(row_commands(row, t, true), t).len(),
        ),
{
    lemma_round_trip_from(row, t, 0);
    assert(row.skip(0) =~= row);
}

/// Rows in which every pixel is transparent, from row `y` to the last, are
/// counted together.
pub proof fn lemma_all_rows_blank(pixels: Seq<u8>, w: int, h: int, t: u8, y: int)
    requires
        0 <= w,
        0 <= y <= h,
        pixels.len() == w * h,
        all_equal_to(pixels, t),
    ensures
        blank_rows(pixels, w, h, t, y) == h - y,
    decreases h - y,
{
    if y < h {
        lemma_row_bounds(w, h, y);
        lemma_all_rows_blank(pixels, w, h, t, y + 1);
    }
}

/// A frame of at least one row in which every pixel is transparent is its
/// header, the start marker, one command that skips all its rows, and the
/// end marker: no row is encoded by itself.
pub proof fn law_blank_frame(buffer: &PixelBuffer, t: u8, real_palette: bool)
    requires
        buffer.wf(),
        1 <= buffer.height <= MAX_COUNT,
        buffer.width <= u16::MAX,
        all_equal_to(buffer.pixels@, t),
    ensures
        encoding(buffer, t, real_palette) == Ok::<Seq<u8>, FrameError>(
            frame_header(buffer.width as int, buffer.height as int) + start_marker()
                + transparent_rows_command(buffer.height as int) + end_marker(),
        ),
{
    let w = buffer.width as int;
    let h = buffer.height as int;
    lemma_all_rows_blank(buffer.pixels@, w, h, t, 0);
    assert(rows_from(buffer.pixels@, w, h, t, real_palette, h) =~= Seq::<u8>::empty());
    assert(rows_from(buffer.pixels@, w, h, t, real_palette, 0) =~= transparent_rows_command(h));
    assert(rows_fit_from(buffer.pixels@, w, h, t, real_palette, h));
}

/// Whether pixels are stored as they are or as zeros changes no length.
pub proof fn law_palette_keeps_lengths(row: Seq<u8>, t: u8, i: int)
    requires
        0 <= i <= row.len(),
    ensures
        row_commands_from(row, t, true, i).len() == row_commands_from(row, t, false, i).len(),
    decreases row.len() - i,
{
    if i < row.len() {
        lemma_run(row, i);
        let n: int = 1 + same_after(row, i) as int;
        if row[i] == t {
            if i + n < row.len() {
                law_palette_keeps_lengths(row, t, i + n);
            }
        } else if n >= REPEAT_THRESHOLD {
            law_palette_keeps_lengths(row, t, i + n);
        } else {
            lemma_literal(row, t, i + n);
            let m: int = n + literal_rest(row, t, i + n) as int;
            law_palette_keeps_lengths(row, t, i + m);
        }
    }
}

/// Whether a row can be encoded does not depend on the palette.
pub proof fn law_palette_keeps_fit(row: Seq<u8>, t: u8)
    ensures
        row_fits(row, t, true) == row_fits(row, t, false),
{
    law_palette_keeps_lengths(row, t, 0);
}

/// The pixels that the encoded rows of a frame of width `w` stand for, as
/// a decoder reads them: a command that skips rows is so many rows of the
/// transparent colour; a row is what its commands stand for, filled up to
/// the width with the transparent colour.
pub open spec fn decoded_rows(rows: Seq<u8>, w: int, t: u8) -> Seq<u8>
    decreases rows.len(),
{
    if rows.len() < 2 {
        Seq::empty()
    } else if rows[0] == TRANSPARENT_ROWS {
        repeated(t, rows[1] * w) + decoded_rows(rows.skip(2), w, t)
    } else if rows[0] == START_ROW && 2 <= rows[1] <= rows.len() {
        let row = decoded_row(rows.subrange(2, rows[1] as int), t);
        row + repeated(t, w - row.len()) + decoded_rows(rows.skip(rows[1] as int), w, t)
    } else {
        Seq::empty()
    }
}

/// In the rows that are counted as blank from row `y` on, every pixel is
/// transparent, and they lie in the raster.
pub proof fn lemma_blank_rows(pixels: Seq<u8>, w: int, h: int, t: u8, y: int)
    requires
        0 <= w,
        0 <= y <= h,
        pixels.len() == w * h,
    ensures
        y + blank_rows(pixels, w, h, t, y) <= h,
        y * w + blank_rows(pixels, w, h, t, y) * w == (y + blank_rows(pixels, w, h, t, y)) * w,
        0 <= y * w <= (y + blank_rows(pixels, w, h, t, y)) * w <= pixels.len(),
        forall|i: int|
            y * w <= i < (y + blank_rows(pixels, w, h, t, y)) * w ==> #[trigger] pixels[i] == t,
    decreases h - y,
{
    let k = blank_rows(pixels, w, h, t, y) as int;
    assert(y * w + k * w == (y + k) * w) by (nonlinear_arith);
    assert(0 <= y * w) by (nonlinear_arith)
        requires
            0 <= y,
            0 <= w,
    ;
    if k > 0 {
        lemma_row_bounds(w, h, y);
        lemma_blank_rows(pixels, w, h, t, y + 1);
        let row = pixel_row(pixels, w, y);
        assert((y + 1) * w + (k - 1) * w == (y + k) * w) by (nonlinear_arith);
        assert forall|i: int| y * w <= i < (y + k) * w implies #[trigger] pixels[i] == t by {
            if i < y * w + w {
                assert(row[i - y * w] == t);
            }
        }
    } else {
        assert(y * w <= pixels.len()) by (nonlinear_arith)
            requires
                0 <= y <= h,
                0 <= w,
                pixels.len() == w * h,
        ;
    }
}

/// The pixels from row `y` on are what a decoder reads from their encoded
/// rows.
pub proof fn lemma_rows_round_trip(pixels: Seq<u8>, w: int, h: int, t: u8, y: int)
    requires
        0 <= w,
        0 <= y <= h,
        pixels.len() == w * h,
        rows_fit_from(pixels, w, h, t, true, y),
    ensures
        0 <= y * w <= pixels.len(),
        decoded_rows(rows_from(pixels, w, h, t, true, y), w, t) == pixels.skip(y * w),
    decreases h - y,
{
    let rows = rows_from(pixels, w, h, t, true, y);
    lemma_blank_rows(pixels, w, h, t, y);
    if y >= h {
        assert(y * w == w * h) by (nonlinear_arith)
            requires
                y == h,
        ;
        assert(decoded_rows(rows, w, t) =~= pixels.skip(y * w));
    } else {
        let k: int = blank_rows(pixels, w, h, t, y) as int;
        if k >= 1 {
            let rest = rows_from(pixels, w, h, t, true, y + k);
            lemma_rows_round_trip(pixels, w, h, t, y + k);
            assert(rows.skip(2) =~= rest);
            assert(rows[1] == k);
            assert(decoded_rows(rows, w, t) == repeated(t, k * w) + decoded_rows(rest, w, t));
            assert(pixels.skip(y * w) =~= repeated(t, k * w) + pixels.skip((y + k) * w));
        } else {
            let row = pixel_row(pixels, w, y);
            let body = row_commands(row, t, true);
            let rest = rows_from(pixels, w, h, t, true, y + 1);
            lemma_row_bounds(w, h, y);
            lemma_rows_round_trip(pixels, w, h, t, y + 1);
            law_row_round_trip(row, t);
            assert(rows =~= row_block(body) + rest);
            assert(rows[1] == 2 + body.len());
            assert(rows.subrange(2, rows[1] as int) =~= body);
            assert(rows.skip(rows[1] as int) =~= rest);
            let decoded = decoded_row(body, t);
            assert(decoded_rows(rows, w, t) == decoded + repeated(t, w - decoded.len())
                + decoded_rows(rest, w, t));
            assert(pixels.skip(y * w) =~= row + pixels.skip((y + 1) * w));
        }
    }
}

/// Decoding a frame gives its pixels back: behind the header and the start
/// marker and before the end marker stand rows that a decoder reads as the
/// raster that was encoded. This holds of every frame that can be encoded,
/// in a sprite with a palette of its own.
pub proof fn law_frame_round_trip(buffer: &PixelBuffer, t: u8)
    requires
        encoding(buffer, t, true) is Ok,
    ensures
        encoding(buffer, t, true).unwrap().len() >= 12,
        encoding(buffer, t, true).unwrap().subrange(0, 8) == frame_header(
            buffer.width as int,
            buffer.height as int,
        ),
        decoded_rows(
            encoding(buffer, t, true).unwrap().subrange(
                10,
                encoding(buffer, t, true).unwrap().len() - 2,
            ),
            buffer.width as int,
            t,
        ) == buffer.pixels@,
{
    let w = buffer.width as int;
    let h = buffer.height as int;
    let bytes = frame_bytes(buffer.pixels@, w, h, t, true);
    let rows = rows_from(buffer.pixels@, w, h, t, true, 0);
    lemma_rows_round_trip(buffer.pixels@, w, h, t, 0);
    assert(bytes.subrange(0, 8) =~= frame_header(w, h));
    assert(bytes.subrange(10, bytes.len() - 2) =~= rows);
    assert(buffer.pixels@.skip(0) =~= buffer.pixels@);
}

} // verus!
