//! The older sprite format: one channel of palette indices per frame, with
//! one-byte commands and one-byte counts.
//!
//! A frame is a header, a start marker, the encoded rows and an end marker.
//! A row is a start-of-row command that wraps the commands of the row.
//! Everything here is stated over the plain sequence of pixel bytes.

use vstd::prelude::*;
use crate::bytes::{le16, le32, padding, push_all, push_le16, push_le32};
use crate::error::FrameError;
use crate::pixels::{
    blank_rows, count_blank_rows, pixel_row, remaining, row_slice, rows_left, PixelBuffer,
};

verus! {

pub const START_SPRITE: u8 = 0;

pub const TRANSPARENT: u8 = 1;

pub const OPAQUE_REPEAT: u8 = 2;

pub const OPAQUE: u8 = 3;

pub const START_ROW: u8 = 4;

pub const END_SPRITE: u8 = 5;

pub const TRANSPARENT_ROWS: u8 = 9;

/// Equal pixels in a row are worth a repeat command from this many on.
pub const REPEAT_THRESHOLD: usize = 8;

/// The largest count that a command can carry.
pub const MAX_COUNT: usize = 255;

/// Number of pixels directly after position `i` that continue the run of
/// equal values that the pixel at `i` starts.
pub open spec fn same_after(row: Seq<u8>, i: int) -> nat
    decreases row.len() - i,
{
    if 0 <= i && i + 1 < row.len() && row[i + 1] == row[i] {
        1 + same_after(row, i + 1)
    } else {
        0
    }
}

/// Number of pixels from position `i` on that join a literal run which is
/// already pending: whole runs of equal non-transparent pixels, each shorter
/// than the repeat threshold.
pub open spec fn literal_rest(row: Seq<u8>, t: u8, i: int) -> nat
    decreases remaining(row, i),
{
    if i < 0 || i >= row.len() || row[i] == t {
        0
    } else {
        let n: int = 1 + same_after(row, i) as int;
        if n >= REPEAT_THRESHOLD {
            0
        } else {
            (n + literal_rest(row, t, i + n)) as nat
        }
    }
}

/// What is stored for a pixel: its value, or zero where the sprite has no
/// palette of its own.
pub open spec fn stored_pixel(pixel: u8, real_palette: bool) -> u8 {
    if real_palette {
        pixel
    } else {
        0
    }
}

/// What is stored for a run of pixels.
pub open spec fn stored_pixels(pixels: Seq<u8>, real_palette: bool) -> Seq<u8> {
    Seq::new(pixels.len(), |k: int| stored_pixel(pixels[k], real_palette))
}

/// A run of `n` transparent pixels.
pub open spec fn transparent_command(n: int) -> Seq<u8> {
    seq![TRANSPARENT, n as u8]
}

/// A run of `n` pixels of the same colour.
pub open spec fn repeat_command(n: int, pixel: u8, real_palette: bool) -> Seq<u8> {
    seq![OPAQUE_REPEAT, n as u8, stored_pixel(pixel, real_palette), 0u8]
}

/// A literal run: the count, the pixels, and a pad byte after an odd count.
pub open spec fn opaque_command(pixels: Seq<u8>, real_palette: bool) -> Seq<u8> {
    seq![OPAQUE, pixels.len() as u8] + stored_pixels(pixels, real_palette) + padding(pixels.len())
}

/// The commands for the pixels of `row` from position `i` on, where `i` is
/// the start of a run. Transparent pixels up to the end of the row are left
/// out.
pub open spec fn row_commands_from(row: Seq<u8>, t: u8, real_palette: bool, i: int) -> Seq<u8>
    decreases remaining(row, i),
{
    if i < 0 || i >= row.len() {
        Seq::empty()
    } else {
        let n: int = 1 + same_after(row, i) as int;
        if row[i] == t {
            if i + n >= row.len() {
                Seq::empty()
            } else {
                transparent_command(n) + row_commands_from(row, t, real_palette, i + n)
            }
        } else if n >= REPEAT_THRESHOLD {
            repeat_command(n, row[i], real_palette) + row_commands_from(
                row,
                t,
                real_palette,
                i + n,
            )
        } else {
            let m: int = n + literal_rest(row, t, i + n) as int;
            opaque_command(row.subrange(i, i + m), real_palette) + row_commands_from(
                row,
                t,
                real_palette,
                i + m,
            )
        }
    }
}

/// The commands of a whole row.
pub open spec fn row_commands(row: Seq<u8>, t: u8, real_palette: bool) -> Seq<u8> {
    row_commands_from(row, t, real_palette, 0)
}

/// Every count of the commands from position `i` on fits in one byte.
pub open spec fn row_counts_fit_from(row: Seq<u8>, t: u8, i: int) -> bool
    decreases remaining(row, i),
{
    if i < 0 || i >= row.len() {
        true
    } else {
        let n: int = 1 + same_after(row, i) as int;
        if row[i] == t {
            i + n >= row.len() || (n <= MAX_COUNT && row_counts_fit_from(row, t, i + n))
        } else if n >= REPEAT_THRESHOLD {
            n <= MAX_COUNT && row_counts_fit_from(row, t, i + n)
        } else {
            let m: int = n + literal_rest(row, t, i + n) as int;
            m <= MAX_COUNT && row_counts_fit_from(row, t, i + m)
        }
    }
}

/// The row can be encoded: every count fits in one byte, and so does the
/// length of the row, which counts its own two bytes.
pub open spec fn row_fits(row: Seq<u8>, t: u8, real_palette: bool) -> bool {
    row_counts_fit_from(row, t, 0) && 2 + row_commands(row, t, real_palette).len() <= MAX_COUNT
}

/// Length of the run of equal pixels that starts at `i`.
pub fn run_length(row: &[u8], i: usize) -> (n: usize)
    requires
        i < row@.len(),
    ensures
        n == 1 + same_after(row@, i as int),
        i + n <= row@.len(),
{
    let first: u8 = row[i];
    let mut j: usize = i + 1;
    while j < row.len() && row[j] == first
        invariant
            i < j <= row@.len(),
            row@[j - 1] == first,
            same_after(row@, i as int) == (j - 1 - i) + same_after(row@, j - 1),
        decreases row@.len() - j,
    {
        j += 1;
    }
    j - i
}

/// Appends what is stored for the pixels of `row` from `from` up to `to`.
fn push_stored(out: &mut Vec<u8>, row: &[u8], from: usize, to: usize, real_palette: bool)
    requires
        from <= to <= row@.len(),
    ensures
        final(out)@ == old(out)@ + stored_pixels(row@.subrange(from as int, to as int), real_palette),
{
    let mut k: usize = from;
    while k < to
        invariant
            from <= k <= to <= row@.len(),
            out@ == old(out)@ + stored_pixels(row@.subrange(from as int, k as int), real_palette),
        decreases to - k,
    {
        let pixel: u8 = if real_palette {
            row[k]
        } else {
            0
        };
        out.push(pixel);
        k += 1;
        assert(out@ =~= old(out)@ + stored_pixels(
            row@.subrange(from as int, k as int),
            real_palette,
        ));
    }
}

/// Appends a literal run of the pixels of `row` from `from` up to `to`.
pub fn push_opaque(out: &mut Vec<u8>, row: &[u8], from: usize, to: usize, real_palette: bool)
    requires
        from <= to <= row@.len(),
        to - from <= MAX_COUNT,
    ensures
        final(out)@ == old(out)@ + opaque_command(
            row@.subrange(from as int, to as int),
            real_palette,
        ),
{
    let count: usize = to - from;
    out.push(OPAQUE);
    out.push(count as u8);
    push_stored(out, row, from, to, real_palette);
    if count % 2 == 1 {
        out.push(0);
    }
    assert(out@ =~= old(out)@ + opaque_command(
        row@.subrange(from as int, to as int),
        real_palette,
    ));
}

/// Encodes one row. The result is `None` where a count or the length of the
/// row does not fit in one byte.
pub fn encode_row(row: &[u8], transparent: u8, real_palette: bool) -> (r: Option<Vec<u8>>)
    ensures
        r.is_some() == row_fits(row@, transparent, real_palette),
        r matches Some(body) ==> body@ == row_commands(row@, transparent, real_palette),
{
    let w: usize = row.len();
    let mut out: Vec<u8> = Vec::new();
    let mut i: usize = 0;
    while i < w
        invariant
            i <= w,
            w == row@.len(),
            row_commands(row@, transparent, real_palette) == out@ + row_commands_from(
                row@,
                transparent,
                real_palette,
                i as int,
            ),
            row_counts_fit_from(row@, transparent, 0) == row_counts_fit_from(
                row@,
                transparent,
                i as int,
            ),
        decreases w - i,
    {
        let ghost before = out@;
        let n: usize = run_length(row, i);
        if row[i] == transparent {
            if i + n == w {
                i = w;
            } else {
                if n > MAX_COUNT {
                    return None;
                }
                out.push(TRANSPARENT);
                out.push(n as u8);
                assert(out@ =~= before + transparent_command(n as int));
                i += n;
            }
        } else if n >= REPEAT_THRESHOLD {
            if n > MAX_COUNT {
                return None;
            }
            let pixel: u8 = if real_palette {
                row[i]
            } else {
                0
            };
            out.push(OPAQUE_REPEAT);
            out.push(n as u8);
            out.push(pixel);
            out.push(0);
            assert(out@ =~= before + repeat_command(n as int, row@[i as int], real_palette));
            i += n;
        } else {
            let mut j: usize = i + n;
            let mut more: bool = true;
            while more && j < w
                invariant
                    i + n <= j <= w,
                    w == row@.len(),
                    n + literal_rest(row@, transparent, i + n) == (j - i) + if more {
                        literal_rest(row@, transparent, j as int)
                    } else {
                        0
                    },
                decreases (w - j) + if more { 1int } else { 0int },
            {
                if row[j] == transparent {
                    more = false;
                } else {
                    let k: usize = run_length(row, j);
                    if k >= REPEAT_THRESHOLD {
                        more = false;
                    } else {
                        j += k;
                    }
                }
            }
            if j - i > MAX_COUNT {
                return None;
            }
            push_opaque(&mut out, row, i, j, real_palette);
            i = j;
        }
    }
    if out.len() > MAX_COUNT - 2 {
        return None;
    }
    Some(out)
}

/// `k` rows in which every pixel is transparent.
pub open spec fn transparent_rows_command(k: int) -> Seq<u8> {
    seq![TRANSPARENT_ROWS, k as u8]
}

/// A row: its length, which counts the two bytes of this command, and its
/// commands.
pub open spec fn row_block(body: Seq<u8>) -> Seq<u8> {
    seq![START_ROW, (2 + body.len()) as u8] + body
}

/// The encoding of the rows from row `y` on. Rows in which every pixel is
/// transparent are skipped together; every other row is encoded by itself.
pub open spec fn rows_from(
    pixels: Seq<u8>,
    w: int,
    h: int,
    t: u8,
    real_palette: bool,
    y: int,
) -> Seq<u8>
    decreases rows_left(h, y),
{
    if y < 0 || y >= h {
        Seq::empty()
    } else {
        let k: int = blank_rows(pixels, w, h, t, y) as int;
        if k >= 1 {
            transparent_rows_command(k) + rows_from(pixels, w, h, t, real_palette, y + k)
        } else {
            row_block(row_commands(pixel_row(pixels, w, y), t, real_palette)) + rows_from(
                pixels,
                w,
                h,
                t,
                real_palette,
                y + 1,
            )
        }
    }
}

/// Every count and every row length from row `y` on fits in one byte.
pub open spec fn rows_fit_from(
    pixels: Seq<u8>,
    w: int,
    h: int,
    t: u8,
    real_palette: bool,
    y: int,
) -> bool
    decreases rows_left(h, y),
{
    if y < 0 || y >= h {
        true
    } else {
        let k: int = blank_rows(pixels, w, h, t, y) as int;
        if k >= 1 {
            k <= MAX_COUNT && rows_fit_from(pixels, w, h, t, real_palette, y + k)
        } else {
            row_fits(pixel_row(pixels, w, y), t, real_palette) && rows_fit_from(
                pixels,
                w,
                h,
                t,
                real_palette,
                y + 1,
            )
        }
    }
}

/// The header of a frame: four reserved bytes, the height and the width.
pub open spec fn frame_header(w: int, h: int) -> Seq<u8> {
    le32(0) + le16(h as u16) + le16(w as u16)
}

/// The marker that opens the commands of a frame.
pub open spec fn start_marker() -> Seq<u8> {
    seq![START_SPRITE, 0u8]
}

/// The marker that closes a frame.
pub open spec fn end_marker() -> Seq<u8> {
    seq![END_SPRITE, 0u8]
}

/// The bytes of a frame of `w` by `h` pixels.
pub open spec fn frame_bytes(pixels: Seq<u8>, w: int, h: int, t: u8, real_palette: bool) -> Seq<
    u8,
> {
    frame_header(w, h) + start_marker() + rows_from(pixels, w, h, t, real_palette, 0)
        + end_marker()
}

/// The frame can be encoded: its dimensions fit their 16-bit fields, and
/// every count and row length fits in one byte.
pub open spec fn frame_fits(pixels: Seq<u8>, w: int, h: int, t: u8, real_palette: bool) -> bool {
    w <= u16::MAX && h <= u16::MAX && rows_fit_from(pixels, w, h, t, real_palette, 0)
}

/// What encoding the frame gives: `Decode` where the number of pixels is
/// not the product of the dimensions, otherwise `Overflow` where a
/// dimension, a count or a row length does not fit its field, and otherwise
/// the bytes of the frame.
pub open spec fn encoding(buffer: &PixelBuffer, t: u8, real_palette: bool) -> Result<
    Seq<u8>,
    FrameError,
> {
    if !buffer.wf() {
        Err(FrameError::Decode)
    } else if !frame_fits(
        buffer.pixels@,
        buffer.width as int,
        buffer.height as int,
        t,
        real_palette,
    ) {
        Err(FrameError::Overflow)
    } else {
        Ok(frame_bytes(buffer.pixels@, buffer.width as int, buffer.height as int, t, real_palette))
    }
}

/// Encodes one frame from its channel of palette indices.
pub fn encode_frame(buffer: &PixelBuffer, transparent: u8, real_palette: bool) -> (r: Result<
    Vec<u8>,
    FrameError,
>)
    ensures
        match r {
            Ok(bytes) => encoding(buffer, transparent, real_palette) == Ok::<Seq<u8>, FrameError>(
                bytes@,
            ),
            Err(e) => encoding(buffer, transparent, real_palette) == Err::<Seq<u8>, FrameError>(e),
        },
{
    if !buffer.is_wf() {
        return Err(FrameError::Decode);
    }
    if buffer.width > 65535 || buffer.height > 65535 {
        return Err(FrameError::Overflow);
    }
    let h: usize = buffer.height as usize;
    let ghost pixels = buffer.pixels@;
    let ghost w = buffer.width as int;
    let mut rows: Vec<u8> = Vec::new();
    let mut y: usize = 0;
    while y < h
        invariant
            buffer.wf(),
            h == buffer.height,
            pixels == buffer.pixels@,
            w == buffer.width,
            y <= h,
            rows_from(pixels, w, h as int, transparent, real_palette, 0) == rows@ + rows_from(
                pixels,
                w,
                h as int,
                transparent,
                real_palette,
                y as int,
            ),
            rows_fit_from(pixels, w, h as int, transparent, real_palette, 0) == rows_fit_from(
                pixels,
                w,
                h as int,
                transparent,
                real_palette,
                y as int,
            ),
        decreases h - y,
    {
        let ghost before = rows@;
        let k: usize = count_blank_rows(buffer, transparent, y);
        if k >= 1 {
            if k > MAX_COUNT {
                return Err(FrameError::Overflow);
            }
            rows.push(TRANSPARENT_ROWS);
            rows.push(k as u8);
            assert(rows@ =~= before + transparent_rows_command(k as int));
            y += k;
        } else {
            match encode_row(row_slice(buffer, y), transparent, real_palette) {
                None => {
                    return Err(FrameError::Overflow);
                },
                Some(body) => {
                    rows.push(START_ROW);
                    rows.push((2 + body.len()) as u8);
                    push_all(&mut rows, &body);
                    assert(rows@ =~= before + row_block(body@));
                    y += 1;
                },
            }
        }
    }
    let mut out: Vec<u8> = Vec::new();
    push_le32(&mut out, 0);
    push_le16(&mut out, buffer.height as u16);
    push_le16(&mut out, buffer.width as u16);
    out.push(START_SPRITE);
    out.push(0);
    push_all(&mut out, &rows);
    out.push(END_SPRITE);
    out.push(0);
    assert(out@ =~= frame_bytes(pixels, w, h as int, transparent, real_palette));
    Ok(out)
}

} // verus!
