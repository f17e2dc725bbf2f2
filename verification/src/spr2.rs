//! The newer sprite format: depth, colour and alpha for every pixel, with
//! 16-bit command words that hold a command in their top three bits and a
//! count in the other thirteen.
//!
//! A frame is a header, the encoded rows and an end word. A row is a
//! start-of-row word that wraps the commands of the row.

use vstd::prelude::*;
use crate::bytes::{bits16, i16_bits, le16, le32, padding, push_all, push_le16, push_le32};
use crate::error::FrameError;
use crate::pixels::{
    blank_rows, count_blank_rows, pixel_row, remaining, row_slice, rows_left, PixelBuffer,
};
use crate::sprite::SpriteBounds;

verus! {

pub const START_ROW: u16 = 0;

pub const OPAQUE: u16 = 1;

pub const TRANSLUCENT: u16 = 2;

pub const TRANSPARENT: u16 = 3;

pub const TRANSPARENT_ROWS: u16 = 4;

pub const END: u16 = 5;

/// The largest count that a command word can carry.
pub const MAX_COUNT: usize = 8191;

/// The flags word of every frame.
pub const FRAME_FLAGS: u32 = 7;

/// The scaled alpha of a pixel that hides what lies behind it.
pub const FULL_ALPHA: u8 = 31;

/// How a pixel is drawn.
#[derive(Clone, Copy, Debug, PartialEq, Eq, Structural)]
pub enum PixelKind {
    Transparent,
    Translucent,
    Opaque,
}

/// The five bits of alpha that the format keeps.
pub open spec fn scaled_alpha(alpha: u8) -> u8 {
    alpha / 8
}

/// A pixel of the transparent colour is transparent, whatever its alpha;
/// any other is translucent below full alpha and opaque at full alpha.
pub open spec fn pixel_kind(color: u8, alpha: u8, t: u8) -> PixelKind {
    if color == t {
        PixelKind::Transparent
    } else if scaled_alpha(alpha) < FULL_ALPHA {
        PixelKind::Translucent
    } else {
        PixelKind::Opaque
    }
}

/// The kind of the pixel at position `i` of a row.
pub open spec fn kind_at(color: Seq<u8>, alpha: Seq<u8>, t: u8, i: int) -> PixelKind {
    pixel_kind(color[i], alpha[i], t)
}

/// Number of pixels directly after position `i` that continue the run of
/// pixels of one kind that the pixel at `i` starts.
pub open spec fn same_kind_after(color: Seq<u8>, alpha: Seq<u8>, t: u8, i: int) -> nat
    decreases color.len() - i,
{
    if 0 <= i && i + 1 < color.len() && kind_at(color, alpha, t, i + 1) == kind_at(
        color,
        alpha,
        t,
        i,
    ) {
        1 + same_kind_after(color, alpha, t, i + 1)
    } else {
        0
    }
}

/// A command word: the command in the top three bits, the count below.
pub open spec fn command_word(command: u16, n: int) -> Seq<u8> {
    le16((command * 8192 + n) as u16)
}

/// Depth, colour and scaled alpha of the pixels from `from` up to `to`.
pub open spec fn translucent_pixels(
    depth: Seq<u8>,
    color: Seq<u8>,
    alpha: Seq<u8>,
    from: int,
    to: int,
) -> Seq<u8>
    decreases to - from,
{
    if to <= from {
        Seq::empty()
    } else {
        translucent_pixels(depth, color, alpha, from, to - 1) + seq![
            depth[to - 1],
            color[to - 1],
            scaled_alpha(alpha[to - 1]),
        ]
    }
}

/// Depth and colour of the pixels from `from` up to `to`.
pub open spec fn opaque_pixels(depth: Seq<u8>, color: Seq<u8>, from: int, to: int) -> Seq<u8>
    decreases to - from,
{
    if to <= from {
        Seq::empty()
    } else {
        opaque_pixels(depth, color, from, to - 1) + seq![depth[to - 1], color[to - 1]]
    }
}

/// A run of `n` transparent pixels.
pub open spec fn transparent_command(n: int) -> Seq<u8> {
    command_word(TRANSPARENT, n)
}

/// A run of translucent pixels: three bytes each, and a pad byte after an
/// odd number of pixels.
pub open spec fn translucent_command(
    depth: Seq<u8>,
    color: Seq<u8>,
    alpha: Seq<u8>,
    from: int,
    to: int,
) -> Seq<u8> {
    command_word(TRANSLUCENT, to - from) + translucent_pixels(depth, color, alpha, from, to)
        + padding((to - from) as nat)
}

/// A run of opaque pixels: two bytes each, and never a pad byte.
pub open spec fn opaque_command(depth: Seq<u8>, color: Seq<u8>, from: int, to: int) -> Seq<u8> {
    command_word(OPAQUE, to - from) + opaque_pixels(depth, color, from, to)
}

/// The commands for the pixels of a row from position `i` on, where `i` is
/// the start of a run. Transparent pixels up to the end of the row are left
/// out.
pub open spec fn row_commands_from(
    depth: Seq<u8>,
    color: Seq<u8>,
    alpha: Seq<u8>,
    t: u8,
    i: int,
) -> Seq<u8>
    decreases remaining(color, i),
{
    if i < 0 || i >= color.len() {
        Seq::empty()
    } else {
        let n: int = 1 + same_kind_after(color, alpha, t, i) as int;
        match kind_at(color, alpha, t, i) {
            PixelKind::Transparent => {
                if i + n >= color.len() {
                    Seq::empty()
                } else {
                    transparent_command(n) + row_commands_from(depth, color, alpha, t, i + n)
                }
            },
            PixelKind::Translucent => {
                translucent_command(depth, color, alpha, i, i + n) + row_commands_from(
                    depth,
                    color,
                    alpha,
                    t,
                    i + n,
                )
            },
            PixelKind::Opaque => {
                opaque_command(depth, color, i, i + n) + row_commands_from(
                    depth,
                    color,
                    alpha,
                    t,
                    i + n,
                )
            },
        }
    }
}

/// The commands of a whole row.
pub open spec fn row_commands(depth: Seq<u8>, color: Seq<u8>, alpha: Seq<u8>, t: u8) -> Seq<u8> {
    row_commands_from(depth, color, alpha, t, 0)
}

/// Every count of the commands from position `i` on fits in thirteen bits.
pub open spec fn row_counts_fit_from(color: Seq<u8>, alpha: Seq<u8>, t: u8, i: int) -> bool
    decreases remaining(color, i),
{
    if i < 0 || i >= color.len() {
        true
    } else {
        let n: int = 1 + same_kind_after(color, alpha, t, i) as int;
        if kind_at(color, alpha, t, i) == PixelKind::Transparent && i + n >= color.len() {
            true
        } else {
            n <= MAX_COUNT && row_counts_fit_from(color, alpha, t, i + n)
        }
    }
}

/// The row can be encoded: every count fits in thirteen bits, and so does
/// the length of the row, which counts its own two bytes.
pub open spec fn row_fits(depth: Seq<u8>, color: Seq<u8>, alpha: Seq<u8>, t: u8) -> bool {
    row_counts_fit_from(color, alpha, t, 0) && 2 + row_commands(depth, color, alpha, t).len()
        <= MAX_COUNT
}

/// Tells how a pixel is drawn.
pub fn classify(color: u8, alpha: u8, transparent: u8) -> (k: PixelKind)
    ensures
        k == pixel_kind(color, alpha, transparent),
{
    if color == transparent {
        PixelKind::Transparent
    } else if alpha / 8 < FULL_ALPHA {
        PixelKind::Translucent
    } else {
        PixelKind::Opaque
    }
}

/// Length of the run of pixels of one kind that starts at `i`.
pub fn kind_run_length(color: &[u8], alpha: &[u8], transparent: u8, i: usize) -> (n: usize)
    requires
        color@.len() == alpha@.len(),
        i < color@.len(),
    ensures
        n == 1 + same_kind_after(color@, alpha@, transparent, i as int),
        i + n <= color@.len(),
{
    let first: PixelKind = classify(color[i], alpha[i], transparent);
    let mut j: usize = i + 1;
    while j < color.len() && classify(color[j], alpha[j], transparent) == first
        invariant
            color@.len() == alpha@.len(),
            i < j <= color@.len(),
            kind_at(color@, alpha@, transparent, j - 1) == first,
            same_kind_after(color@, alpha@, transparent, i as int) == (j - 1 - i)
                + same_kind_after(color@, alpha@, transparent, j - 1),
        decreases color@.len() - j,
    {
        j += 1;
    }
    j - i
}

/// Appends a command word.
pub fn push_word(out: &mut Vec<u8>, command: u16, n: usize)
    requires
        command <= END,
        n <= MAX_COUNT,
    ensures
        final(out)@ == old(out)@ + command_word(command, n as int),
{
    push_le16(out, command * 8192 + n as u16);
}

/// Appends a run of translucent pixels.
pub fn push_translucent(
    out: &mut Vec<u8>,
    depth: &[u8],
    color: &[u8],
    alpha: &[u8],
    from: usize,
    to: usize,
)
    requires
        depth@.len() == color@.len() == alpha@.len(),
        from <= to <= color@.len(),
        to - from <= MAX_COUNT,
    ensures
        final(out)@ == old(out)@ + translucent_command(
            depth@,
            color@,
            alpha@,
            from as int,
            to as int,
        ),
{
    push_word(out, TRANSLUCENT, to - from);
    let ghost base = out@;
    let mut k: usize = from;
    while k < to
        invariant
            depth@.len() == color@.len() == alpha@.len(),
            from <= k <= to <= color@.len(),
            out@ == base + translucent_pixels(depth@, color@, alpha@, from as int, k as int),
        decreases to - k,
    {
        out.push(depth[k]);
        out.push(color[k]);
        out.push(alpha[k] / 8);
        k += 1;
        assert(out@ =~= base + translucent_pixels(depth@, color@, alpha@, from as int, k as int));
    }
    if (to - from) % 2 == 1 {
        out.push(0);
    }
    assert(out@ =~= old(out)@ + translucent_command(
        depth@,
        color@,
        alpha@,
        from as int,
        to as int,
    ));
}

/// Appends a run of opaque pixels.
pub fn push_opaque(out: &mut Vec<u8>, depth: &[u8], color: &[u8], from: usize, to: usize)
    requires
        depth@.len() == color@.len(),
        from <= to <= color@.len(),
        to - from <= MAX_COUNT,
    ensures
        final(out)@ == old(out)@ + opaque_command(depth@, color@, from as int, to as int),
{
    push_word(out, OPAQUE, to - from);
    let ghost base = out@;
    let mut k: usize = from;
    while k < to
        invariant
            depth@.len() == color@.len(),
            from <= k <= to <= color@.len(),
            out@ == base + opaque_pixels(depth@, color@, from as int, k as int),
        decreases to - k,
    {
        out.push(depth[k]);
        out.push(color[k]);
        k += 1;
        assert(out@ =~= base + opaque_pixels(depth@, color@, from as int, k as int));
    }
    assert(out@ =~= old(out)@ + opaque_command(depth@, color@, from as int, to as int));
}

/// Encodes one row from its three channels. The result is `None` where a
/// count or the length of the row does not fit in thirteen bits.
pub fn encode_row(depth: &[u8], color: &[u8], alpha: &[u8], transparent: u8) -> (r: Option<
    Vec<u8>,
>)
    requires
        depth@.len() == color@.len() == alpha@.len(),
    ensures
        r.is_some() == row_fits(depth@, color@, alpha@, transparent),
        r matches Some(body) ==> body@ == row_commands(depth@, color@, alpha@, transparent),
{
    let w: usize = color.len();
    let mut out: Vec<u8> = Vec::new();
    let mut i: usize = 0;
    while i < w
        invariant
            depth@.len() == color@.len() == alpha@.len(),
            i <= w,
            w == color@.len(),
            row_commands(depth@, color@, alpha@, transparent) == out@ + row_commands_from(
                depth@,
                color@,
                alpha@,
                transparent,
                i as int,
            ),
            row_counts_fit_from(color@, alpha@, transparent, 0) == row_counts_fit_from(
                color@,
                alpha@,
                transparent,
                i as int,
            ),
        decreases w - i,
    {
        let ghost before = out@;
        let n: usize = kind_run_length(color, alpha, transparent, i);
        match classify(color[i], alpha[i], transparent) {
            PixelKind::Transparent => {
                if i + n == w {
                    i = w;
                } else {
                    if n > MAX_COUNT {
                        return None;
                    }
                    push_word(&mut out, TRANSPARENT, n);
                    i += n;
                }
            },
            PixelKind::Translucent => {
                if n > MAX_COUNT {
                    return None;
                }
                push_translucent(&mut out, depth, color, alpha, i, i + n);
                i += n;
            },
            PixelKind::Opaque => {
                if n > MAX_COUNT {
                    return None;
                }
                push_opaque(&mut out, depth, color, i, i + n);
                i += n;
            },
        }
    }
    if out.len() > MAX_COUNT - 2 {
        return None;
    }
    Some(out)
}

/// `k` rows in which every pixel is transparent.
pub open spec fn transparent_rows_command(k: int) -> Seq<u8> {
    command_word(TRANSPARENT_ROWS, k)
}

/// A row: its length, which counts the two bytes of this word, and its
/// commands.
pub open spec fn row_block(body: Seq<u8>) -> Seq<u8> {
    command_word(START_ROW, 2 + body.len() as int) + body
}

/// The encoding of the rows from row `y` on. Rows in which every pixel has
/// the transparent colour are skipped together; every other row is encoded
/// by itself.
pub open spec fn rows_from(
    depth: Seq<u8>,
    color: Seq<u8>,
    alpha: Seq<u8>,
    w: int,
    h: int,
    t: u8,
    y: int,
) -> Seq<u8>
    decreases rows_left(h, y),
{
    if y < 0 || y >= h {
        Seq::empty()
    } else {
        let k: int = blank_rows(color, w, h, t, y) as int;
        if k >= 1 {
            transparent_rows_command(k) + rows_from(depth, color, alpha, w, h, t, y + k)
        } else {
            row_block(
                row_commands(
                    pixel_row(depth, w, y),
                    pixel_row(color, w, y),
                    pixel_row(alpha, w, y),
                    t,
                ),
            ) + rows_from(depth, color, alpha, w, h, t, y + 1)
        }
    }
}

/// Every count and every row length from row `y` on fits in thirteen bits.
pub open spec fn rows_fit_from(
    depth: Seq<u8>,
    color: Seq<u8>,
    alpha: Seq<u8>,
    w: int,
    h: int,
    t: u8,
    y: int,
) -> bool
    decreases rows_left(h, y),
{
    if y < 0 || y >= h {
        true
    } else {
        let k: int = blank_rows(color, w, h, t, y) as int;
        if k >= 1 {
            k <= MAX_COUNT && rows_fit_from(depth, color, alpha, w, h, t, y + k)
        } else {
            row_fits(pixel_row(depth, w, y), pixel_row(color, w, y), pixel_row(alpha, w, y), t)
                && rows_fit_from(depth, color, alpha, w, h, t, y + 1)
        }
    }
}

/// The header of a frame: width, height, flags, palette, transparent
/// colour, and the top and left edge of the frame in its image.
pub open spec fn frame_header(bounds: SpriteBounds, palette_id: i16, t: u8) -> Seq<u8> {
    le16(bounds.width() as u16) + le16(bounds.height() as u16) + le32(FRAME_FLAGS) + le16(
        bits16(palette_id),
    ) + le16(t as u16) + le16(bounds.top as u16) + le16(bounds.left as u16)
}

/// The word that closes a frame.
pub open spec fn end_word() -> Seq<u8> {
    command_word(END, 0)
}

/// The bytes of the frame that covers `bounds`.
pub open spec fn frame_bytes(
    bounds: SpriteBounds,
    palette_id: i16,
    t: u8,
    depth: Seq<u8>,
    color: Seq<u8>,
    alpha: Seq<u8>,
) -> Seq<u8> {
    frame_header(bounds, palette_id, t) + rows_from(
        depth,
        color,
        alpha,
        bounds.width(),
        bounds.height(),
        t,
        0,
    ) + end_word()
}

/// The frame can be encoded: every count and row length fits in thirteen
/// bits.
pub open spec fn frame_fits(
    bounds: SpriteBounds,
    t: u8,
    depth: Seq<u8>,
    color: Seq<u8>,
    alpha: Seq<u8>,
) -> bool {
    rows_fit_from(depth, color, alpha, bounds.width(), bounds.height(), t, 0)
}

/// The channel is a raster of exactly the rectangle `bounds`.
pub open spec fn covers(buffer: &PixelBuffer, bounds: SpriteBounds) -> bool {
    buffer.wf() && buffer.width == bounds.width() && buffer.height == bounds.height()
}

/// The rectangle has no negative corner or side, and each of the three
/// channels is a raster of exactly that rectangle.
pub open spec fn channels_match(
    bounds: SpriteBounds,
    depth: &PixelBuffer,
    color: &PixelBuffer,
    alpha: &PixelBuffer,
) -> bool {
    bounds.valid() && covers(depth, bounds) && covers(color, bounds) && covers(alpha, bounds)
}

/// Tells whether the channel is a raster of exactly the rectangle `bounds`.
fn covers_rectangle(buffer: &PixelBuffer, bounds: &SpriteBounds) -> (r: bool)
    requires
        bounds.valid(),
    ensures
        r == covers(buffer, *bounds),
{
    let w: u32 = (bounds.right as i32 - bounds.left as i32) as u32;
    let h: u32 = (bounds.bottom as i32 - bounds.top as i32) as u32;
    buffer.is_wf() && buffer.width == w && buffer.height == h
}

/// What encoding the frame gives: `Decode` where the rectangle has a
/// negative corner or side or a channel is not a raster of exactly that
/// rectangle, otherwise `Overflow` where a count or a row length does not
/// fit in thirteen bits, and otherwise the bytes of the frame.
pub open spec fn encoding(
    bounds: SpriteBounds,
    palette_id: i16,
    t: u8,
    depth: &PixelBuffer,
    color: &PixelBuffer,
    alpha: &PixelBuffer,
) -> Result<Seq<u8>, FrameError> {
    if !channels_match(bounds, depth, color, alpha) {
        Err(FrameError::Decode)
    } else if !frame_fits(bounds, t, depth.pixels@, color.pixels@, alpha.pixels@) {
        Err(FrameError::Overflow)
    } else {
        Ok(frame_bytes(bounds, palette_id, t, depth.pixels@, color.pixels@, alpha.pixels@))
    }
}

/// Encodes one frame from its three channels, each cut to the rectangle
/// `bounds` of the source image.
pub fn encode_frame(
    bounds: &SpriteBounds,
    palette_id: i16,
    transparent: u8,
    depth: &PixelBuffer,
    color: &PixelBuffer,
    alpha: &PixelBuffer,
) -> (r: Result<Vec<u8>, FrameError>)
    ensures
        match r {
            Ok(bytes) => encoding(*bounds, palette_id, transparent, depth, color, alpha) == Ok::<
                Seq<u8>,
                FrameError,
            >(bytes@),
            Err(e) => encoding(*bounds, palette_id, transparent, depth, color, alpha) == Err::<
                Seq<u8>,
                FrameError,
            >(e),
        },
{
    if bounds.crop().is_none() {
        return Err(FrameError::Decode);
    }
    if !covers_rectangle(depth, bounds) || !covers_rectangle(color, bounds) || !covers_rectangle(
        alpha,
        bounds,
    ) {
        return Err(FrameError::Decode);
    }
    let h: usize = color.height as usize;
    let ghost w = color.width as int;
    let mut rows: Vec<u8> = Vec::new();
    let mut y: usize = 0;
    while y < h
        invariant
            channels_match(*bounds, depth, color, alpha),
            h == color.height,
            w == color.width,
            y <= h,
            rows_from(depth.pixels@, color.pixels@, alpha.pixels@, w, h as int, transparent, 0)
                == rows@ + rows_from(
                depth.pixels@,
                color.pixels@,
                alpha.pixels@,
                w,
                h as int,
                transparent,
                y as int,
            ),
            rows_fit_from(
                depth.pixels@,
                color.pixels@,
                alpha.pixels@,
                w,
                h as int,
                transparent,
                0,
            ) == rows_fit_from(
                depth.pixels@,
                color.pixels@,
                alpha.pixels@,
                w,
                h as int,
                transparent,
                y as int,
            ),
        decreases h - y,
    {
        let ghost before = rows@;
        let k: usize = count_blank_rows(color, transparent, y);
        if k >= 1 {
            if k > MAX_COUNT {
                return Err(FrameError::Overflow);
            }
            push_word(&mut rows, TRANSPARENT_ROWS, k);
            y += k;
        } else {
            let body: Option<Vec<u8>> = encode_row(
                row_slice(depth, y),
                row_slice(color, y),
                row_slice(alpha, y),
                transparent,
            );
            match body {
                None => {
                    return Err(FrameError::Overflow);
                },
                Some(body) => {
                    push_word(&mut rows, START_ROW, 2 + body.len());
                    push_all(&mut rows, &body);
                    assert(rows@ =~= before + row_block(body@));
                    y += 1;
                },
            }
        }
    }
    let mut out: Vec<u8> = Vec::new();
    push_le16(&mut out, color.width as u16);
    push_le16(&mut out, color.height as u16);
    push_le32(&mut out, FRAME_FLAGS);
    push_le16(&mut out, i16_bits(palette_id));
    push_le16(&mut out, transparent as u16);
    push_le16(&mut out, bounds.top as u16);
    push_le16(&mut out, bounds.left as u16);
    push_all(&mut out, &rows);
    push_word(&mut out, END, 0);
    assert(out@ =~= frame_bytes(
        *bounds,
        palette_id,
        transparent,
        depth.pixels@,
        color.pixels@,
        alpha.pixels@,
    ));
    Ok(out)
}

} // verus!
