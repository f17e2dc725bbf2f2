//! What holds of every row and frame of the newer format: what a decoder
//! reads back, and where pad bytes stand.

use vstd::prelude::*;
use crate::error::FrameError;
use crate::pixels::{all_equal_to, blank_rows, lemma_row_bounds, pixel_row, PixelBuffer};
use crate::spr1_laws::{lemma_all_rows_blank, lemma_blank_rows};
use crate::spr2::{
    channels_match, command_word, encoding, end_word, frame_bytes, frame_header, kind_at,
    opaque_command, opaque_pixels, pixel_kind, row_block, row_commands, row_commands_from,
    row_counts_fit_from, rows_fit_from, rows_from, same_kind_after, scaled_alpha,
    translucent_command, translucent_pixels, transparent_rows_command, PixelKind, FULL_ALPHA,
    MAX_COUNT, OPAQUE, START_ROW, TRANSLUCENT, TRANSPARENT, TRANSPARENT_ROWS,
};
use crate::sprite::SpriteBounds;

verus! {

/// The run that starts at `i` lies in the row and holds pixels of one kind.
pub proof fn lemma_kind_run(color: Seq<u8>, alpha: Seq<u8>, t: u8, i: int)
    requires
        0 <= i < color.len(),
    ensures
        i + 1 + same_kind_after(color, alpha, t, i) <= color.len(),
        forall|k: int|
            i <= k <= i + same_kind_after(color, alpha, t, i) ==> kind_at(color, alpha, t, k)
                == kind_at(color, alpha, t, i),
    decreases color.len() - i,
{
    if i + 1 < color.len() && kind_at(color, alpha, t, i + 1) == kind_at(color, alpha, t, i) {
        lemma_kind_run(color, alpha, t, i + 1);
    }
}

/// Translucent pixels take three bytes each.
pub proof fn lemma_translucent_len(
    depth: Seq<u8>,
    color: Seq<u8>,
    alpha: Seq<u8>,
    from: int,
    to: int,
)
    requires
        from <= to,
    ensures
        translucent_pixels(depth, color, alpha, from, to).len() == 3 * (to - from),
    decreases to - from,
{
    if from < to {
        lemma_translucent_len(depth, color, alpha, from, to - 1);
    }
}

/// The three bytes of the translucent pixel `k` of a run are its depth, its
/// colour and its scaled alpha.
pub proof fn lemma_translucent_at(
    depth: Seq<u8>,
    color: Seq<u8>,
    alpha: Seq<u8>,
    from: int,
    to: int,
    k: int,
)
    requires
        0 <= k < to - from,
    ensures
        translucent_pixels(depth, color, alpha, from, to)[3 * k] == depth[from + k],
        translucent_pixels(depth, color, alpha, from, to)[3 * k + 1] == color[from + k],
        translucent_pixels(depth, color, alpha, from, to)[3 * k + 2] == scaled_alpha(
            alpha[from + k],
        ),
    decreases to - from,
{
    lemma_translucent_len(depth, color, alpha, from, to - 1);
    if k < to - from - 1 {
        lemma_translucent_at(depth, color, alpha, from, to - 1, k);
    }
}

/// Opaque pixels take two bytes each.
pub proof fn lemma_opaque_len(depth: Seq<u8>, color: Seq<u8>, from: int, to: int)
    requires
        from <= to,
    ensures
        opaque_pixels(depth, color, from, to).len() == 2 * (to - from),
    decreases to - from,
{
    if from < to {
        lemma_opaque_len(depth, color, from, to - 1);
    }
}

/// The two bytes of the opaque pixel `k` of a run are its depth and its
/// colour.
pub proof fn lemma_opaque_at(depth: Seq<u8>, color: Seq<u8>, from: int, to: int, k: int)
    requires
        0 <= k < to - from,
    ensures
        opaque_pixels(depth, color, from, to)[2 * k] == depth[from + k],
        opaque_pixels(depth, color, from, to)[2 * k + 1] == color[from + k],
    decreases to - from,
{
    lemma_opaque_len(depth, color, from, to - 1);
    if k < to - from - 1 {
        lemma_opaque_at(depth, color, from, to - 1, k);
    }
}

/// A run of translucent pixels takes its word, three bytes for each pixel,
/// and one zero byte more where the number of pixels is odd.
pub proof fn law_translucent_padding(
    depth: Seq<u8>,
    color: Seq<u8>,
    alpha: Seq<u8>,
    from: int,
    to: int,
)
    requires
        from <= to,
    ensures
        translucent_command(depth, color, alpha, from, to).len() == 2 + 3 * (to - from) + (to
            - from) % 2,
        (to - from) % 2 == 1 ==> translucent_command(depth, color, alpha, from, to).last() == 0,
        translucent_command(depth, color, alpha, from, to).len() % 2 == 0,
{
    lemma_translucent_len(depth, color, alpha, from, to);
}

/// A run of opaque pixels takes its word and two bytes for each pixel, and
/// no pad byte, whether the number of pixels is odd or even.
pub proof fn law_opaque_has_no_padding(depth: Seq<u8>, color: Seq<u8>, from: int, to: int)
    requires
        from <= to,
    ensures
        opaque_command(depth, color, from, to).len() == 2 + 2 * (to - from),
        opaque_command(depth, color, from, to) == command_word(OPAQUE, to - from) + opaque_pixels(
            depth,
            color,
            from,
            to,
        ),
{
    lemma_opaque_len(depth, color, from, to);
}

/// What is drawn for a pixel, as depth, colour and scaled alpha. Of a
/// transparent pixel only its colour counts; an opaque pixel has full
/// alpha.
pub open spec fn drawn_pixel(depth: u8, color: u8, alpha: u8, t: u8) -> (u8, u8, u8) {
    match pixel_kind(color, alpha, t) {
        PixelKind::Transparent => (0u8, t, 0u8),
        PixelKind::Translucent => (depth, color, scaled_alpha(alpha)),
        PixelKind::Opaque => (depth, color, FULL_ALPHA),
    }
}

/// What is drawn for the pixels of a row from position `i` on.
pub open spec fn drawn_from(depth: Seq<u8>, color: Seq<u8>, alpha: Seq<u8>, t: u8, i: int) -> Seq<
    (u8, u8, u8),
> {
    Seq::new((color.len() - i) as nat, |k: int| drawn_pixel(depth[i + k], color[i + k], alpha[i + k], t))
}

/// `n` transparent pixels, as they are drawn.
pub open spec fn drawn_transparent(t: u8, n: int) -> Seq<(u8, u8, u8)> {
    Seq::new(n as nat, |k: int| (0u8, t, 0u8))
}

/// The pixels that the commands of a row stand for, as a decoder reads
/// them.
pub open spec fn decoded_row(body: Seq<u8>, t: u8) -> Seq<(u8, u8, u8)>
    decreases body.len(),
{
    if body.len() < 2 {
        Seq::empty()
    } else {
        let word: int = body[0] + 256 * body[1];
        let command: int = word / 8192;
        let n: int = word % 8192;
        if command == TRANSPARENT {
            drawn_transparent(t, n) + decoded_row(body.skip(2), t)
        } else if command == TRANSLUCENT && body.len() >= 2 + 3 * n + n % 2 {
            Seq::new(n as nat, |k: int| (body[2 + 3 * k], body[3 + 3 * k], body[4 + 3 * k]))
                + decoded_row(body.skip(2 + 3 * n + n % 2), t)
        } else if command == OPAQUE && body.len() >= 2 + 2 * n {
            Seq::new(n as nat, |k: int| (body[2 + 2 * k], body[3 + 2 * k], FULL_ALPHA))
                + decoded_row(body.skip(2 + 2 * n), t)
        } else {
            Seq::empty()
        }
    }
}

/// A command word holds its command and its count.
pub proof fn lemma_command_word(command: u16, n: int)
    requires
        command <= 5,
        0 <= n <= MAX_COUNT,
    ensures
        command_word(command, n).len() == 2,
        (command_word(command, n)[0] + 256 * command_word(command, n)[1]) / 8192 == command,
        (command_word(command, n)[0] + 256 * command_word(command, n)[1]) % 8192 == n,
{
}

/// What is drawn for the pixels of a row from `i` on is what a decoder
/// reads from their commands, and transparent pixels behind that up to the
/// end of the row.
pub proof fn lemma_round_trip_from(
    depth: Seq<u8>,
    color: Seq<u8>,
    alpha: Seq<u8>,
    t: u8,
    i: int,
)
    requires
        depth.len() == color.len() == alpha.len(),
        0 <= i <= color.len(),
        row_counts_fit_from(color, alpha, t, i),
    ensures
        decoded_row(row_commands_from(depth, color, alpha, t, i), t).len() <= color.len() - i,
        drawn_from(depth, color, alpha, t, i) == decoded_row(
            row_commands_from(depth, color, alpha, t, i),
            t,
        ) + drawn_transparent(
            t,
            color.len() - i - decoded_row(row_commands_from(depth, color, alpha, t, i), t).len(),
        ),
    decreases color.len() - i,
{
    let body = row_commands_from(depth, color, alpha, t, i);
    let drawn = drawn_from(depth, color, alpha, t, i);
    if i >= color.len() {
        assert(drawn =~= decoded_row(body, t) + drawn_transparent(t, 0));
    } else {
        lemma_kind_run(color, alpha, t, i);
        let n: int = 1 + same_kind_after(color, alpha, t, i) as int;
        let rest = row_commands_from(depth, color, alpha, t, i + n);
        let later = drawn_from(depth, color, alpha, t, i + n);
        match kind_at(color, alpha, t, i) {
            PixelKind::Transparent => {
                assert forall|k: int| 0 <= k < n implies #[trigger] drawn[k] == (0u8, t, 0u8) by {
                    assert(kind_at(color, alpha, t, i + k) == PixelKind::Transparent);
                }
                if i + n >= color.len() {
                    assert(drawn =~= decoded_row(body, t) + drawn_transparent(
                        t,
                        color.len() - i,
                    ));
                } else {
                    lemma_round_trip_from(depth, color, alpha, t, i + n);
                    lemma_command_word(TRANSPARENT, n);
                    assert(body.skip(2) =~= rest);
                    assert(decoded_row(body, t) == drawn_transparent(t, n) + decoded_row(
                        rest,
                        t,
                    ));
                    assert(drawn =~= drawn_transparent(t, n) + later);
                    assert(drawn =~= decoded_row(body, t) + drawn_transparent(
                        t,
                        color.len() - i - decoded_row(body, t).len(),
                    ));
                }
            },
            PixelKind::Translucent => {
                lemma_round_trip_from(depth, color, alpha, t, i + n);
                lemma_command_word(TRANSLUCENT, n);
                lemma_translucent_len(depth, color, alpha, i, i + n);
                let run = Seq::new(
                    n as nat,
                    |k: int| (body[2 + 3 * k], body[3 + 3 * k], body[4 + 3 * k]),
                );
                assert(body.skip(2 + 3 * n + n % 2) =~= rest);
                assert(decoded_row(body, t) == run + decoded_row(rest, t));
                assert forall|k: int| 0 <= k < n implies #[trigger] run[k] == drawn[k] by {
                    lemma_translucent_at(depth, color, alpha, i, i + n, k);
                    assert(body[2 + 3 * k] == translucent_pixels(
                        depth,
                        color,
                        alpha,
                        i,
                        i + n,
                    )[3 * k]);
                    assert(body[3 + 3 * k] == translucent_pixels(
                        depth,
                        color,
                        alpha,
                        i,
                        i + n,
                    )[3 * k + 1]);
                    assert(body[4 + 3 * k] == translucent_pixels(
                        depth,
                        color,
                        alpha,
                        i,
                        i + n,
                    )[3 * k + 2]);
                    assert(kind_at(color, alpha, t, i + k) == PixelKind::Translucent);
                }
                assert(drawn =~= run + later);
                assert(drawn =~= decoded_row(body, t) + drawn_transparent(
                    t,
                    color.len() - i - decoded_row(body, t).len(),
                ));
            },
            PixelKind::Opaque => {
                lemma_round_trip_from(depth, color, alpha, t, i + n);
                lemma_command_word(OPAQUE, n);
                lemma_opaque_len(depth, color, i, i + n);
                let run = Seq::new(
                    n as nat,
                    |k: int| (body[2 + 2 * k], body[3 + 2 * k], FULL_ALPHA),
                );
                assert(body.skip(2 + 2 * n) =~= rest);
                assert(decoded_row(body, t) == run + decoded_row(rest, t));
                assert forall|k: int| 0 <= k < n implies #[trigger] run[k] == drawn[k] by {
                    lemma_opaque_at(depth, color, i, i + n, k);
                    assert(body[2 + 2 * k] == opaque_pixels(depth, color, i, i + n)[2 * k]);
                    assert(body[3 + 2 * k] == opaque_pixels(depth, color, i, i + n)[2 * k + 1]);
                    assert(kind_at(color, alpha, t, i + k) == PixelKind::Opaque);
                }
                assert(drawn =~= run + later);
                assert(drawn =~= decoded_row(body, t) + drawn_transparent(
                    t,
                    color.len() - i - decoded_row(body, t).len(),
                ));
            },
        }
    }
}

/// Decoding the commands of a row gives back what is drawn for each of its
/// pixels up to the last one that is not transparent; transparent pixels
/// then fill the row up to its width. This holds of every row whose counts
/// fit.
pub proof fn law_row_round_trip(depth: Seq<u8>, color: Seq<u8>, alpha: Seq<u8>, t: u8)
    requires
        depth.len() == color.len() == alpha.len(),
        row_counts_fit_from(color, alpha, t, 0),
    ensures
        decoded_row(row_commands(depth, color, alpha, t), t).len() <= color.len(),
        drawn_from(depth, color, alpha, t, 0) == decoded_row(
            row_commands(depth, color, alpha, t),
            t,
        ) + drawn_transparent(
            t,
            color.len() - decoded_row(row_commands(depth, color, alpha, t), t).len(),
        ),
{
    lemma_round_trip_from(depth, color, alpha, t, 0);
}

/// A frame of at least one row in which every pixel has the transparent
/// colour is its header, one word that skips all its rows, and the end
/// word: no row is encoded by itself.
pub proof fn law_blank_frame(
    bounds: SpriteBounds,
    palette_id: i16,
    t: u8,
    depth: &PixelBuffer,
    color: &PixelBuffer,
    alpha: &PixelBuffer,
)
    requires
        channels_match(bounds, depth, color, alpha),
        1 <= bounds.height() <= MAX_COUNT,
        all_equal_to(color.pixels@, t),
    ensures
        encoding(bounds, palette_id, t, depth, color, alpha) == Ok::<Seq<u8>, FrameError>(
            frame_header(bounds, palette_id, t) + transparent_rows_command(bounds.height())
                + end_word(),
        ),
{
    let w = bounds.width();
    let h = bounds.height();
    lemma_all_rows_blank(color.pixels@, w, h, t, 0);
    assert(rows_from(depth.pixels@, color.pixels@, alpha.pixels@, w, h, t, h) =~= Seq::<
        u8,
    >::empty());
    assert(rows_from(depth.pixels@, color.pixels@, alpha.pixels@, w, h, t, 0)
        =~= transparent_rows_command(h));
    assert(rows_fit_from(depth.pixels@, color.pixels@, alpha.pixels@, w, h, t, h));
}

/// The commands of a row take an even number of bytes.
pub proof fn law_row_length_even(depth: Seq<u8>, color: Seq<u8>, alpha: Seq<u8>, t: u8, i: int)
    requires
        0 <= i <= color.len(),
    ensures
        row_commands_from(depth, color, alpha, t, i).len() % 2 == 0,
    decreases color.len() - i,
{
    if i < color.len() {
        lemma_kind_run(color, alpha, t, i);
        let n: int = 1 + same_kind_after(color, alpha, t, i) as int;
        law_row_length_even(depth, color, alpha, t, i + n);
        law_translucent_padding(depth, color, alpha, i, i + n);
        law_opaque_has_no_padding(depth, color, i, i + n);
    }
}

/// What is drawn for the pixels that the encoded rows of a frame of width
/// `w` stand for, as a decoder reads them: a word that skips rows is so
/// many rows of transparent pixels; a row is what its commands stand for,
/// filled up to the width with transparent pixels.
pub open spec fn decoded_rows(rows: Seq<u8>, w: int, t: u8) -> Seq<(u8, u8, u8)>
    decreases rows.len(),
{
    if rows.len() < 2 {
        Seq::empty()
    } else {
        let word: int = rows[0] + 256 * rows[1];
        let command: int = word / 8192;
        let n: int = word % 8192;
        if command == TRANSPARENT_ROWS {
            drawn_transparent(t, n * w) + decoded_rows(rows.skip(2), w, t)
        } else if command == START_ROW && 2 <= n <= rows.len() {
            let row = decoded_row(rows.subrange(2, n), t);
            row + drawn_transparent(t, w - row.len()) + decoded_rows(rows.skip(n), w, t)
        } else {
            Seq::empty()
        }
    }
}

/// What is drawn for the pixels from row `y` on is what a decoder reads
/// from their encoded rows.
pub proof fn lemma_rows_round_trip(
    depth: Seq<u8>,
    color: Seq<u8>,
    alpha: Seq<u8>,
    w: int,
    h: int,
    t: u8,
    y: int,
)
    requires
        0 <= w,
        0 <= y <= h,
        depth.len() == w * h,
        color.len() == w * h,
        alpha.len() == w * h,
        rows_fit_from(depth, color, alpha, w, h, t, y),
    ensures
        0 <= y * w <= color.len(),
        decoded_rows(rows_from(depth, color, alpha, w, h, t, y), w, t) == drawn_from(
            depth,
            color,
            alpha,
            t,
            y * w,
        ),
    decreases h - y,
{
    let rows = rows_from(depth, color, alpha, w, h, t, y);
    let drawn = drawn_from(depth, color, alpha, t, y * w);
    lemma_blank_rows(color, w, h, t, y);
    if y >= h {
        assert(y * w == w * h) by (nonlinear_arith)
            requires
                y == h,
        ;
        assert(decoded_rows(rows, w, t) =~= drawn);
    } else {
        let k: int = blank_rows(color, w, h, t, y) as int;
        if k >= 1 {
            let rest = rows_from(depth, color, alpha, w, h, t, y + k);
            lemma_rows_round_trip(depth, color, alpha, w, h, t, y + k);
            lemma_command_word(TRANSPARENT_ROWS, k);
            assert(rows.skip(2) =~= rest);
            assert(decoded_rows(rows, w, t) == drawn_transparent(t, k * w) + decoded_rows(
                rest,
                w,
                t,
            ));
            assert(drawn =~= drawn_transparent(t, k * w) + drawn_from(
                depth,
                color,
                alpha,
                t,
                (y + k) * w,
            ));
        } else {
            let d = pixel_row(depth, w, y);
            let c = pixel_row(color, w, y);
            let a = pixel_row(alpha, w, y);
            let body = row_commands(d, c, a, t);
            let rest = rows_from(depth, color, alpha, w, h, t, y + 1);
            lemma_row_bounds(w, h, y);
            lemma_rows_round_trip(depth, color, alpha, w, h, t, y + 1);
            law_row_round_trip(d, c, a, t);
            let n: int = 2 + body.len() as int;
            lemma_command_word(START_ROW, n);
            assert(rows =~= row_block(body) + rest);
            assert(rows.subrange(2, n) =~= body);
            assert(rows.skip(n) =~= rest);
            let decoded = decoded_row(body, t);
            assert(decoded_rows(rows, w, t) == decoded + drawn_transparent(
                t,
                w - decoded.len(),
            ) + decoded_rows(rest, w, t));
            assert(drawn =~= drawn_from(d, c, a, t, 0) + drawn_from(
                depth,
                color,
                alpha,
                t,
                (y + 1) * w,
            ));
        }
    }
}

/// Decoding a frame gives back what is drawn for each of its pixels:
/// behind the header and before the end word stand rows that a decoder
/// reads as the raster that was encoded. This holds of every frame that
/// can be encoded.
pub proof fn law_frame_round_trip(
    bounds: SpriteBounds,
    palette_id: i16,
    t: u8,
    depth: &PixelBuffer,
    color: &PixelBuffer,
    alpha: &PixelBuffer,
)
    requires
        encoding(bounds, palette_id, t, depth, color, alpha) is Ok,
    ensures
        encoding(bounds, palette_id, t, depth, color, alpha).unwrap().len() >= 18,
        encoding(bounds, palette_id, t, depth, color, alpha).unwrap().subrange(0, 16)
            == frame_header(bounds, palette_id, t),
        decoded_rows(
            encoding(bounds, palette_id, t, depth, color, alpha).unwrap().subrange(
                16,
                encoding(bounds, palette_id, t, depth, color, alpha).unwrap().len() - 2,
            ),
            bounds.width(),
            t,
        ) == drawn_from(depth.pixels@, color.pixels@, alpha.pixels@, t, 0),
{
    let w = bounds.width();
    let h = bounds.height();
    let bytes = frame_bytes(bounds, palette_id, t, depth.pixels@, color.pixels@, alpha.pixels@);
    let rows = rows_from(depth.pixels@, color.pixels@, alpha.pixels@, w, h, t, 0);
    lemma_rows_round_trip(depth.pixels@, color.pixels@, alpha.pixels@, w, h, t, 0);
    assert(bytes.subrange(0, 16) =~= frame_header(bounds, palette_id, t));
    assert(bytes.subrange(16, bytes.len() - 2) =~= rows);
}

} // verus!
