//! Decoded rasters: one byte per pixel, rows from top to bottom.

use vstd::prelude::*;

verus! {

/// One decoded channel of a frame.
#[derive(Clone, Debug)]
pub struct PixelBuffer {
    pub width: u32,
    pub height: u32,
    pub pixels: Vec<u8>,
}

/// Row `y` of a raster of width `w` stored row by row in `pixels`.
pub open spec fn pixel_row(pixels: Seq<u8>, w: int, y: int) -> Seq<u8> {
    pixels.subrange(y * w, y * w + w)
}

impl PixelBuffer {
    /// The buffer holds exactly `width` times `height` pixels.
    pub open spec fn wf(&self) -> bool {
        self.pixels@.len() == self.width * self.height
    }

    /// Row `y` of the raster.
    pub open spec fn row(&self, y: int) -> Seq<u8> {
        pixel_row(self.pixels@, self.width as int, y)
    }

    pub fn new(width: u32, height: u32, pixels: Vec<u8>) -> (r: PixelBuffer)
        ensures
            r.width == width,
            r.height == height,
            r.pixels == pixels,
    {
        PixelBuffer { width, height, pixels }
    }

    /// Tells whether the number of pixels matches the dimensions.
    pub fn is_wf(&self) -> (r: bool)
        ensures
            r == self.wf(),
    {
        assert(self.width * self.height <= 0xffff_ffff * 0xffff_ffff) by (nonlinear_arith)
            requires
                0 <= self.width <= 0xffff_ffff,
                0 <= self.height <= 0xffff_ffff,
        ;
        let area: u64 = (self.width as u64) * (self.height as u64);
        self.pixels.len() as u64 == area
    }
}

/// Every pixel of `row` has the value `t`.
pub open spec fn all_equal_to(row: Seq<u8>, t: u8) -> bool {
    forall|x: int| 0 <= x < row.len() ==> row[x] == t
}

/// Tells whether every pixel of `row` has the value `t`.
pub fn is_all_equal_to(row: &[u8], t: u8) -> (r: bool)
    ensures
        r == all_equal_to(row@, t),
{
    let mut x: usize = 0;
    while x < row.len()
        invariant
            x <= row@.len(),
            forall|k: int| 0 <= k < x ==> row@[k] == t,
        decreases row@.len() - x,
    {
        if row[x] != t {
            return false;
        }
        x += 1;
    }
    true
}

/// Row `y` of the raster, borrowed.
pub fn row_slice(buffer: &PixelBuffer, y: usize) -> (r: &[u8])
    requires
        buffer.wf(),
        y < buffer.height,
    ensures
        r@ == buffer.row(y as int),
        r@.len() == buffer.width,
{
    let w: usize = buffer.width as usize;
    let pixels: &[u8] = buffer.pixels.as_slice();
    let len: usize = pixels.len();
    proof {
        lemma_row_bounds(w as int, buffer.height as int, y as int);
    }
    let start: usize = y * w;
    vstd::slice::slice_subrange(pixels, start, start + w)
}

/// Number of pixels of `row` from position `i` on.
pub open spec fn remaining(row: Seq<u8>, i: int) -> nat {
    if 0 <= i <= row.len() {
        (row.len() - i) as nat
    } else {
        0
    }
}

/// Number of rows of a raster of height `h` from row `y` on.
pub open spec fn rows_left(h: int, y: int) -> nat {
    if 0 <= y <= h {
        (h - y) as nat
    } else {
        0
    }
}

/// Number of rows from row `y` on, one after another, in which every pixel
/// is transparent.
pub open spec fn blank_rows(pixels: Seq<u8>, w: int, h: int, t: u8, y: int) -> nat
    decreases rows_left(h, y),
{
    if 0 <= y < h && all_equal_to(pixel_row(pixels, w, y), t) {
        1 + blank_rows(pixels, w, h, t, y + 1)
    } else {
        0
    }
}

/// Number of rows from row `y` on in which every pixel is transparent.
pub fn count_blank_rows(buffer: &PixelBuffer, transparent: u8, y: usize) -> (k: usize)
    requires
        buffer.wf(),
        y <= buffer.height,
    ensures
        k == blank_rows(
            buffer.pixels@,
            buffer.width as int,
            buffer.height as int,
            transparent,
            y as int,
        ),
        y + k <= buffer.height,
{
    let h: usize = buffer.height as usize;
    let mut k: usize = 0;
    let mut more: bool = true;
    while more && y + k < h
        invariant
            buffer.wf(),
            h == buffer.height,
            y + k <= h,
            blank_rows(
                buffer.pixels@,
                buffer.width as int,
                buffer.height as int,
                transparent,
                y as int,
            ) == k + if more {
                blank_rows(
                    buffer.pixels@,
                    buffer.width as int,
                    buffer.height as int,
                    transparent,
                    y + k,
                )
            } else {
                0
            },
        decreases (h - y - k) + if more { 1int } else { 0int },
    {
        if is_all_equal_to(row_slice(buffer, y + k), transparent) {
            k += 1;
        } else {
            more = false;
        }
    }
    k
}

/// Rows of a well-formed raster lie inside it.
pub proof fn lemma_row_bounds(w: int, h: int, y: int)
    requires
        0 <= w,
        0 <= y < h,
    ensures
        0 <= y * w,
        y * w + w <= w * h,
        (y + 1) * w == y * w + w,
{
    assert(0 <= y * w) by (nonlinear_arith)
        requires
            0 <= w,
            0 <= y,
    ;
    assert(y * w + w <= w * h) by (nonlinear_arith)
        requires
            0 <= w,
            0 <= y < h,
    ;
    assert((y + 1) * w == y * w + w) by (nonlinear_arith);
}

} // verus!
