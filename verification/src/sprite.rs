//! Where a sprite lies in its source image, and how it is placed on screen.

use vstd::prelude::*;
use crate::mask::{column_inked, row_inked, AlphaMask};

verus! {

/// The three sizes at which the game draws a sprite.
#[derive(Clone, Copy, Debug, PartialEq, Eq, Structural)]
pub enum ZoomLevel {
    Zero,
    One,
    Two,
}

/// The four directions from which the game shows an object.
#[derive(Clone, Copy, Debug, PartialEq, Eq, Structural)]
pub enum Rotation {
    NorthWest,
    NorthEast,
    SouthEast,
    SouthWest,
}

/// The rectangle of a source image that a sprite covers. `right` and
/// `bottom` are the first column and row outside it.
#[derive(Clone, Copy, Debug, PartialEq, Eq, Structural)]
pub struct SpriteBounds {
    pub left: i16,
    pub top: i16,
    pub right: i16,
    pub bottom: i16,
}

/// Where the game draws a sprite, relative to the centre of its tile.
#[derive(Clone, Copy, Debug, PartialEq, Eq, Structural)]
pub struct SpriteOffsets {
    pub x: i32,
    pub y: i32,
    pub x_flipped: i32,
}

/// Bounds and offsets of one sprite.
#[derive(Clone, Copy, Debug, PartialEq, Eq, Structural)]
pub struct SpriteDescription {
    pub bounds: SpriteBounds,
    pub offsets: SpriteOffsets,
}

impl SpriteBounds {
    /// The rectangle lies in the image and has no negative side.
    pub open spec fn valid(&self) -> bool {
        0 <= self.left <= self.right && 0 <= self.top <= self.bottom
    }

    /// Number of columns of the rectangle.
    pub open spec fn width(&self) -> int {
        self.right - self.left
    }

    /// Number of rows of the rectangle.
    pub open spec fn height(&self) -> int {
        self.bottom - self.top
    }

    /// The rectangle as its left and top edge, its width and its height,
    /// or `None` where it has a negative corner or side.
    pub fn crop(&self) -> (r: Option<(u32, u32, u32, u32)>)
        ensures
            r.is_some() == self.valid(),
            r matches Some(c) ==> c.0 == self.left && c.1 == self.top && c.2 == self.width()
                && c.3 == self.height(),
    {
        if self.left < 0 || self.top < 0 || self.right < self.left || self.bottom < self.top {
            None
        } else {
            Some(
                (
                    self.left as u32,
                    self.top as u32,
                    (self.right as i32 - self.left as i32) as u32,
                    (self.bottom as i32 - self.top as i32) as u32,
                ),
            )
        }
    }
}

/// The first column from column `x` on that holds a pixel that is not
/// zero, or `w` where there is none.
pub open spec fn first_inked_column(samples: Seq<u8>, w: int, h: int, x: int) -> int
    decreases w - x,
{
    if x < 0 || x >= w {
        w
    } else if column_inked(samples, w, h, x) {
        x
    } else {
        first_inked_column(samples, w, h, x + 1)
    }
}

/// The last column before column `x` that holds a pixel that is not zero,
/// or -1 where there is none.
pub open spec fn last_inked_column(samples: Seq<u8>, w: int, h: int, x: int) -> int
    decreases x,
{
    if x <= 0 {
        -1
    } else if column_inked(samples, w, h, x - 1) {
        x - 1
    } else {
        last_inked_column(samples, w, h, x - 1)
    }
}

/// The first row from row `y` on that holds a pixel that is not zero, or
/// `h` where there is none.
pub open spec fn first_inked_row(samples: Seq<u8>, w: int, h: int, y: int) -> int
    decreases h - y,
{
    if y < 0 || y >= h {
        h
    } else if row_inked(samples, w, y) {
        y
    } else {
        first_inked_row(samples, w, h, y + 1)
    }
}

/// The last row before row `y` that holds a pixel that is not zero, or -1
/// where there is none.
pub open spec fn last_inked_row(samples: Seq<u8>, w: int, y: int) -> int
    decreases y,
{
    if y <= 0 {
        -1
    } else if row_inked(samples, w, y - 1) {
        y - 1
    } else {
        last_inked_row(samples, w, y - 1)
    }
}

/// The first column that holds a pixel that is not zero; 0 in an image
/// without one.
pub open spec fn ink_left(samples: Seq<u8>, w: int, h: int) -> int {
    let x = first_inked_column(samples, w, h, 0);
    if x < w {
        x
    } else {
        0
    }
}

/// The first row that holds a pixel that is not zero; 0 in an image
/// without one.
pub open spec fn ink_top(samples: Seq<u8>, w: int, h: int) -> int {
    let y = first_inked_row(samples, w, h, 0);
    if y < h {
        y
    } else {
        0
    }
}

/// The column behind the last one that holds a pixel that is not zero; 1
/// in an image without one.
pub open spec fn ink_right(samples: Seq<u8>, w: int, h: int) -> int {
    let x = last_inked_column(samples, w, h, w);
    if x >= 0 {
        x + 1
    } else {
        1
    }
}

/// The row behind the last one that holds a pixel that is not zero; 1 in
/// an image without one.
pub open spec fn ink_bottom(samples: Seq<u8>, w: int, h: int) -> int {
    let y = last_inked_row(samples, w, h);
    if y >= 0 {
        y + 1
    } else {
        1
    }
}

/// Where the centre of a tile lies in the source image at each zoom level.
pub open spec fn sprite_center(zoom_level: ZoomLevel) -> (int, int) {
    match zoom_level {
        ZoomLevel::Zero => (68, 348),
        ZoomLevel::One => (34, 174),
        ZoomLevel::Two => (17, 87),
    }
}

/// The description of the sprite that an alpha image of `w` by `h` pixels
/// shows: the rectangle that holds its pixels that are not zero, and that
/// rectangle relative to the centre of the tile, as it is and mirrored.
/// There is none where the width does not fit in 31 bits or a side of the
/// rectangle does not fit in 15.
pub open spec fn description_of(samples: Seq<u8>, w: int, h: int, zoom_level: ZoomLevel) -> Option<
    SpriteDescription,
> {
    let left = ink_left(samples, w, h);
    let top = ink_top(samples, w, h);
    let right = ink_right(samples, w, h);
    let bottom = ink_bottom(samples, w, h);
    let center = sprite_center(zoom_level);
    if w > i32::MAX || left > i16::MAX || top > i16::MAX || right > i16::MAX || bottom
        > i16::MAX {
        None
    } else {
        Some(
            SpriteDescription {
                bounds: SpriteBounds {
                    left: left as i16,
                    top: top as i16,
                    right: right as i16,
                    bottom: bottom as i16,
                },
                offsets: SpriteOffsets {
                    x: (left - center.0) as i32,
                    y: (bottom + 1 - center.1) as i32,
                    x_flipped: (w - right - center.0) as i32,
                },
            },
        )
    }
}

/// The rectangle that holds the pixels of the image that are not zero, as
/// left, top, right and bottom.
pub fn ink_bounds(alpha_sprite: &AlphaMask) -> (r: (u32, u32, u32, u32))
    ensures
        r.0 == ink_left(alpha_sprite.samples(), alpha_sprite.spec_width(), alpha_sprite.spec_height()),
        r.1 == ink_top(alpha_sprite.samples(), alpha_sprite.spec_width(), alpha_sprite.spec_height()),
        r.2 == ink_right(alpha_sprite.samples(), alpha_sprite.spec_width(), alpha_sprite.spec_height()),
        r.3 == ink_bottom(alpha_sprite.samples(), alpha_sprite.spec_width(), alpha_sprite.spec_height()),
{
    let w: u32 = alpha_sprite.width();
    let h: u32 = alpha_sprite.height();
    let ghost samples = alpha_sprite.samples();
    let mut left: u32 = 0;
    let mut x: u32 = 0;
    while x < w
        invariant_except_break
            left == 0,
            first_inked_column(samples, w as int, h as int, 0) == first_inked_column(
                samples,
                w as int,
                h as int,
                x as int,
            ),
        invariant
            w == alpha_sprite.spec_width(),
            h == alpha_sprite.spec_height(),
            samples == alpha_sprite.samples(),
            x <= w,
        ensures
            left == ink_left(samples, w as int, h as int),
        decreases w - x,
    {
        if alpha_sprite.column_has_ink(x) {
            left = x;
            break ;
        }
        x += 1;
    }
    let mut top: u32 = 0;
    let mut y: u32 = 0;
    while y < h
        invariant_except_break
            top == 0,
            first_inked_row(samples, w as int, h as int, 0) == first_inked_row(
                samples,
                w as int,
                h as int,
                y as int,
            ),
        invariant
            w == alpha_sprite.spec_width(),
            h == alpha_sprite.spec_height(),
            samples == alpha_sprite.samples(),
            y <= h,
        ensures
            top == ink_top(samples, w as int, h as int),
        decreases h - y,
    {
        if alpha_sprite.row_has_ink(y) {
            top = y;
            break ;
        }
        y += 1;
    }
    let mut right: u32 = 0;
    let mut x: u32 = w;
    while x > 0
        invariant_except_break
            right == 0,
            last_inked_column(samples, w as int, h as int, w as int) == last_inked_column(
                samples,
                w as int,
                h as int,
                x as int,
            ),
        invariant
            w == alpha_sprite.spec_width(),
            h == alpha_sprite.spec_height(),
            samples == alpha_sprite.samples(),
            x <= w,
        ensures
            right < u32::MAX,
            right + 1 == ink_right(samples, w as int, h as int),
        decreases x,
    {
        if alpha_sprite.column_has_ink(x - 1) {
            right = x - 1;
            break ;
        }
        x -= 1;
    }
    let mut bottom: u32 = 0;
    let mut y: u32 = h;
    while y > 0
        invariant_except_break
            bottom == 0,
            last_inked_row(samples, w as int, h as int) == last_inked_row(
                samples,
                w as int,
                y as int,
            ),
        invariant
            w == alpha_sprite.spec_width(),
            h == alpha_sprite.spec_height(),
            samples == alpha_sprite.samples(),
            y <= h,
        ensures
            bottom < u32::MAX,
            bottom + 1 == ink_bottom(samples, w as int, h as int),
        decreases y,
    {
        if alpha_sprite.row_has_ink(y - 1) {
            bottom = y - 1;
            break ;
        }
        y -= 1;
    }
    (left, top, right + 1, bottom + 1)
}

/// Where the centre of a tile lies in the source image at a zoom level.
pub fn center_of(zoom_level: ZoomLevel) -> (r: (i32, i32))
    ensures
        r.0 == sprite_center(zoom_level).0,
        r.1 == sprite_center(zoom_level).1,
{
    match zoom_level {
        ZoomLevel::Zero => (68, 348),
        ZoomLevel::One => (34, 174),
        ZoomLevel::Two => (17, 87),
    }
}

/// Describes the sprite that an alpha image shows, or gives `None` where
/// the width of the image does not fit in 31 bits or a side of the
/// rectangle of the sprite does not fit in 15.
pub fn try_calculate_sprite_description(alpha_sprite: &AlphaMask, zoom_level: ZoomLevel) -> (r:
    Option<SpriteDescription>)
    ensures
        r == description_of(
            alpha_sprite.samples(),
            alpha_sprite.spec_width(),
            alpha_sprite.spec_height(),
            zoom_level,
        ),
{
    let w: u32 = alpha_sprite.width();
    let (left, top, right, bottom) = ink_bounds(alpha_sprite);
    if w > 2147483647 || left > 32767 || top > 32767 || right > 32767 || bottom > 32767 {
        return None;
    }
    let (center_x, center_y) = center_of(zoom_level);
    let left_flipped: i32 = w as i32 - right as i32;
    Some(
        SpriteDescription {
            bounds: SpriteBounds {
                left: left as i16,
                top: top as i16,
                right: right as i16,
                bottom: bottom as i16,
            },
            offsets: SpriteOffsets {
                x: left as i32 - center_x,
                y: bottom as i32 + 1 - center_y,
                x_flipped: left_flipped - center_x,
            },
        },
    )
}

/// Describes the sprite that an alpha image shows.
pub fn calculate_sprite_description(alpha_sprite: &AlphaMask, zoom_level: ZoomLevel) -> (r:
    SpriteDescription)
    requires
        description_of(
            alpha_sprite.samples(),
            alpha_sprite.spec_width(),
            alpha_sprite.spec_height(),
            zoom_level,
        ) is Some,
    ensures
        Some(r) == description_of(
            alpha_sprite.samples(),
            alpha_sprite.spec_width(),
            alpha_sprite.spec_height(),
            zoom_level,
        ),
{
    try_calculate_sprite_description(alpha_sprite, zoom_level).unwrap()
}

/// `s` ends with `suffix`.
pub open spec fn ends_with(s: Seq<char>, suffix: Seq<char>) -> bool {
    s.len() >= suffix.len() && s.subrange(s.len() - suffix.len(), s.len() as int) == suffix
}

/// The path of the description of a sprite, from the path of its alpha
/// image: ` description.txt` in place of the ending `_a.bmp`. There is none
/// for a path that does not end so.
pub open spec fn description_path(alpha_path: Seq<char>) -> Option<Seq<char>> {
    if ends_with(alpha_path, "_a.bmp"@) {
        Some(alpha_path.subrange(0, alpha_path.len() - "_a.bmp"@.len()) + " description.txt"@)
    } else {
        None
    }
}

/// The path of the description of a sprite, from the path of its alpha
/// image, or `None` where that path does not end with `_a.bmp`.
pub fn find_sprite_description_file_path(alpha_sprite_file_path: &str) -> (r: Option<String>)
    ensures
        match r {
            Some(path) => description_path(alpha_sprite_file_path@) == Some(path@),
            None => description_path(alpha_sprite_file_path@) is None,
        },
{
    proof {
        reveal_strlit("_a.bmp");
    }
    let n: usize = alpha_sprite_file_path.unicode_len();
    if n < 6 {
        return None;
    }
    let ending: String = String::from_str(alpha_sprite_file_path.substring_char(n - 6, n));
    let wanted: String = String::from_str("_a.bmp");
    if ending != wanted {
        return None;
    }
    let stem: String = String::from_str(alpha_sprite_file_path.substring_char(0, n - 6));
    Some(stem.concat(" description.txt"))
}

/// The path of the description of a sprite, from the path of its alpha
/// image, which ends with `_a.bmp`.
pub fn get_sprite_description_file_path(alpha_sprite_file_path: &str) -> (r: String)
    requires
        ends_with(alpha_sprite_file_path@, "_a.bmp"@),
    ensures
        Some(r@) == description_path(alpha_sprite_file_path@),
{
    find_sprite_description_file_path(alpha_sprite_file_path).unwrap()
}

} // verus!
