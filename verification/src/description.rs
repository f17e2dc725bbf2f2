//! The text that describes a sprite: seven whole numbers with one space
//! between each two: left, top, right and bottom of its rectangle, then its
//! offsets x, y and x mirrored.

use vstd::prelude::*;
use crate::sprite::{SpriteBounds, SpriteDescription, SpriteOffsets};

verus! {

pub const SPACE: u8 = 32;

pub const PLUS: u8 = 43;

pub const MINUS: u8 = 45;

pub const ZERO: u8 = 48;

pub const NINE: u8 = 57;

/// Number of numbers that make up a description.
pub const FIELDS: usize = 7;

/// The byte is a decimal digit.
pub open spec fn is_digit(b: u8) -> bool {
    ZERO <= b <= NINE
}

/// Every byte is a decimal digit.
pub open spec fn all_digits(s: Seq<u8>) -> bool {
    forall|i: int| 0 <= i < s.len() ==> is_digit(#[trigger] s[i])
}

/// The number that the digits write in base ten.
pub open spec fn digits_value(s: Seq<u8>) -> int
    decreases s.len(),
{
    if s.len() == 0 {
        0
    } else {
        10 * digits_value(s.drop_last()) + (s.last() - ZERO)
    }
}

/// The number that a field writes: one or more digits, with at most one
/// sign before them, that give a number of 32 bits. Any other field writes
/// none.
pub open spec fn field_value(field: Seq<u8>) -> Option<i32> {
    if field.len() == 0 {
        None
    } else {
        let signed: bool = field[0] == PLUS || field[0] == MINUS;
        let digits: Seq<u8> = if signed {
            field.skip(1)
        } else {
            field
        };
        let value: int = if field[0] == MINUS {
            -digits_value(digits)
        } else {
            digits_value(digits)
        };
        if digits.len() == 0 || !all_digits(digits) || value < i32::MIN || value > i32::MAX {
            None
        } else {
            Some(value as i32)
        }
    }
}

/// Where the field that starts at `i` ends: at the next space, or at the
/// end of the text.
pub open spec fn field_end(text: Seq<u8>, i: int) -> int
    decreases text.len() - i,
{
    if i < 0 || i >= text.len() || text[i] == SPACE {
        i
    } else {
        field_end(text, i + 1)
    }
}

/// The numbers of the fields from position `i` on, where a field starts;
/// none where one of the fields writes no number. Fields are what stands
/// between two spaces, before the first and behind the last.
pub open spec fn field_values(text: Seq<u8>, i: int) -> Option<Seq<i32>>
    decreases text.len() - i,
{
    if i < 0 || i > text.len() {
        None
    } else {
        let end = field_end(text, i);
        match field_value(text.subrange(i, end)) {
            None => None,
            Some(value) => if end >= text.len() || end < i {
                Some(seq![value])
            } else {
                match field_values(text, end + 1) {
                    None => None,
                    Some(rest) => Some(seq![value] + rest),
                }
            },
        }
    }
}

/// The description that a sequence of numbers gives: its first seven, of
/// which the first four fit in 16 bits. Fewer numbers give none.
pub open spec fn description_from_values(values: Seq<i32>) -> Option<SpriteDescription> {
    if values.len() < FIELDS || values[0] < i16::MIN || values[0] > i16::MAX || values[1]
        < i16::MIN || values[1] > i16::MAX || values[2] < i16::MIN || values[2] > i16::MAX
        || values[3] < i16::MIN || values[3] > i16::MAX {
        None
    } else {
        Some(
            SpriteDescription {
                bounds: SpriteBounds {
                    left: values[0] as i16,
                    top: values[1] as i16,
                    right: values[2] as i16,
                    bottom: values[3] as i16,
                },
                offsets: SpriteOffsets { x: values[4], y: values[5], x_flipped: values[6] },
            },
        )
    }
}

/// The description that a text gives; none where a field writes no number,
/// the fields are fewer than seven, or a side of the rectangle does not fit
/// in 16 bits.
pub open spec fn description_in(text: Seq<u8>) -> Option<SpriteDescription> {
    match field_values(text, 0) {
        None => None,
        Some(values) => description_from_values(values),
    }
}

/// The field ends in the text, behind where it starts, and holds no space.
pub proof fn lemma_field_end(text: Seq<u8>, i: int)
    requires
        0 <= i <= text.len(),
    ensures
        i <= field_end(text, i) <= text.len(),
        field_end(text, i) < text.len() ==> text[field_end(text, i)] == SPACE,
        forall|k: int| i <= k < field_end(text, i) ==> text[k] != SPACE,
    decreases text.len() - i,
{
    if i < text.len() && text[i] != SPACE {
        lemma_field_end(text, i + 1);
    }
}

/// More digits do not make a smaller number.
pub proof fn lemma_digits_grow(s: Seq<u8>, k: int)
    requires
        all_digits(s),
        0 <= k <= s.len(),
    ensures
        0 <= digits_value(s.take(k)) <= digits_value(s),
    decreases s.len() - k,
{
    if k < s.len() {
        lemma_digits_grow(s, k + 1);
        assert(s.take(k + 1).drop_last() =~= s.take(k));
        lemma_digits_nonnegative(s.take(k));
    } else {
        assert(s.take(k) =~= s);
        lemma_digits_nonnegative(s);
    }
}

/// Digits write no negative number.
pub proof fn lemma_digits_nonnegative(s: Seq<u8>)
    requires
        all_digits(s),
    ensures
        0 <= digits_value(s),
    decreases s.len(),
{
    if s.len() > 0 {
        lemma_digits_nonnegative(s.drop_last());
    }
}

/// Where the field that starts at `from` ends.
pub fn find_field_end(text: &[u8], from: usize) -> (end: usize)
    requires
        from <= text@.len(),
    ensures
        end == field_end(text@, from as int),
        from <= end <= text@.len(),
{
    let mut end: usize = from;
    while end < text.len() && text[end] != SPACE
        invariant
            from <= end <= text@.len(),
            field_end(text@, from as int) == field_end(text@, end as int),
        decreases text@.len() - end,
    {
        end += 1;
    }
    end
}

/// Reads the number that the bytes from `from` up to `to` write.
#[verifier::loop_isolation(false)]
pub fn parse_field(text: &[u8], from: usize, to: usize) -> (r: Option<i32>)
    requires
        from <= to <= text@.len(),
    ensures
        r == field_value(text@.subrange(from as int, to as int)),
{
    let ghost field = text@.subrange(from as int, to as int);
    if from == to {
        return None;
    }
    let negative: bool = text[from] == MINUS;
    let start: usize = if text[from] == PLUS || text[from] == MINUS {
        from + 1
    } else {
        from
    };
    let ghost digits = text@.subrange(start as int, to as int);
    assert(digits =~= if start > from {
        field.skip(1)
    } else {
        field
    });
    if start == to {
        return None;
    }
    let mut k: usize = start;
    while k < to
        invariant
            start <= k <= to <= text@.len(),
            digits == text@.subrange(start as int, to as int),
            forall|j: int| 0 <= j < k - start ==> is_digit(#[trigger] digits[j]),
        decreases to - k,
    {
        if text[k] < ZERO || text[k] > NINE {
            assert(!is_digit(digits[k - start]));
            return None;
        }
        k += 1;
    }
    assert(all_digits(digits));
    let mut value: i64 = 0;
    let mut k: usize = start;
    while k < to
        invariant
            start <= k <= to <= text@.len(),
            digits == text@.subrange(start as int, to as int),
            all_digits(digits),
            0 <= value <= 2147483648,
            value == digits_value(digits.take(k - start)),
        decreases to - k,
    {
        proof {
            assert(digits.take(k - start + 1).drop_last() =~= digits.take(k - start));
            lemma_digits_grow(digits, k - start + 1);
        }
        value = value * 10 + (text[k] - ZERO) as i64;
        if value > 2147483648 {
            return None;
        }
        k += 1;
    }
    assert(digits.take(to - start) =~= digits);
    if negative {
        Some((-value) as i32)
    } else if value > 2147483647 {
        None
    } else {
        Some(value as i32)
    }
}

/// What the numbers read so far and the numbers of the fields that follow
/// give together.
pub open spec fn continued(read: Seq<i32>, rest: Option<Seq<i32>>) -> Option<Seq<i32>> {
    match rest {
        None => None,
        Some(values) => Some(read + values),
    }
}

/// Reads the numbers of all the fields of a text.
pub fn parse_fields(text: &[u8]) -> (r: Option<Vec<i32>>)
    ensures
        match r {
            Some(values) => field_values(text@, 0) == Some(values@),
            None => field_values(text@, 0) is None,
        },
{
    let mut values: Vec<i32> = Vec::new();
    let mut i: usize = 0;
    assert(continued(values@, field_values(text@, 0)) =~= field_values(text@, 0));
    loop
        invariant
            i <= text@.len(),
            field_values(text@, 0) == continued(values@, field_values(text@, i as int)),
        decreases text@.len() - i,
    {
        let end: usize = find_field_end(text, i);
        let ghost read = values@;
        match parse_field(text, i, end) {
            None => {
                return None;
            },
            Some(value) => {
                values.push(value);
                if end >= text.len() {
                    assert(read + seq![value] =~= values@);
                    return Some(values);
                }
                proof {
                    let rest = field_values(text@, end + 1);
                    if rest is Some {
                        assert(read + (seq![value] + rest.unwrap()) =~= values@ + rest.unwrap());
                    }
                }
                i = end + 1;
            },
        }
    }
}

/// Reads the description of a sprite from its text.
pub fn parse_sprite_description(text: &[u8]) -> (r: Option<SpriteDescription>)
    ensures
        r == description_in(text@),
{
    match parse_fields(text) {
        None => None,
        Some(values) => {
            if values.len() < FIELDS {
                return None;
            }
            if values[0] < -32768 || values[0] > 32767 || values[1] < -32768 || values[1] > 32767
                || values[2] < -32768 || values[2] > 32767 || values[3] < -32768 || values[3]
                > 32767 {
                return None;
            }
            Some(
                SpriteDescription {
                    bounds: SpriteBounds {
                        left: values[0] as i16,
                        top: values[1] as i16,
                        right: values[2] as i16,
                        bottom: values[3] as i16,
                    },
                    offsets: SpriteOffsets { x: values[4], y: values[5], x_flipped: values[6] },
                },
            )
        },
    }
}

} // verus!
