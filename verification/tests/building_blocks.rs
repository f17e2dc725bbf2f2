use sprite_codec::bytes::{i16_bits, i32_bits, push_all, push_le16, push_le32};
use sprite_codec::error::{EncodeError, FrameError};
use sprite_codec::iff::ChunkId;
use sprite_codec::pixels::{count_blank_rows, is_all_equal_to, row_slice, PixelBuffer};
use sprite_codec::spr::{Sprite, SpriteChannelType, SpriteType};
use sprite_codec::spr1::run_length;
use sprite_codec::spr2::{kind_run_length, push_word};
use sprite_codec::sprite::SpriteBounds;

#[test]
fn integers_are_stored_least_byte_first() {
    let mut out = vec![9];
    push_le16(&mut out, 0x1234);
    push_le32(&mut out, 0x89ABCDEF);
    push_le16(&mut out, 0);
    push_le32(&mut out, u32::MAX);
    assert_eq!(out, vec![9, 0x34, 0x12, 0xEF, 0xCD, 0xAB, 0x89, 0, 0, 255, 255, 255, 255]);
    push_all(&mut out, &vec![1, 2]);
    assert_eq!(&out[13..], &[1, 2]);
}

#[test]
fn signed_numbers_keep_their_bits() {
    assert_eq!(i16_bits(0), 0);
    assert_eq!(i16_bits(1), 1);
    assert_eq!(i16_bits(-1), 0xFFFF);
    assert_eq!(i16_bits(i16::MIN), 0x8000);
    assert_eq!(i16_bits(i16::MAX), 0x7FFF);
    assert_eq!(i32_bits(-2), 0xFFFF_FFFE);
    assert_eq!(i32_bits(i32::MIN), 0x8000_0000);
    assert_eq!(i32_bits(i32::MAX), 0x7FFF_FFFF);
}

#[test]
fn command_words_hold_command_and_count() {
    let mut out = Vec::new();
    push_word(&mut out, 0, 2);
    push_word(&mut out, 1, 8191);
    push_word(&mut out, 4, 300);
    push_word(&mut out, 5, 0);
    assert_eq!(out, vec![2, 0, 0xFF, 0x3F, 0x2C, 0x81, 0x00, 0xA0]);
}

#[test]
fn buffers_know_whether_their_pixels_fit_their_size() {
    assert!(PixelBuffer::new(2, 3, vec![0; 6]).is_wf());
    assert!(!PixelBuffer::new(2, 3, vec![0; 5]).is_wf());
    assert!(!PixelBuffer::new(2, 3, vec![0; 7]).is_wf());
    assert!(PixelBuffer::new(0, 9, vec![]).is_wf());
    assert!(!PixelBuffer::new(u32::MAX, u32::MAX, vec![]).is_wf());
}

#[test]
fn rows_are_cut_from_the_buffer() {
    let buffer = PixelBuffer::new(3, 2, vec![1, 2, 3, 4, 5, 6]);
    assert_eq!(row_slice(&buffer, 0), &[1, 2, 3]);
    assert_eq!(row_slice(&buffer, 1), &[4, 5, 6]);
}

#[test]
fn blank_rows_are_counted_to_the_first_row_with_a_pixel() {
    let buffer = PixelBuffer::new(2, 5, vec![7, 7, 7, 7, 7, 1, 7, 7, 7, 7]);
    assert_eq!(count_blank_rows(&buffer, 7, 0), 2);
    assert_eq!(count_blank_rows(&buffer, 7, 1), 1);
    assert_eq!(count_blank_rows(&buffer, 7, 2), 0);
    assert_eq!(count_blank_rows(&buffer, 7, 3), 2);
    assert_eq!(count_blank_rows(&buffer, 7, 5), 0);
    assert_eq!(count_blank_rows(&buffer, 1, 0), 0);
    assert!(is_all_equal_to(&[], 3));
    assert!(is_all_equal_to(&[3, 3], 3));
    assert!(!is_all_equal_to(&[3, 4], 3));
}

#[test]
fn runs_end_where_the_value_changes() {
    assert_eq!(run_length(&[1, 1, 1, 2, 2], 0), 3);
    assert_eq!(run_length(&[1, 1, 1, 2, 2], 1), 2);
    assert_eq!(run_length(&[1, 1, 1, 2, 2], 3), 2);
    assert_eq!(run_length(&[1, 1, 1, 2, 2], 4), 1);
    assert_eq!(kind_run_length(&[1, 2, 0, 3], &[255, 250, 255, 0], 0, 0), 2);
    assert_eq!(kind_run_length(&[1, 2, 0, 3], &[255, 250, 255, 0], 0, 2), 1);
    assert_eq!(kind_run_length(&[1, 2, 0, 3], &[255, 250, 255, 0], 0, 3), 1);
}

#[test]
fn rectangles_give_their_crop() {
    let bounds = SpriteBounds { left: 3, top: 4, right: 10, bottom: 4 };
    assert_eq!(bounds.crop(), Some((3, 4, 7, 0)));
    let bounds = SpriteBounds { left: 0, top: 0, right: 32767, bottom: 32767 };
    assert_eq!(bounds.crop(), Some((0, 0, 32767, 32767)));
    assert_eq!(SpriteBounds { left: -1, top: 0, right: 1, bottom: 1 }.crop(), None);
    assert_eq!(SpriteBounds { left: 0, top: -1, right: 1, bottom: 1 }.crop(), None);
    assert_eq!(SpriteBounds { left: 2, top: 0, right: 1, bottom: 1 }.crop(), None);
    assert_eq!(SpriteBounds { left: 0, top: 2, right: 1, bottom: 1 }.crop(), None);
}

#[test]
fn formats_read_their_channels() {
    let mut sprite = Sprite {
        chunk_label: String::new(),
        chunk_id: ChunkId::new(1),
        sprite_type: SpriteType::Spr1,
        multi_tile: 0,
        palette_chunk_id: ChunkId::new(1),
        sprite_frame_count: 0,
        is_custom_wall_style: false,
        sprite_frames: vec![],
    };
    assert!(sprite.needs_channel(SpriteChannelType::Color));
    assert!(!sprite.needs_channel(SpriteChannelType::Depth));
    assert!(!sprite.needs_channel(SpriteChannelType::Alpha));
    sprite.is_custom_wall_style = true;
    assert!(!sprite.needs_channel(SpriteChannelType::Color));
    assert!(sprite.needs_channel(SpriteChannelType::Depth));
    assert!(!sprite.needs_channel(SpriteChannelType::Alpha));
    sprite.sprite_type = SpriteType::Spr2;
    assert!(sprite.needs_channel(SpriteChannelType::Color));
    assert!(sprite.needs_channel(SpriteChannelType::Depth));
    assert!(sprite.needs_channel(SpriteChannelType::Alpha));
}

#[test]
fn frame_errors_are_told_of_their_frame() {
    assert_eq!(FrameError::Decode.at_frame(3), EncodeError::Decode { frame: 3 });
    assert_eq!(FrameError::Overflow.at_frame(0), EncodeError::EncodingOverflow { frame: 0 });
}
