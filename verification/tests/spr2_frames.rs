use sprite_codec::error::FrameError;
use sprite_codec::pixels::PixelBuffer;
use sprite_codec::spr2::{classify, encode_frame, encode_row, PixelKind};
use sprite_codec::sprite::SpriteBounds;

/// Reads back what is drawn for the pixels that the commands of a row
/// stand for: depth, colour, scaled alpha.
fn decode_row(body: &[u8], transparent: u8) -> Vec<(u8, u8, u8)> {
    let mut pixels = Vec::new();
    let mut at = 0;
    while at + 2 <= body.len() {
        let word = u16::from_le_bytes([body[at], body[at + 1]]);
        let count = (word & 0x1fff) as usize;
        at += 2;
        match word >> 13 {
            3 => {
                for _ in 0..count {
                    pixels.push((0, transparent, 0));
                }
            }
            2 => {
                for _ in 0..count {
                    pixels.push((body[at], body[at + 1], body[at + 2]));
                    at += 3;
                }
                if count % 2 == 1 {
                    assert_eq!(body[at], 0);
                    at += 1;
                }
            }
            1 => {
                for _ in 0..count {
                    pixels.push((body[at], body[at + 1], 31));
                    at += 2;
                }
            }
            other => panic!("no command of a row: {}", other),
        }
    }
    assert_eq!(at, body.len());
    pixels
}

fn drawn(depth: u8, color: u8, alpha: u8, transparent: u8) -> (u8, u8, u8) {
    if color == transparent {
        (0, transparent, 0)
    } else if alpha >> 3 < 31 {
        (depth, color, alpha >> 3)
    } else {
        (depth, color, 31)
    }
}

fn assert_round_trip(depth: &[u8], color: &[u8], alpha: &[u8], transparent: u8) {
    let body = encode_row(depth, color, alpha, transparent).unwrap();
    let mut decoded = decode_row(&body, transparent);
    assert!(decoded.len() <= color.len());
    decoded.resize(color.len(), (0, transparent, 0));
    let expected: Vec<(u8, u8, u8)> = (0..color.len())
        .map(|i| drawn(depth[i], color[i], alpha[i], transparent))
        .collect();
    assert_eq!(decoded, expected);
}

fn bounds(left: i16, top: i16, right: i16, bottom: i16) -> SpriteBounds {
    SpriteBounds { left, top, right, bottom }
}

#[test]
fn spr2_pixels_are_classified_by_colour_first() {
    assert_eq!(classify(0, 255, 0), PixelKind::Transparent);
    assert_eq!(classify(0, 0, 0), PixelKind::Transparent);
    assert_eq!(classify(1, 0, 0), PixelKind::Translucent);
    assert_eq!(classify(1, 247, 0), PixelKind::Translucent);
    assert_eq!(classify(1, 248, 0), PixelKind::Opaque);
    assert_eq!(classify(1, 255, 0), PixelKind::Opaque);
    assert_eq!(classify(0, 255, 9), PixelKind::Opaque);
}

#[test]
fn spr2_opaque_run_has_two_bytes_a_pixel_and_no_pad() {
    assert_eq!(
        encode_row(&[9], &[1], &[255], 0),
        Some(vec![0x01, 0x20, 9, 1])
    );
    assert_eq!(
        encode_row(&[9, 8], &[1, 2], &[255, 250], 0),
        Some(vec![0x02, 0x20, 9, 1, 8, 2])
    );
    assert_eq!(
        encode_row(&[9, 8, 7], &[1, 2, 3], &[255, 255, 255], 0),
        Some(vec![0x03, 0x20, 9, 1, 8, 2, 7, 3])
    );
}

#[test]
fn spr2_translucent_run_has_three_bytes_a_pixel_and_a_pad_if_odd() {
    assert_eq!(
        encode_row(&[5], &[1], &[100], 0),
        Some(vec![0x01, 0x40, 5, 1, 12, 0])
    );
    assert_eq!(
        encode_row(&[5, 6], &[1, 2], &[100, 7], 0),
        Some(vec![0x02, 0x40, 5, 1, 12, 6, 2, 0])
    );
    assert_eq!(
        encode_row(&[5, 6, 7], &[1, 2, 3], &[0, 8, 247], 0),
        Some(vec![0x03, 0x40, 5, 1, 0, 6, 2, 1, 7, 3, 30, 0])
    );
}

#[test]
fn spr2_transparent_run_is_a_word_alone() {
    assert_eq!(
        encode_row(&[1, 2, 3], &[0, 0, 4], &[255, 3, 255], 0),
        Some(vec![0x02, 0x60, 0x01, 0x20, 3, 4])
    );
}

#[test]
fn spr2_transparent_run_up_to_the_end_is_left_out() {
    assert_eq!(
        encode_row(&[1, 2, 3], &[4, 0, 0], &[255, 255, 255], 0),
        Some(vec![0x01, 0x20, 1, 4])
    );
    assert_eq!(encode_row(&[1, 2], &[0, 0], &[9, 9], 0), Some(vec![]));
    assert_eq!(encode_row(&[], &[], &[], 0), Some(vec![]));
}

#[test]
fn spr2_runs_change_with_the_kind() {
    assert_eq!(
        encode_row(&[1, 2, 3, 4], &[5, 6, 7, 8], &[255, 0, 255, 255], 0),
        Some(vec![
            0x01, 0x20, 1, 5, 0x01, 0x40, 2, 6, 0, 0, 0x02, 0x20, 3, 7, 4, 8
        ])
    );
}

#[test]
fn spr2_frame_has_header_rows_and_end_word() {
    let depth = PixelBuffer::new(2, 1, vec![9, 8]);
    let color = PixelBuffer::new(2, 1, vec![1, 2]);
    let alpha = PixelBuffer::new(2, 1, vec![255, 255]);
    assert_eq!(
        encode_frame(&bounds(3, 4, 5, 5), -1, 0, &depth, &color, &alpha),
        Ok(vec![
            2, 0, 1, 0, 7, 0, 0, 0, 255, 255, 0, 0, 4, 0, 3, 0, 8, 0, 0x02, 0x20, 9, 1, 8, 2,
            0x00, 0xA0
        ])
    );
}

#[test]
fn spr2_frame_header_holds_palette_and_transparent_colour() {
    let depth = PixelBuffer::new(0, 0, vec![]);
    let color = PixelBuffer::new(0, 0, vec![]);
    let alpha = PixelBuffer::new(0, 0, vec![]);
    assert_eq!(
        encode_frame(&bounds(300, 7, 300, 7), 0x1234, 200, &depth, &color, &alpha),
        Ok(vec![0, 0, 0, 0, 7, 0, 0, 0, 0x34, 0x12, 200, 0, 7, 0, 0x2C, 0x01, 0x00, 0xA0])
    );
    assert_eq!(
        encode_frame(&bounds(0, 0, 0, 0), -2, 0, &depth, &color, &alpha),
        Ok(vec![0, 0, 0, 0, 7, 0, 0, 0, 0xFE, 0xFF, 0, 0, 0, 0, 0, 0, 0x00, 0xA0])
    );
}

#[test]
fn spr2_blank_frame_is_one_word() {
    let depth = PixelBuffer::new(2, 3, vec![1; 6]);
    let color = PixelBuffer::new(2, 3, vec![0; 6]);
    let alpha = PixelBuffer::new(2, 3, vec![255; 6]);
    assert_eq!(
        encode_frame(&bounds(0, 0, 2, 3), 1, 0, &depth, &color, &alpha),
        Ok(vec![2, 0, 3, 0, 7, 0, 0, 0, 1, 0, 0, 0, 0, 0, 0, 0, 0x03, 0x80, 0x00, 0xA0])
    );
}

#[test]
fn spr2_blank_rows_are_skipped_by_colour_alone() {
    let depth = PixelBuffer::new(1, 4, vec![1, 2, 3, 4]);
    let color = PixelBuffer::new(1, 4, vec![5, 0, 0, 6]);
    let alpha = PixelBuffer::new(1, 4, vec![255, 0, 255, 8]);
    assert_eq!(
        encode_frame(&bounds(0, 0, 1, 4), 1, 0, &depth, &color, &alpha),
        Ok(vec![
            1, 0, 4, 0, 7, 0, 0, 0, 1, 0, 0, 0, 0, 0, 0, 0, 6, 0, 0x01, 0x20, 1, 5, 0x02, 0x80,
            8, 0, 0x01, 0x40, 4, 6, 1, 0, 0x00, 0xA0
        ])
    );
}

#[test]
fn spr2_rectangle_and_channels_must_agree() {
    let good = PixelBuffer::new(2, 1, vec![1, 1]);
    let short = PixelBuffer::new(2, 1, vec![1]);
    let other = PixelBuffer::new(1, 2, vec![1, 1]);
    let b = bounds(0, 0, 2, 1);
    assert!(encode_frame(&b, 1, 0, &good, &good, &good).is_ok());
    assert_eq!(encode_frame(&b, 1, 0, &short, &good, &good), Err(FrameError::Decode));
    assert_eq!(encode_frame(&b, 1, 0, &good, &other, &good), Err(FrameError::Decode));
    assert_eq!(encode_frame(&b, 1, 0, &good, &good, &other), Err(FrameError::Decode));
    assert_eq!(
        encode_frame(&bounds(1, 0, 2, 1), 1, 0, &good, &good, &good),
        Err(FrameError::Decode)
    );
}

#[test]
fn spr2_rectangle_with_a_negative_corner_or_side_fails() {
    let empty = PixelBuffer::new(0, 0, vec![]);
    assert_eq!(
        encode_frame(&bounds(-1, 0, -1, 0), 1, 0, &empty, &empty, &empty),
        Err(FrameError::Decode)
    );
    assert_eq!(
        encode_frame(&bounds(0, -1, 0, -1), 1, 0, &empty, &empty, &empty),
        Err(FrameError::Decode)
    );
    assert_eq!(
        encode_frame(&bounds(2, 0, 1, 0), 1, 0, &empty, &empty, &empty),
        Err(FrameError::Decode)
    );
    assert_eq!(
        encode_frame(&bounds(0, 2, 0, 1), 1, 0, &empty, &empty, &empty),
        Err(FrameError::Decode)
    );
}

#[test]
fn spr2_counts_over_thirteen_bits_fail() {
    let mut color = vec![0u8; 8191];
    color.push(1);
    let depth = vec![0u8; 8192];
    let alpha = vec![255u8; 8192];
    assert_eq!(
        encode_row(&depth, &color, &alpha, 0),
        Some(vec![0xFF, 0x7F, 0x01, 0x20, 0, 1])
    );
    let mut color = vec![0u8; 8192];
    color.push(1);
    let depth = vec![0u8; 8193];
    let alpha = vec![255u8; 8193];
    assert_eq!(encode_row(&depth, &color, &alpha, 0), None);
    let color = vec![1u8; 8192];
    assert_eq!(encode_row(&depth[..8192], &color, &alpha[..8192], 0), None);
}

#[test]
fn spr2_rows_over_thirteen_bits_fail() {
    let depth = vec![3u8; 4094];
    let color = vec![1u8; 4094];
    let alpha = vec![255u8; 4094];
    let body = encode_row(&depth[..4093], &color[..4093], &alpha[..4093], 0).unwrap();
    assert_eq!(body.len(), 8188);
    assert_eq!(encode_row(&depth, &color, &alpha, 0), None);
    let depth = PixelBuffer::new(4094, 1, depth);
    let color = PixelBuffer::new(4094, 1, color);
    let alpha = PixelBuffer::new(4094, 1, alpha);
    assert_eq!(
        encode_frame(&bounds(0, 0, 4094, 1), 1, 0, &depth, &color, &alpha),
        Err(FrameError::Overflow)
    );
}

#[test]
fn spr2_too_many_blank_rows_overflow() {
    let depth = PixelBuffer::new(1, 8192, vec![0; 8192]);
    let color = PixelBuffer::new(1, 8192, vec![0; 8192]);
    let alpha = PixelBuffer::new(1, 8192, vec![0; 8192]);
    assert_eq!(
        encode_frame(&bounds(0, 0, 1, 8192), 1, 0, &depth, &color, &alpha),
        Err(FrameError::Overflow)
    );
    let depth = PixelBuffer::new(1, 8191, vec![0; 8191]);
    let color = PixelBuffer::new(1, 8191, vec![0; 8191]);
    let alpha = PixelBuffer::new(1, 8191, vec![0; 8191]);
    assert_eq!(
        encode_frame(&bounds(0, 0, 1, 8191), 1, 0, &depth, &color, &alpha),
        Ok(vec![1, 0, 0xFF, 0x1F, 7, 0, 0, 0, 1, 0, 0, 0, 0, 0, 0, 0, 0xFF, 0x9F, 0x00, 0xA0])
    );
}

#[test]
fn spr2_decoding_a_row_gives_back_what_is_drawn() {
    assert_round_trip(&[], &[], &[], 0);
    assert_round_trip(&[1, 2, 3], &[0, 5, 0], &[255, 255, 255], 0);
    assert_round_trip(&[1, 2, 3, 4], &[9, 9, 9, 9], &[0, 128, 248, 255], 0);
    let mut state: u32 = 99;
    for _ in 0..200 {
        let mut depth = Vec::new();
        let mut color = Vec::new();
        let mut alpha = Vec::new();
        state = state.wrapping_mul(1664525).wrapping_add(1013904223);
        let width = (state >> 24) % 40;
        for _ in 0..width {
            state = state.wrapping_mul(1664525).wrapping_add(1013904223);
            depth.push((state >> 8) as u8);
            color.push(((state >> 16) % 3) as u8);
            alpha.push(if (state >> 20) % 2 == 0 { 255 } else { (state >> 24) as u8 });
        }
        assert_round_trip(&depth, &color, &alpha, 0);
        assert_round_trip(&depth, &color, &alpha, 2);
    }
}

#[test]
fn spr2_decoding_a_frame_gives_back_what_is_drawn() {
    let mut state: u32 = 777;
    for _ in 0..100 {
        state = state.wrapping_mul(1664525).wrapping_add(1013904223);
        let width = (state >> 24) % 9;
        state = state.wrapping_mul(1664525).wrapping_add(1013904223);
        let height = (state >> 24) % 9;
        let mut depth = Vec::new();
        let mut color = Vec::new();
        let mut alpha = Vec::new();
        for _ in 0..height {
            state = state.wrapping_mul(1664525).wrapping_add(1013904223);
            let blank = (state >> 28) % 3 == 0;
            for _ in 0..width {
                state = state.wrapping_mul(1664525).wrapping_add(1013904223);
                depth.push((state >> 8) as u8);
                color.push(if blank { 0 } else { ((state >> 16) % 3) as u8 });
                alpha.push(if (state >> 20) % 2 == 0 { 255 } else { (state >> 24) as u8 });
            }
        }
        let frame = encode_frame(
            &bounds(5, 6, 5 + width as i16, 6 + height as i16),
            3,
            0,
            &PixelBuffer::new(width, height, depth.clone()),
            &PixelBuffer::new(width, height, color.clone()),
            &PixelBuffer::new(width, height, alpha.clone()),
        )
        .unwrap();
        assert_eq!(u16::from_le_bytes([frame[0], frame[1]]) as u32, width);
        assert_eq!(u16::from_le_bytes([frame[2], frame[3]]) as u32, height);
        assert_eq!(&frame[frame.len() - 2..], &[0x00, 0xA0]);
        let rows = &frame[16..frame.len() - 2];
        let mut decoded = Vec::new();
        let mut at = 0;
        while at < rows.len() {
            let word = u16::from_le_bytes([rows[at], rows[at + 1]]);
            let argument = (word & 0x1fff) as usize;
            match word >> 13 {
                4 => {
                    decoded.resize(decoded.len() + argument * width as usize, (0, 0, 0));
                    at += 2;
                }
                0 => {
                    let end = decoded.len() + width as usize;
                    decoded.extend(decode_row(&rows[at + 2..at + argument], 0));
                    assert!(decoded.len() <= end);
                    decoded.resize(end, (0, 0, 0));
                    at += argument;
                }
                other => panic!("no command of a frame: {}", other),
            }
        }
        let expected: Vec<(u8, u8, u8)> =
            (0..color.len()).map(|i| drawn(depth[i], color[i], alpha[i], 0)).collect();
        assert_eq!(decoded, expected);
    }
}
