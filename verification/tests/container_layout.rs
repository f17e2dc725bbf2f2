use sprite_codec::container::{assemble, SPR1_VERSION, SPR2_VERSION};

#[test]
fn payload_holds_version_count_palette_offsets_and_frames() {
    let frames = vec![vec![1, 2, 3], vec![4, 5]];
    assert_eq!(
        assemble(SPR1_VERSION, 7, &frames),
        Ok(vec![
            0xF8, 0x01, 0, 0, 2, 0, 0, 0, 7, 0, 0, 0, 20, 0, 0, 0, 23, 0, 0, 0, 1, 2, 3, 4, 5
        ])
    );
}

#[test]
fn payload_without_frames_is_its_header() {
    assert_eq!(
        assemble(SPR2_VERSION, -1, &vec![]),
        Ok(vec![0xE8, 0x03, 0, 0, 0, 0, 0, 0, 255, 255, 255, 255])
    );
}

#[test]
fn negative_palette_is_stored_in_twos_complement() {
    assert_eq!(
        assemble(1, -32768, &vec![]),
        Ok(vec![1, 0, 0, 0, 0, 0, 0, 0, 0x00, 0x80, 0xFF, 0xFF])
    );
    assert_eq!(
        assemble(1, i32::MIN, &vec![]),
        Ok(vec![1, 0, 0, 0, 0, 0, 0, 0, 0, 0, 0, 0x80])
    );
}

#[test]
fn offsets_are_running_sums_behind_the_table() {
    let frames: Vec<Vec<u8>> = vec![vec![9; 300], vec![8; 1], vec![7; 70000], vec![6; 2]];
    let payload = assemble(SPR2_VERSION, 3, &frames).unwrap();
    let mut expected = 12 + 4 * frames.len();
    for (i, frame) in frames.iter().enumerate() {
        let at = 12 + 4 * i;
        let offset = u32::from_le_bytes([
            payload[at],
            payload[at + 1],
            payload[at + 2],
            payload[at + 3],
        ]) as usize;
        assert_eq!(offset, expected);
        assert_eq!(&payload[offset..offset + frame.len()], frame.as_slice());
        expected += frame.len();
    }
    assert_eq!(payload.len(), expected);
    assert_eq!(&payload[28..30], &[9, 9]);
    assert_eq!(&payload[12..28], &[28, 0, 0, 0, 0x48, 0x01, 0, 0, 0x49, 0x01, 0, 0, 0xB9, 0x12, 0x01, 0]);
}
