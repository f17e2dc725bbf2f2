use sprite_codec::description::{find_field_end, parse_field, parse_fields, parse_sprite_description};
use sprite_codec::mask::AlphaMask;
use sprite_codec::sprite::{
    calculate_sprite_description, center_of, find_sprite_description_file_path,
    get_sprite_description_file_path, ink_bounds, try_calculate_sprite_description, SpriteBounds,
    SpriteDescription, SpriteOffsets, ZoomLevel,
};

fn description(bounds: [i16; 4], offsets: [i32; 3]) -> SpriteDescription {
    SpriteDescription {
        bounds: SpriteBounds {
            left: bounds[0],
            top: bounds[1],
            right: bounds[2],
            bottom: bounds[3],
        },
        offsets: SpriteOffsets { x: offsets[0], y: offsets[1], x_flipped: offsets[2] },
    }
}

#[test]
fn mask_tells_its_size_and_pixels() {
    let mask = AlphaMask::new(3, 2, vec![1, 2, 3, 4, 5, 6]).unwrap();
    assert_eq!(mask.width(), 3);
    assert_eq!(mask.height(), 2);
    assert_eq!(mask.get(0, 0), Some(1));
    assert_eq!(mask.get(2, 0), Some(3));
    assert_eq!(mask.get(0, 1), Some(4));
    assert_eq!(mask.get(2, 1), Some(6));
    assert_eq!(mask.get(3, 0), None);
    assert_eq!(mask.get(0, 2), None);
}

#[test]
fn mask_needs_a_byte_for_each_pixel() {
    assert!(AlphaMask::new(3, 2, vec![0; 5]).is_none());
    assert!(AlphaMask::new(3, 2, vec![0; 6]).is_some());
    assert!(AlphaMask::new(3, 2, vec![0; 7]).is_some());
    assert!(AlphaMask::new(0, 0, vec![]).is_some());
    assert!(AlphaMask::new(u32::MAX, u32::MAX, vec![0; 4]).is_none());
}

#[test]
fn mask_finds_ink_in_columns_and_rows() {
    let mask = AlphaMask::new(3, 2, vec![0, 0, 0, 0, 9, 0]).unwrap();
    assert!(!mask.column_has_ink(0));
    assert!(mask.column_has_ink(1));
    assert!(!mask.column_has_ink(2));
    assert!(!mask.row_has_ink(0));
    assert!(mask.row_has_ink(1));
}

#[test]
fn description_is_the_rectangle_of_the_ink_and_its_offsets() {
    let mut samples = vec![0u8; 12];
    samples[1 * 4 + 1] = 200;
    samples[2 * 4 + 2] = 1;
    let mask = AlphaMask::new(4, 3, samples).unwrap();
    assert_eq!(ink_bounds(&mask), (1, 1, 3, 3));
    assert_eq!(
        calculate_sprite_description(&mask, ZoomLevel::Zero),
        description([1, 1, 3, 3], [-67, -344, -67])
    );
    assert_eq!(
        calculate_sprite_description(&mask, ZoomLevel::One),
        description([1, 1, 3, 3], [-33, -170, -33])
    );
    assert_eq!(
        calculate_sprite_description(&mask, ZoomLevel::Two),
        description([1, 1, 3, 3], [-16, -83, -16])
    );
}

#[test]
fn description_of_a_wide_sprite() {
    let mut samples = vec![0u8; 200 * 400];
    samples[390 * 200 + 150] = 255;
    samples[20 * 200 + 100] = 255;
    let mask = AlphaMask::new(200, 400, samples).unwrap();
    assert_eq!(
        try_calculate_sprite_description(&mask, ZoomLevel::Zero),
        Some(description([100, 20, 151, 391], [32, 44, -19]))
    );
}

#[test]
fn description_of_an_image_without_ink() {
    let mask = AlphaMask::new(2, 2, vec![0; 4]).unwrap();
    assert_eq!(ink_bounds(&mask), (0, 0, 1, 1));
    assert_eq!(
        calculate_sprite_description(&mask, ZoomLevel::Zero),
        description([0, 0, 1, 1], [-68, -346, -67])
    );
    let mask = AlphaMask::new(0, 0, vec![]).unwrap();
    assert_eq!(
        calculate_sprite_description(&mask, ZoomLevel::Two),
        description([0, 0, 1, 1], [-17, -85, -18])
    );
}

#[test]
fn description_needs_sides_of_fifteen_bits() {
    let mut samples = vec![0u8; 32768];
    samples[32767] = 1;
    let mask = AlphaMask::new(32768, 1, samples).unwrap();
    assert_eq!(try_calculate_sprite_description(&mask, ZoomLevel::Zero), None);
    let mut samples = vec![0u8; 32768];
    samples[32766] = 1;
    let mask = AlphaMask::new(32768, 1, samples).unwrap();
    assert_eq!(
        try_calculate_sprite_description(&mask, ZoomLevel::Zero),
        Some(description([32766, 0, 32767, 1], [32698, -346, -67]))
    );
}

#[test]
fn centres_halve_with_each_zoom_level() {
    assert_eq!(center_of(ZoomLevel::Zero), (68, 348));
    assert_eq!(center_of(ZoomLevel::One), (34, 174));
    assert_eq!(center_of(ZoomLevel::Two), (17, 87));
}

#[test]
fn description_path_replaces_the_ending() {
    assert_eq!(
        get_sprite_description_file_path("sprites/chair_large_nw_a.bmp"),
        "sprites/chair_large_nw description.txt"
    );
    assert_eq!(get_sprite_description_file_path("_a.bmp"), " description.txt");
    assert_eq!(
        find_sprite_description_file_path("gr\u{fc}n_a.bmp"),
        Some("gr\u{fc}n description.txt".to_string())
    );
}

#[test]
fn description_path_needs_the_ending() {
    assert_eq!(find_sprite_description_file_path("chair_p.bmp"), None);
    assert_eq!(find_sprite_description_file_path("a.bmp"), None);
    assert_eq!(find_sprite_description_file_path(""), None);
    assert_eq!(find_sprite_description_file_path("chair_a.bmp "), None);
    assert_eq!(find_sprite_description_file_path("chair_A.bmp"), None);
}

#[test]
fn description_text_is_seven_numbers() {
    assert_eq!(
        parse_sprite_description(b"10 20 30 40 -58 -308 -60"),
        Some(description([10, 20, 30, 40], [-58, -308, -60]))
    );
    assert_eq!(
        parse_sprite_description(b"-1 +2 003 -0 2147483647 -2147483648 0"),
        Some(description([-1, 2, 3, 0], [2147483647, -2147483648, 0]))
    );
    assert_eq!(
        parse_sprite_description(b"1 2 3 4 5 6 7 8 9"),
        Some(description([1, 2, 3, 4], [5, 6, 7]))
    );
    assert_eq!(
        parse_sprite_description(b"32767 -32768 0 0 0 0 0"),
        Some(description([32767, -32768, 0, 0], [0, 0, 0]))
    );
}

#[test]
fn description_text_with_a_fault_gives_none() {
    assert_eq!(parse_sprite_description(b""), None);
    assert_eq!(parse_sprite_description(b"1 2 3 4 5 6"), None);
    assert_eq!(parse_sprite_description(b"1 2 3 4 5 6 7\n"), None);
    assert_eq!(parse_sprite_description(b"1 2 3 4 5 6 7 "), None);
    assert_eq!(parse_sprite_description(b" 1 2 3 4 5 6 7"), None);
    assert_eq!(parse_sprite_description(b"1  2 3 4 5 6 7"), None);
    assert_eq!(parse_sprite_description(b"1 2 3 4 5 6 7 x"), None);
    assert_eq!(parse_sprite_description(b"1 2 3 4 5 6 2147483648"), None);
    assert_eq!(parse_sprite_description(b"1 2 3 4 5 -2147483649 7"), None);
    assert_eq!(parse_sprite_description(b"1 2 3 4 5 6 99999999999999999999999"), None);
    assert_eq!(parse_sprite_description(b"32768 2 3 4 5 6 7"), None);
    assert_eq!(parse_sprite_description(b"1 2 3 -32769 5 6 7"), None);
    assert_eq!(parse_sprite_description(b"1 2 3 4 5 6 +"), None);
    assert_eq!(parse_sprite_description(b"1 2 3 4 5 6 -"), None);
    assert_eq!(parse_sprite_description(b"1 2 3 4 5 6 +-7"), None);
    assert_eq!(parse_sprite_description(b"1 2 3 4 5 6 7.0"), None);
    assert_eq!(parse_sprite_description(b"1\t2 3 4 5 6 7"), None);
}

#[test]
fn fields_end_at_spaces() {
    assert_eq!(find_field_end(b"12 345", 0), 2);
    assert_eq!(find_field_end(b"12 345", 2), 2);
    assert_eq!(find_field_end(b"12 345", 3), 6);
    assert_eq!(find_field_end(b"12 345", 6), 6);
    assert_eq!(parse_field(b"12 345", 3, 6), Some(345));
    assert_eq!(parse_field(b"12 345", 0, 2), Some(12));
    assert_eq!(parse_field(b"12 345", 2, 2), None);
    assert_eq!(parse_field(b"12 345", 0, 6), None);
    assert_eq!(parse_fields(b"4 -5 6"), Some(vec![4, -5, 6]));
    assert_eq!(parse_fields(b"7"), Some(vec![7]));
    assert_eq!(parse_fields(b""), None);
    assert_eq!(parse_fields(b"4 "), None);
}
