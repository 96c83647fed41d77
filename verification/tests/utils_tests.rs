use pixel_app::utils::{color_to_hex_string, hex_string_to_color};

#[test]
fn test_convert_rgb_to_hex_string() {
    assert_eq!(color_to_hex_string(255, 255, 255), "ffffff");
    assert_eq!(color_to_hex_string(255, 254, 253), "fffefd");
    assert_eq!(color_to_hex_string(1, 2, 3), "010203");
    assert_eq!(color_to_hex_string(10, 10, 10), "0a0a0a");
    assert_eq!(color_to_hex_string(11, 12, 13), "0b0c0d");
}

#[test]
fn test_convert_hex_string_rgb() {
    assert_eq!(hex_string_to_color("000000".to_string()), (0, 0, 0));
    assert_eq!(hex_string_to_color("010203".to_string()), (1, 2, 3));
    assert_eq!(hex_string_to_color("fffefd".to_string()), (255, 254, 253));

    // Check failure conditions
    assert_eq!(hex_string_to_color("fff".to_string()), (0, 0, 0));
}

#[test]
fn hex_round_trip_on_samples() {
    for &(r, g, b) in &[(0u8, 0u8, 0u8), (255, 0, 128), (16, 15, 1), (171, 205, 239)] {
        assert_eq!(hex_string_to_color(color_to_hex_string(r, g, b)), (r, g, b));
    }
}

#[test]
fn hex_reads_upper_case_and_plus_sign() {
    assert_eq!(hex_string_to_color("ABCDEF".to_string()), (0xab, 0xcd, 0xef));
    assert_eq!(hex_string_to_color("+f+a+1".to_string()), (15, 10, 1));
}

#[test]
fn hex_of_other_byte_lengths_is_black() {
    assert_eq!(hex_string_to_color("".to_string()), (0, 0, 0));
    assert_eq!(hex_string_to_color("1234567".to_string()), (0, 0, 0));
    // six characters but seven bytes
    assert_eq!(hex_string_to_color("é12345".to_string()), (0, 0, 0));
}
