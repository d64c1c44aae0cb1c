use lunabot::color::{
    extract_color, from_bit_field, from_color, hex_to_rgb, rgba_to_binary, to_bit_field,
    to_bit_field_checked, to_decimal, to_rgba, Rgba,
};

#[test]
fn to_decimal_reads_hex_digits() {
    assert_eq!(to_decimal("0".to_string()), 0);
    assert_eq!(to_decimal("9".to_string()), 9);
    assert_eq!(to_decimal("a".to_string()), 10);
    assert_eq!(to_decimal("f".to_string()), 15);
    assert_eq!(to_decimal("g".to_string()), 0);
    assert_eq!(to_decimal("F".to_string()), 0);
    assert_eq!(to_decimal("ab".to_string()), 0);
    assert_eq!(to_decimal("".to_string()), 0);
}

#[test]
fn from_color_knows_the_names() {
    assert_eq!(from_color("red".to_string()), "255,0,0");
    assert_eq!(from_color("orange".to_string()), "255,128,0");
    assert_eq!(from_color("mine".to_string()), "255,153,204");
    assert_eq!(from_color("gray".to_string()), "128,128,128");
    assert_eq!(from_color("teal".to_string()), "255,0,128");
    assert_eq!(from_color("Red".to_string()), "255,0,128");
}

#[test]
fn hex_to_rgb_reads_pairs() {
    assert_eq!(hex_to_rgb("#ffffff".to_string()), "255,255,255");
    assert_eq!(hex_to_rgb("#0a10ff".to_string()), "10,16,255");
    assert_eq!(hex_to_rgb("##aabbcc".to_string()), "170,187,204");
    assert_eq!(hex_to_rgb("#zz0000".to_string()), "0,0,0");
}

#[test]
fn to_rgba_reads_every_form() {
    assert_eq!(to_rgba("100,100,100".to_string()).0, [100, 100, 100, 100]);
    assert_eq!(to_rgba("(1,2,3)".to_string()).0, [1, 2, 3, 100]);
    assert_eq!(to_rgba("#abc".to_string()).0, [170, 187, 204, 100]);
    assert_eq!(to_rgba("#aabbcc".to_string()).0, [170, 187, 204, 100]);
    assert_eq!(to_rgba("#1234".to_string()).0, [255, 123, 200, 100]);
    assert_eq!(to_rgba("purple".to_string()).0, [128, 0, 255, 100]);
    assert_eq!(to_rgba("-5,+6,7,8".to_string()).0, [-5, 6, 7, 100]);
}

#[test]
fn rgba_to_binary_writes_eight_digits_at_least() {
    let c = Rgba([5, 300, -1, 100]);
    assert_eq!(rgba_to_binary(c, 0), "00000101");
    assert_eq!(rgba_to_binary(c, 1), "100101100");
    assert_eq!(rgba_to_binary(c, 2), "11111111111111111111111111111111");
    assert_eq!(rgba_to_binary(c, 3), "01100100");
}

#[test]
fn to_bit_field_of_each_form() {
    assert_eq!(to_bit_field("Red".to_string()), 16711680);
    assert_eq!(to_bit_field("blue".to_string()), 255);
    assert_eq!(to_bit_field("0,0,255".to_string()), 255);
    assert_eq!(to_bit_field("#FFFFFF".to_string()), 16777215);
    assert_eq!(to_bit_field("#fff".to_string()), 16777215);
    assert_eq!(to_bit_field("(100,100,100)".to_string()), 6579300);
    assert_eq!(to_bit_field("100,100,100".to_string()), 6579300);
    assert_eq!(to_bit_field("1,0,0".to_string()), 65536);
    assert_eq!(to_bit_field("256,0,0".to_string()), 256 * 65536);
}

#[test]
fn to_bit_field_checked_refuses_what_panics() {
    assert_eq!(to_bit_field_checked("1,2".to_string()), None);
    assert_eq!(to_bit_field_checked("a,b,c".to_string()), None);
    assert_eq!(to_bit_field_checked("#a#b#c#".to_string()), None);
    assert_eq!(to_bit_field_checked("-1,-1,-1".to_string()), None);
    assert_eq!(to_bit_field_checked("#12".to_string()), Some(255 * 65536 + 123 * 256 + 200));
    assert_eq!(to_bit_field_checked("green".to_string()), Some(65280));
}

#[test]
fn from_bit_field_reads_channels() {
    assert_eq!(from_bit_field(16711680).0, [255, 0, 0, 100]);
    assert_eq!(from_bit_field(255).0, [0, 0, 255, 100]);
    assert_eq!(from_bit_field(0).0, [0, 0, 0, 100]);
    assert_eq!(from_bit_field(0x123456).0, [0x12, 0x34, 0x56, 100]);
    assert_eq!(from_bit_field(1 << 24).0, [128, 0, 0, 100]);
    assert_eq!(from_bit_field(-1).0, [255, 255, 255, 100]);
}

#[test]
fn extract_color_reads_spaces_as_zeros() {
    let chunks = vec!["  101".to_string(), "11111111".to_string(), "-11".to_string()];
    assert_eq!(extract_color(chunks.clone(), 0), 5);
    assert_eq!(extract_color(chunks.clone(), 1), 255);
    assert_eq!(extract_color(chunks, 2), -3);
}

#[test]
fn color_round_trip_example() {
    let stored = to_bit_field("12,34,56".to_string());
    assert_eq!(from_bit_field(stored).0, [12, 34, 56, 100]);
    let stored = to_bit_field("255,255,0".to_string());
    assert_eq!(from_bit_field(stored).0, [255, 255, 0, 100]);
}

#[test]
fn short_hex_code_example() {
    assert_eq!(to_bit_field("#1a2".to_string()), to_bit_field("#11aa22".to_string()));
    assert_eq!(to_bit_field("#0F0".to_string()), to_bit_field("#00ff00".to_string()));
}

#[test]
fn case_and_parentheses_examples() {
    assert_eq!(to_bit_field("PINK".to_string()), to_bit_field("pink".to_string()));
    assert_eq!(to_bit_field("(7,8,9)".to_string()), to_bit_field("7,8,9".to_string()));
}

#[test]
fn hex_and_decimal_codes_give_the_same_number() {
    let value = 255 * 65536 + 128 * 256 + 7;
    assert_eq!(to_bit_field("255,128,7".to_string()), value);
    assert_eq!(to_bit_field("#ff8007".to_string()), value);
    assert_eq!(to_bit_field("#FF8007".to_string()), value);
    assert_eq!(to_bit_field("(255,128,7)".to_string()), value);
}
