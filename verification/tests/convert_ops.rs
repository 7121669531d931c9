use bdp::conversion::{
    ascii_to_hex, binary_to_decimal, decimal_to_binary, decimal_to_hex, fish_path_hex_conv,
    hex_to_ascii, hex_to_decimal, hex_to_rgb,
};
use bdp::OpError;

#[test]
fn ascii_to_hex_is_lower_case_utf8() {
    assert_eq!(ascii_to_hex("abc"), "616263");
    assert_eq!(ascii_to_hex("é"), "c3a9");
}

#[test]
fn hex_to_ascii_decodes() {
    assert_eq!(hex_to_ascii("616263").unwrap(), "abc");
    assert_eq!(hex_to_ascii("C3A9").unwrap(), "é");
}

#[test]
fn hex_round_trip() {
    let samples = ["", "abc", "héllo wörld", "line\nbreak"];
    for s in samples {
        assert_eq!(hex_to_ascii(&ascii_to_hex(s)).unwrap(), s);
    }
}

#[test]
fn hex_to_ascii_rejects_bad_input() {
    let e = hex_to_ascii("zz").unwrap_err();
    assert_eq!(e, OpError::InvalidHex);
    assert_eq!(e.message(), "Invalid hex provided.");
    assert_eq!(hex_to_ascii("616").unwrap_err(), OpError::InvalidHex);
    // 0xff alone is not valid UTF-8.
    assert_eq!(hex_to_ascii("ff").unwrap_err(), OpError::HexNotUtf8);
}

#[test]
fn binary_and_decimal_round() {
    assert_eq!(decimal_to_binary("10").unwrap(), "1010");
    assert_eq!(binary_to_decimal("1010").unwrap(), "10");
    assert_eq!(binary_to_decimal("-101").unwrap(), "-5");
    assert_eq!(binary_to_decimal("+101").unwrap(), "5");
}

#[test]
fn negative_decimal_prints_the_bit_pattern() {
    assert_eq!(decimal_to_binary("-1").unwrap(), "11111111111111111111111111111111");
    assert_eq!(decimal_to_hex("-1").unwrap(), "ffffffff");
}

#[test]
fn binary_to_decimal_rejects_bad_input() {
    assert_eq!(binary_to_decimal("102").unwrap_err(), OpError::NotBinary);
    assert_eq!(binary_to_decimal("").unwrap_err(), OpError::NotBinary);
    assert_eq!(
        binary_to_decimal("100000000000000000000000000000000").unwrap_err(),
        OpError::NotBinary,
    );
    assert_eq!(binary_to_decimal("-10000000000000000000000000000000").unwrap(), "-2147483648");
}

#[test]
fn decimal_to_hex_and_back() {
    assert_eq!(decimal_to_hex("255").unwrap(), "ff");
    assert_eq!(hex_to_decimal("ff").unwrap(), "255");
    assert_eq!(hex_to_decimal("FF").unwrap(), "255");
    assert_eq!(decimal_to_hex("2147483648").unwrap_err(), OpError::NotDecimal);
    assert_eq!(hex_to_decimal("0xff").unwrap_err(), OpError::NotHexNumber);
    assert_eq!(hex_to_decimal("ffffffff").unwrap(), "4294967295");
    assert_eq!(hex_to_decimal("100000000").unwrap_err(), OpError::NotHexNumber);
}

#[test]
fn rgb_from_leading_hex_digits() {
    assert_eq!(hex_to_rgb("#336699").unwrap(), "(51, 102, 153)");
    assert_eq!(hex_to_rgb("336699").unwrap(), "(51, 102, 153)");
    assert_eq!(hex_to_rgb("##336699ff").unwrap(), "(51, 102, 153)");
}

#[test]
fn rgb_rejects_short_or_bad_input() {
    let e = hex_to_rgb("#36").unwrap_err();
    assert_eq!(e, OpError::RgbTooShort);
    assert_eq!(e.message(), "Hex string must be at least 6 characters for RGB.");
    assert_eq!(hex_to_rgb("#zzzzzz").unwrap_err(), OpError::RgbInvalidHex);
}

#[test]
fn fish_hex_escapes_every_byte() {
    assert_eq!(fish_path_hex_conv("/a"), "\\x2f\\x61");
    assert_eq!(fish_path_hex_conv("é"), "\\xc3\\xa9");
}
