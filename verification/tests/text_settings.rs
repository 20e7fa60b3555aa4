use maya_mcp::settings::read_env_u64;
use maya_mcp::text::{append_padded, decimal_text, join, parse_at_most, trim, trim_end};

#[test]
fn numbers_are_written_in_decimal() {
    assert_eq!(decimal_text(0), "0");
    assert_eq!(decimal_text(10), "10");
    assert_eq!(decimal_text(5055), "5055");
    assert_eq!(decimal_text(u128::MAX), u128::MAX.to_string());
}

#[test]
fn numbers_are_padded() {
    let mut out = String::from(">");
    append_padded(&mut out, 7, 2);
    append_padded(&mut out, -1, 4);
    append_padded(&mut out, 12345, 4);
    append_padded(&mut out, i64::MIN, 0);
    assert_eq!(out, ">07-00112345-9223372036854775808");
}

#[test]
fn written_numbers_read_back() {
    for n in [0u64, 1, 9, 10, 99, 100, 65_535, 65_536, u64::MAX] {
        assert_eq!(parse_at_most(&decimal_text(n as u128), u64::MAX), Some(n));
    }
}

#[test]
fn numbers_are_read_as_the_standard_library_reads_them() {
    for text in [
        "", "+", "-", "0", "+7", "++7", "-7", "007", " 7", "7 ", "7a", "65535", "65536", "+65535",
        "000000000000000000000000000000000000009", "99999999999999999999", "７",
    ] {
        assert_eq!(parse_at_most(text, 65_535), text.parse::<u16>().ok().map(u64::from));
        assert_eq!(parse_at_most(text, u64::MAX), text.parse::<u64>().ok());
    }
    assert_eq!(parse_at_most("18446744073709551615", u64::MAX), Some(u64::MAX));
    assert_eq!(parse_at_most("18446744073709551616", u64::MAX), None);
}

#[test]
fn white_space_is_trimmed_as_the_standard_library_trims_it() {
    let mut samples: Vec<String> = vec![
        "".into(), " ".into(), "a".into(), " a b \n".into(), "\u{3000}a\u{2003}\r\n".into(),
        "\u{200B}a\u{FEFF}".into(),
    ];
    for n in 0..0x3100u32 {
        if let Some(c) = char::from_u32(n) {
            samples.push(format!("{c}x{c}"));
        }
    }
    for s in samples {
        assert_eq!(trim(&s), s.trim());
        assert_eq!(trim_end(&s), s.trim_end());
    }
}

#[test]
fn parts_are_joined() {
    let none: Vec<String> = vec![];
    assert_eq!(join(&none, ", "), "");
    assert_eq!(join(&vec!["a".to_string()], ", "), "a");
    let three = vec!["a".to_string(), "".to_string(), "c".to_string()];
    assert_eq!(join(&three, ", "), "a, , c");
}

#[test]
fn settings_fall_back_to_their_default() {
    assert_eq!(read_env_u64(None, 30), 30);
    assert_eq!(read_env_u64(Some("45"), 30), 45);
    assert_eq!(read_env_u64(Some("0"), 30), 30);
    assert_eq!(read_env_u64(Some("-1"), 30), 30);
    assert_eq!(read_env_u64(Some("soon"), 30), 30);
    assert_eq!(read_env_u64(Some("18446744073709551616"), 30), 30);
}
