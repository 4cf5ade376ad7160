use polestar::cli::channel::{channel_id_of_selection, selected_channel_id};
use polestar::text::parse_unsigned_bytes;
use uuid::Uuid;

#[test]
fn channel_id_is_the_trimmed_text_before_the_colon() {
    assert_eq!(channel_id_of_selection("  abc : General"), "abc");
    assert_eq!(channel_id_of_selection("abc:def:ghi"), "abc");
    assert_eq!(channel_id_of_selection(" no colon "), "no colon");
    assert_eq!(channel_id_of_selection(":x"), "");
    assert_eq!(channel_id_of_selection("\u{3000}é\t: y"), "é");
}

#[test]
fn selected_channel_id_reads_a_uuid() {
    let id = Uuid::parse_str("a1a2a3a4-b1b2-c1c2-d1d2-d3d4d5d6d7d8").unwrap();
    assert_eq!(selected_channel_id("a1a2a3a4-b1b2-c1c2-d1d2-d3d4d5d6d7d8: General"), Some(id));
    assert_eq!(selected_channel_id(" A1A2A3A4B1B2C1C2D1D2D3D4D5D6D7D8 :x"), Some(id));
    assert_eq!(selected_channel_id("general: a1a2a3a4-b1b2-c1c2-d1d2-d3d4d5d6d7d8"), None);
    assert_eq!(selected_channel_id(""), None);
}

#[test]
fn unsigned_integers_from_bytes() {
    assert_eq!(parse_unsigned_bytes(b"123", 0, 10, u64::MAX), Some(123));
    assert_eq!(parse_unsigned_bytes(b"x+7", 1, 10, u64::MAX), Some(7));
    assert_eq!(parse_unsigned_bytes(b"ff", 0, 16, u64::MAX), Some(255));
    assert_eq!(parse_unsigned_bytes(b"zZ", 0, 36, u64::MAX), Some(35 * 36 + 35));
    assert_eq!(parse_unsigned_bytes(b"256", 0, 10, 255), None);
    assert_eq!(parse_unsigned_bytes(b"255", 0, 10, 255), Some(255));
    assert_eq!(parse_unsigned_bytes(b"18446744073709551615", 0, 10, u64::MAX), Some(u64::MAX));
    assert_eq!(parse_unsigned_bytes(b"18446744073709551616", 0, 10, u64::MAX), None);
    assert_eq!(parse_unsigned_bytes(b"12a", 0, 10, u64::MAX), None);
    assert_eq!(parse_unsigned_bytes(b"", 0, 10, u64::MAX), None);
    assert_eq!(parse_unsigned_bytes(b"+", 0, 10, u64::MAX), None);
    assert_eq!(parse_unsigned_bytes(b"abc", 3, 10, u64::MAX), None);
}
