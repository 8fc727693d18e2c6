use nu_plugin_dbus::convert::to_message_item;
use nu_plugin_dbus::dbus_type::DbusType;
use nu_plugin_dbus::host_value::HostValue;
use nu_plugin_dbus::number::decimal_string;
use nu_plugin_dbus::text::{chars_of, same_text};
use nu_plugin_dbus::wire::WireArgument;

fn read_u64(text: &str) -> Option<u64> {
    match to_message_item(&HostValue::String(text.to_string()), Some(&DbusType::UInt64)) {
        Ok(WireArgument::UInt64(n)) => Some(n),
        _ => None,
    }
}

fn read_u8(text: &str) -> Option<u8> {
    match to_message_item(&HostValue::String(text.to_string()), Some(&DbusType::Byte)) {
        Ok(WireArgument::Byte(n)) => Some(n),
        _ => None,
    }
}

fn read_i16(text: &str) -> Option<i16> {
    match to_message_item(&HostValue::String(text.to_string()), Some(&DbusType::Int16)) {
        Ok(WireArgument::Int16(n)) => Some(n),
        _ => None,
    }
}

fn read_i64(text: &str) -> Option<i64> {
    match to_message_item(&HostValue::String(text.to_string()), Some(&DbusType::Int64)) {
        Ok(WireArgument::Int64(n)) => Some(n),
        _ => None,
    }
}

#[test]
fn numbers_are_written_in_decimal() {
    assert_eq!(decimal_string(0), "0");
    assert_eq!(decimal_string(7), "7");
    assert_eq!(decimal_string(10), "10");
    assert_eq!(decimal_string(1234567890), "1234567890");
    assert_eq!(decimal_string(u64::MAX), "18446744073709551615");
}

#[test]
fn numbers_are_read_from_decimal() {
    assert_eq!(read_u64("0"), Some(0));
    assert_eq!(read_u64("18446744073709551615"), Some(u64::MAX));
    assert_eq!(read_u64("18446744073709551616"), None);
    assert_eq!(read_u8("+42"), Some(42));
    assert_eq!(read_u8("255"), Some(255));
    assert_eq!(read_u8("256"), None);
    assert_eq!(read_u8("007"), Some(7));
    assert_eq!(read_i16("-32768"), Some(-32768));
    assert_eq!(read_i16("-32769"), None);
    assert_eq!(read_i16("-0"), Some(0));
    assert_eq!(read_i64("-9223372036854775808"), Some(i64::MIN));
    assert_eq!(read_i64("9223372036854775808"), None);
    assert_eq!(read_u8("00000000000000000000000000000000000000000000000012"), Some(12));
    assert_eq!(read_u64("99999999999999999999999999999999999999999999999999"), None);
}

#[test]
fn what_is_no_number_is_not_read() {
    for text in ["", "+", "-", "-1", "-0", "1 ", " 1", "1_0", "0x10", "1.0", "1e3", "++1", "٣"] {
        assert_eq!(read_u64(text), None, "{:?}", text);
    }
    for text in ["", "+", "-", "--1", "+-1", "1-", "a"] {
        assert_eq!(read_i16(text), None, "{:?}", text);
    }
}

#[test]
fn reading_agrees_with_the_standard_library() {
    for text in ["0", "+0", "-0", "255", "256", "-1", "+255", "0255", "", "+", "-", "1a"] {
        assert_eq!(read_u8(text), text.parse::<u8>().ok());
        assert_eq!(read_i16(text), text.parse::<i16>().ok());
    }
    for n in [0u64, 1, 9, 10, 99, 100, 65535, 65536, u64::MAX] {
        assert_eq!(decimal_string(n), n.to_string());
        assert_eq!(read_u64(&n.to_string()), Some(n));
    }
}

#[test]
fn texts_are_compared_by_their_characters() {
    assert!(same_text("", ""));
    assert!(same_text("org.freedesktop", "org.freedesktop"));
    assert!(!same_text("org.freedesktop", "org.freedeskto"));
    assert!(!same_text("abc", "abd"));
    assert!(same_text("é", "é"));
    assert!(!same_text("é", "e"));
    assert_eq!(chars_of("aé"), vec!['a', 'é']);
    assert_eq!(chars_of(""), Vec::<char>::new());
}
