use nu_plugin_dbus::convert::{
    from_message, from_refarg, object_path_argument, property_argument, signature_argument,
    to_message_item, DecodeError, EncodeError,
};
use nu_plugin_dbus::dbus_type::{DbusType, MAX_NESTING_DEPTH};
use nu_plugin_dbus::host_value::{insert_entry, HostKind, HostValue};
use nu_plugin_dbus::wire::WireArgument;

fn text(s: &str) -> HostValue {
    HostValue::String(s.to_string())
}

fn entry(key: &str, value: HostValue) -> (String, HostValue) {
    (key.to_string(), value)
}

fn array_of(t: DbusType) -> DbusType {
    DbusType::Array(Box::new(t))
}

fn dict_of(key: DbusType, val: DbusType) -> DbusType {
    array_of(DbusType::DictEntry(Box::new(key), Box::new(val)))
}

fn variant(arg: WireArgument) -> WireArgument {
    WireArgument::Variant(Box::new(arg))
}

fn dict_entry(key: WireArgument, val: WireArgument) -> WireArgument {
    WireArgument::DictEntry(Box::new(key), Box::new(val))
}

#[test]
fn scalars_come_back_as_they_were_sent() {
    let cases = vec![
        (HostValue::Bool(true), DbusType::Boolean),
        (HostValue::Bool(false), DbusType::Boolean),
        (HostValue::Int(0), DbusType::Int64),
        (HostValue::Int(i64::MIN), DbusType::Int64),
        (HostValue::Int(i64::MAX), DbusType::Int64),
        (HostValue::Float(1.5f64.to_bits()), DbusType::Double),
        (HostValue::Float(f64::NAN.to_bits()), DbusType::Double),
        (HostValue::Float((-0.0f64).to_bits()), DbusType::Double),
        (text(""), DbusType::String),
        (text("hello wörld"), DbusType::String),
    ];
    for (value, t) in cases {
        let sent = to_message_item(&value, Some(&t)).unwrap();
        assert_eq!(from_refarg(&sent), Ok(value));
    }
}

#[test]
fn scalars_are_sent_as_the_expected_type() {
    assert_eq!(
        to_message_item(&HostValue::Bool(true), Some(&DbusType::Boolean)),
        Ok(WireArgument::Boolean(true))
    );
    assert_eq!(
        to_message_item(&HostValue::Float(2.5f64.to_bits()), Some(&DbusType::Double)),
        Ok(WireArgument::Double(2.5f64.to_bits()))
    );
    assert_eq!(
        to_message_item(&text("s"), Some(&DbusType::String)),
        Ok(WireArgument::String("s".into()))
    );
    assert_eq!(
        to_message_item(&text("/org/freedesktop/DBus"), Some(&DbusType::ObjectPath)),
        Ok(WireArgument::ObjectPath("/org/freedesktop/DBus".into()))
    );
    assert_eq!(
        to_message_item(&text("a{sv}"), Some(&DbusType::Signature)),
        Ok(WireArgument::Signature("a{sv}".into()))
    );
}

#[test]
fn whole_numbers_are_narrowed_with_a_check() {
    let int = |v: i64, t: DbusType| to_message_item(&HostValue::Int(v), Some(&t));
    assert_eq!(int(255, DbusType::Byte), Ok(WireArgument::Byte(255)));
    assert_eq!(int(-32768, DbusType::Int16), Ok(WireArgument::Int16(-32768)));
    assert_eq!(int(65535, DbusType::UInt16), Ok(WireArgument::UInt16(65535)));
    assert_eq!(int(-2147483648, DbusType::Int32), Ok(WireArgument::Int32(i32::MIN)));
    assert_eq!(int(4294967295, DbusType::UInt32), Ok(WireArgument::UInt32(u32::MAX)));
    assert_eq!(int(-5, DbusType::Int64), Ok(WireArgument::Int64(-5)));
    assert_eq!(int(i64::MAX, DbusType::UInt64), Ok(WireArgument::UInt64(i64::MAX as u64)));
    assert_eq!(
        int(256, DbusType::Byte),
        Err(EncodeError::OutOfRange { value: 256, expected: DbusType::Byte })
    );
    assert_eq!(
        int(-1, DbusType::Byte),
        Err(EncodeError::OutOfRange { value: -1, expected: DbusType::Byte })
    );
    assert_eq!(
        int(32768, DbusType::Int16),
        Err(EncodeError::OutOfRange { value: 32768, expected: DbusType::Int16 })
    );
    assert_eq!(
        int(-1, DbusType::UInt16),
        Err(EncodeError::OutOfRange { value: -1, expected: DbusType::UInt16 })
    );
    assert_eq!(
        int(2147483648, DbusType::Int32),
        Err(EncodeError::OutOfRange { value: 2147483648, expected: DbusType::Int32 })
    );
    assert_eq!(
        int(4294967296, DbusType::UInt32),
        Err(EncodeError::OutOfRange { value: 4294967296, expected: DbusType::UInt32 })
    );
    assert_eq!(
        int(-1, DbusType::UInt64),
        Err(EncodeError::OutOfRange { value: -1, expected: DbusType::UInt64 })
    );
}

#[test]
fn texts_are_read_as_numbers_where_numbers_are_expected() {
    let read = |s: &str, t: DbusType| to_message_item(&text(s), Some(&t));
    assert_eq!(read("200", DbusType::Byte), Ok(WireArgument::Byte(200)));
    assert_eq!(read("-7", DbusType::Int16), Ok(WireArgument::Int16(-7)));
    assert_eq!(read("+7", DbusType::UInt16), Ok(WireArgument::UInt16(7)));
    assert_eq!(read("-2147483648", DbusType::Int32), Ok(WireArgument::Int32(i32::MIN)));
    assert_eq!(read("4294967295", DbusType::UInt32), Ok(WireArgument::UInt32(u32::MAX)));
    assert_eq!(read("9223372036854775807", DbusType::Int64), Ok(WireArgument::Int64(i64::MAX)));
    assert_eq!(
        read("300", DbusType::Byte),
        Err(EncodeError::Unparseable { text: "300".into(), expected: DbusType::Byte })
    );
    assert_eq!(
        read("twelve", DbusType::Int32),
        Err(EncodeError::Unparseable { text: "twelve".into(), expected: DbusType::Int32 })
    );
    assert_eq!(
        read("", DbusType::Int64),
        Err(EncodeError::Unparseable { text: "".into(), expected: DbusType::Int64 })
    );
    assert_eq!(
        read("1", DbusType::Boolean),
        Err(EncodeError::Incompatible { kind: HostKind::String, expected: DbusType::Boolean })
    );
}

#[test]
fn the_greatest_unsigned_number_goes_as_text() {
    let sent = to_message_item(&text("18446744073709551615"), Some(&DbusType::UInt64));
    assert_eq!(sent, Ok(WireArgument::UInt64(u64::MAX)));
    assert_eq!(from_refarg(&sent.unwrap()), Ok(text("18446744073709551615")));
    assert_eq!(
        to_message_item(&text("-1"), Some(&DbusType::UInt64)),
        Err(EncodeError::Unparseable { text: "-1".into(), expected: DbusType::UInt64 })
    );
    assert_eq!(
        to_message_item(&text("18446744073709551616"), Some(&DbusType::UInt64)),
        Err(EncodeError::Unparseable {
            text: "18446744073709551616".into(),
            expected: DbusType::UInt64
        })
    );
}

#[test]
fn a_text_for_a_double_is_carried_unread() {
    let sent = to_message_item(&text("1.5e3"), Some(&DbusType::Double));
    assert_eq!(sent, Ok(WireArgument::DoubleText("1.5e3".into())));
    assert_eq!(from_refarg(&sent.unwrap()), Ok(text("1.5e3")));
}

#[test]
fn bytes_go_as_an_array_of_bytes_and_come_back() {
    let bytes = vec![0u8, 1, 2, 254, 255];
    let sent = to_message_item(&HostValue::Binary(bytes.clone()), Some(&array_of(DbusType::Byte)));
    assert_eq!(
        sent,
        Ok(WireArgument::Array(
            DbusType::Byte,
            bytes.iter().map(|b| WireArgument::Byte(*b)).collect()
        ))
    );
    assert_eq!(from_refarg(&sent.unwrap()), Ok(HostValue::Binary(bytes)));
    assert_eq!(
        from_refarg(&WireArgument::Array(DbusType::Byte, vec![])),
        Ok(HostValue::Binary(vec![]))
    );
    assert_eq!(
        to_message_item(&HostValue::Binary(vec![1]), Some(&array_of(DbusType::Int32))),
        Err(EncodeError::Incompatible {
            kind: HostKind::Binary,
            expected: array_of(DbusType::Int32)
        })
    );
    assert_eq!(
        to_message_item(&HostValue::Binary(vec![1]), None),
        Err(EncodeError::Unsupported { kind: HostKind::Binary })
    );
    assert_eq!(
        to_message_item(&HostValue::Binary(vec![1]), Some(&DbusType::Variant)),
        Err(EncodeError::Unsupported { kind: HostKind::Binary })
    );
}

#[test]
fn a_list_of_whole_numbers_may_go_as_an_array_of_bytes() {
    let list = HostValue::List(vec![HostValue::Int(1), HostValue::Int(2)]);
    let sent = to_message_item(&list, Some(&array_of(DbusType::Byte))).unwrap();
    assert_eq!(
        sent,
        WireArgument::Array(DbusType::Byte, vec![WireArgument::Byte(1), WireArgument::Byte(2)])
    );
    assert_eq!(from_refarg(&sent), Ok(HostValue::Binary(vec![1, 2])));
}

#[test]
fn a_list_goes_as_an_array() {
    let list = HostValue::List(vec![text("a"), text("b")]);
    assert_eq!(
        to_message_item(&list, Some(&array_of(DbusType::String))),
        Ok(WireArgument::Array(
            DbusType::String,
            vec![WireArgument::String("a".into()), WireArgument::String("b".into())]
        ))
    );
    assert_eq!(
        to_message_item(&HostValue::List(vec![]), Some(&array_of(DbusType::Int32))),
        Ok(WireArgument::Array(DbusType::Int32, vec![]))
    );
    let mixed = HostValue::List(vec![HostValue::Int(1), text("x"), HostValue::Bool(true)]);
    assert_eq!(
        to_message_item(&mixed, Some(&array_of(DbusType::Int32))),
        Err(EncodeError::Unparseable { text: "x".into(), expected: DbusType::Int32 })
    );
    assert_eq!(
        to_message_item(&list, Some(&DbusType::String)),
        Err(EncodeError::Incompatible { kind: HostKind::List, expected: DbusType::String })
    );
}

#[test]
fn a_list_goes_as_a_struct_of_as_many_elements() {
    let pair = HostValue::List(vec![HostValue::Int(1), text("x")]);
    assert_eq!(
        to_message_item(&pair, Some(&DbusType::Struct(vec![DbusType::Byte, DbusType::String]))),
        Ok(WireArgument::Struct(vec![WireArgument::Byte(1), WireArgument::String("x".into())]))
    );
    let three = vec![DbusType::Int32, DbusType::String, DbusType::Boolean];
    assert_eq!(
        to_message_item(&pair, Some(&DbusType::Struct(three.clone()))),
        Err(EncodeError::ArityMismatch { expected: three, actual: 2 })
    );
    assert_eq!(
        to_message_item(&pair, Some(&DbusType::Struct(vec![]))),
        Err(EncodeError::ArityMismatch { expected: vec![], actual: 2 })
    );
    assert_eq!(
        to_message_item(&HostValue::List(vec![]), Some(&DbusType::Struct(vec![]))),
        Ok(WireArgument::Struct(vec![]))
    );
    assert_eq!(
        to_message_item(&pair, Some(&DbusType::Struct(vec![DbusType::String, DbusType::Byte]))),
        Err(EncodeError::Incompatible { kind: HostKind::Int, expected: DbusType::String })
    );
}

#[test]
fn a_record_goes_as_a_dictionary_and_comes_back() {
    let record =
        HostValue::Record(vec![entry("a", HostValue::Int(1)), entry("b", HostValue::Int(2))]);
    let t = dict_of(DbusType::String, DbusType::Int32);
    let sent = to_message_item(&record, Some(&t)).unwrap();
    assert_eq!(
        sent,
        WireArgument::Array(
            DbusType::DictEntry(Box::new(DbusType::String), Box::new(DbusType::Int32)),
            vec![
                dict_entry(WireArgument::String("a".into()), WireArgument::Int32(1)),
                dict_entry(WireArgument::String("b".into()), WireArgument::Int32(2)),
            ]
        )
    );
    assert_eq!(from_refarg(&sent), Ok(record));
}

#[test]
fn the_keys_of_a_record_are_sent_as_texts_of_the_key_type() {
    let record = HostValue::Record(vec![entry("7", text("seven"))]);
    assert_eq!(
        to_message_item(&record, Some(&dict_of(DbusType::UInt32, DbusType::String))),
        Ok(WireArgument::Array(
            DbusType::DictEntry(Box::new(DbusType::UInt32), Box::new(DbusType::String)),
            vec![dict_entry(WireArgument::UInt32(7), WireArgument::String("seven".into()))]
        ))
    );
    let named = HostValue::Record(vec![entry("seven", text("7"))]);
    assert_eq!(
        to_message_item(&named, Some(&dict_of(DbusType::UInt32, DbusType::String))),
        Err(EncodeError::Unparseable { text: "seven".into(), expected: DbusType::UInt32 })
    );
    assert_eq!(
        to_message_item(&named, Some(&array_of(DbusType::String))),
        Err(EncodeError::Incompatible {
            kind: HostKind::Record,
            expected: array_of(DbusType::String)
        })
    );
    assert_eq!(
        to_message_item(&named, Some(&dict_of(DbusType::Variant, DbusType::Byte))),
        Ok(WireArgument::Array(
            DbusType::DictEntry(Box::new(DbusType::Variant), Box::new(DbusType::Byte)),
            vec![dict_entry(variant(WireArgument::String("seven".into())), WireArgument::Byte(7))]
        ))
    );
}

#[test]
fn any_value_goes_as_a_variant() {
    assert_eq!(
        to_message_item(&HostValue::Int(5), Some(&DbusType::Variant)),
        Ok(variant(WireArgument::Int64(5)))
    );
    assert_eq!(
        to_message_item(&text("x"), Some(&DbusType::Variant)),
        Ok(variant(WireArgument::String("x".into())))
    );
    assert_eq!(
        to_message_item(&HostValue::List(vec![HostValue::Bool(true)]), Some(&DbusType::Variant)),
        Ok(variant(WireArgument::Array(
            DbusType::Variant,
            vec![variant(WireArgument::Boolean(true))]
        )))
    );
}

#[test]
fn without_an_expected_type_one_is_assumed() {
    assert_eq!(to_message_item(&text("x"), None), Ok(WireArgument::String("x".into())));
    assert_eq!(to_message_item(&HostValue::Int(-1), None), Ok(WireArgument::Int64(-1)));
    assert_eq!(
        to_message_item(&HostValue::Float(0.25f64.to_bits()), None),
        Ok(WireArgument::Double(0.25f64.to_bits()))
    );
    assert_eq!(to_message_item(&HostValue::Bool(false), None), Ok(WireArgument::Boolean(false)));
    assert_eq!(
        to_message_item(&HostValue::List(vec![HostValue::Int(1), text("x")]), None),
        Ok(WireArgument::Array(
            DbusType::Variant,
            vec![variant(WireArgument::Int64(1)), variant(WireArgument::String("x".into()))]
        ))
    );
    assert_eq!(
        to_message_item(&HostValue::Record(vec![entry("k", HostValue::Bool(true))]), None),
        Ok(WireArgument::Array(
            DbusType::DictEntry(Box::new(DbusType::String), Box::new(DbusType::Variant)),
            vec![dict_entry(
                WireArgument::String("k".into()),
                variant(WireArgument::Boolean(true))
            )]
        ))
    );
}

#[test]
fn kinds_that_do_not_fit_the_type_are_refused() {
    assert_eq!(
        to_message_item(&HostValue::Bool(true), Some(&DbusType::Int32)),
        Err(EncodeError::Incompatible { kind: HostKind::Bool, expected: DbusType::Int32 })
    );
    assert_eq!(
        to_message_item(&HostValue::Int(1), Some(&DbusType::Boolean)),
        Err(EncodeError::Incompatible { kind: HostKind::Int, expected: DbusType::Boolean })
    );
    assert_eq!(
        to_message_item(&HostValue::Int(1), Some(&DbusType::Double)),
        Err(EncodeError::Incompatible { kind: HostKind::Int, expected: DbusType::Double })
    );
    assert_eq!(
        to_message_item(&HostValue::Float(0), Some(&DbusType::Int64)),
        Err(EncodeError::Incompatible { kind: HostKind::Float, expected: DbusType::Int64 })
    );
    let entry_type = DbusType::DictEntry(Box::new(DbusType::String), Box::new(DbusType::Byte));
    assert_eq!(
        to_message_item(&text("x"), Some(&entry_type)),
        Err(EncodeError::Incompatible { kind: HostKind::String, expected: entry_type })
    );
}

#[test]
fn variants_are_unwrapped() {
    assert_eq!(from_refarg(&variant(WireArgument::String("x".into()))), Ok(text("x")));
    assert_eq!(from_refarg(&variant(variant(WireArgument::Byte(3)))), Ok(HostValue::Int(3)));
}

#[test]
fn wire_numbers_become_whole_numbers() {
    assert_eq!(from_refarg(&WireArgument::Byte(255)), Ok(HostValue::Int(255)));
    assert_eq!(from_refarg(&WireArgument::Int16(-3)), Ok(HostValue::Int(-3)));
    assert_eq!(from_refarg(&WireArgument::UInt16(65535)), Ok(HostValue::Int(65535)));
    assert_eq!(from_refarg(&WireArgument::Int32(i32::MIN)), Ok(HostValue::Int(i32::MIN as i64)));
    assert_eq!(from_refarg(&WireArgument::UInt32(u32::MAX)), Ok(HostValue::Int(u32::MAX as i64)));
    assert_eq!(from_refarg(&WireArgument::Int64(i64::MIN)), Ok(HostValue::Int(i64::MIN)));
    assert_eq!(from_refarg(&WireArgument::UInt64(0)), Ok(text("0")));
    assert_eq!(from_refarg(&WireArgument::UInt64(1234)), Ok(text("1234")));
    assert_eq!(from_refarg(&WireArgument::Boolean(true)), Ok(HostValue::Bool(true)));
    assert_eq!(
        from_refarg(&WireArgument::Double(3.25f64.to_bits())),
        Ok(HostValue::Float(3.25f64.to_bits()))
    );
    assert_eq!(from_refarg(&WireArgument::ObjectPath("/a/b".into())), Ok(text("/a/b")));
    assert_eq!(from_refarg(&WireArgument::Signature("ai".into())), Ok(text("ai")));
}

#[test]
fn structs_and_arrays_become_lists() {
    let items = || vec![WireArgument::Int32(1), WireArgument::Int32(2)];
    let list = HostValue::List(vec![HostValue::Int(1), HostValue::Int(2)]);
    assert_eq!(from_refarg(&WireArgument::Struct(items())), Ok(list));
    let list = HostValue::List(vec![HostValue::Int(1), HostValue::Int(2)]);
    assert_eq!(from_refarg(&WireArgument::Array(DbusType::Int32, items())), Ok(list));
    assert_eq!(from_refarg(&WireArgument::Struct(vec![])), Ok(HostValue::List(vec![])));
}

#[test]
fn elements_that_cannot_be_decoded_are_left_out() {
    let items = vec![
        WireArgument::Int32(1),
        WireArgument::Invalid,
        dict_entry(WireArgument::Byte(1), WireArgument::Byte(2)),
        WireArgument::Int32(2),
    ];
    assert_eq!(
        from_refarg(&WireArgument::Array(DbusType::Int32, items)),
        Ok(HostValue::List(vec![HostValue::Int(1), HostValue::Int(2)]))
    );
    assert_eq!(
        from_refarg(&WireArgument::Struct(vec![WireArgument::Invalid])),
        Ok(HostValue::List(vec![]))
    );
}

#[test]
fn dictionaries_become_records() {
    let entry_type = DbusType::DictEntry(Box::new(DbusType::String), Box::new(DbusType::Variant));
    let dict = WireArgument::Array(
        entry_type,
        vec![
            dict_entry(WireArgument::String("a".into()), variant(WireArgument::Int32(1))),
            dict_entry(WireArgument::ObjectPath("/b".into()), variant(WireArgument::Boolean(true))),
            dict_entry(WireArgument::UInt32(3), variant(WireArgument::Int32(3))),
            dict_entry(WireArgument::String("a".into()), variant(WireArgument::Int32(4))),
            dict_entry(WireArgument::Signature("s".into()), variant(WireArgument::Byte(5))),
        ],
    );
    assert_eq!(
        from_refarg(&dict),
        Ok(HostValue::Record(vec![
            entry("a", HostValue::Int(4)),
            entry("/b", HostValue::Bool(true)),
            entry("s", HostValue::Int(5)),
        ]))
    );
}

#[test]
fn a_dictionary_value_that_cannot_be_decoded_is_an_error() {
    let entry_type = DbusType::DictEntry(Box::new(DbusType::String), Box::new(DbusType::Variant));
    let dict = WireArgument::Array(
        entry_type.clone(),
        vec![dict_entry(WireArgument::String("a".into()), WireArgument::Invalid)],
    );
    assert_eq!(from_refarg(&dict), Err("Encountered invalid D-Bus value".to_string()));
    let skipped = WireArgument::Array(
        entry_type.clone(),
        vec![dict_entry(WireArgument::Int32(1), WireArgument::Invalid)],
    );
    assert_eq!(from_refarg(&skipped), Ok(HostValue::Record(vec![])));
    let no_entry = WireArgument::Array(entry_type, vec![WireArgument::Int32(1)]);
    assert_eq!(from_refarg(&no_entry), Err("Encountered invalid D-Bus value".to_string()));
}

#[test]
fn a_byte_array_that_holds_something_else_is_an_error() {
    let bad =
        WireArgument::Array(DbusType::Byte, vec![WireArgument::Byte(1), WireArgument::Int32(2)]);
    assert_eq!(from_refarg(&bad), Err("Encountered invalid D-Bus value".to_string()));
}

#[test]
fn what_the_wire_cannot_carry_alone_is_an_error() {
    assert_eq!(
        from_refarg(&dict_entry(WireArgument::Byte(1), WireArgument::Byte(2))),
        Err("Encountered dictionary entry outside of dictionary".to_string())
    );
    assert_eq!(
        from_refarg(&WireArgument::Invalid),
        Err("Encountered invalid D-Bus value".to_string())
    );
    assert_eq!(
        from_refarg(&variant(WireArgument::Invalid)),
        Err("Encountered invalid D-Bus value".to_string())
    );
}

#[test]
fn decode_errors_have_their_messages() {
    assert_eq!(
        DecodeError::DictEntryOutsideArray.message(),
        "Encountered dictionary entry outside of dictionary"
    );
    assert_eq!(DecodeError::Invalid.message(), "Encountered invalid D-Bus value");
    assert_eq!(
        DecodeError::TooDeep.message(),
        "Encountered D-Bus value that is nested too deeply"
    );
}

fn nested_variants(depth: usize) -> WireArgument {
    let mut arg = WireArgument::Byte(1);
    for _ in 0..depth {
        arg = variant(arg);
    }
    arg
}

fn nested_lists(depth: usize) -> HostValue {
    let mut value = HostValue::Int(1);
    for _ in 0..depth {
        value = HostValue::List(vec![value]);
    }
    value
}

fn nested_array_type(depth: usize) -> DbusType {
    let mut t = DbusType::Int64;
    for _ in 0..depth {
        t = array_of(t);
    }
    t
}

#[test]
fn decoding_stops_at_the_greatest_nesting_depth() {
    assert_eq!(from_refarg(&nested_variants(MAX_NESTING_DEPTH)), Ok(HostValue::Int(1)));
    assert_eq!(
        from_refarg(&nested_variants(MAX_NESTING_DEPTH + 1)),
        Err("Encountered D-Bus value that is nested too deeply".to_string())
    );
    let in_array = WireArgument::Array(DbusType::Variant, vec![nested_variants(MAX_NESTING_DEPTH)]);
    assert_eq!(
        from_refarg(&in_array),
        Err("Encountered D-Bus value that is nested too deeply".to_string())
    );
}

#[test]
fn encoding_stops_at_the_greatest_nesting_depth() {
    let t = nested_array_type(MAX_NESTING_DEPTH);
    let sent = to_message_item(&nested_lists(MAX_NESTING_DEPTH), Some(&t)).unwrap();
    assert_eq!(from_refarg(&sent), Ok(nested_lists(MAX_NESTING_DEPTH)));
    let deeper = nested_array_type(MAX_NESTING_DEPTH + 1);
    assert_eq!(
        to_message_item(&nested_lists(MAX_NESTING_DEPTH + 1), Some(&deeper)),
        Err(EncodeError::TooDeep)
    );
    assert_eq!(to_message_item(&nested_lists(40), None), Err(EncodeError::TooDeep));
    assert!(to_message_item(&nested_lists(32), None).is_ok());
}

#[test]
fn the_arguments_of_a_message_are_decoded_in_order() {
    let message = vec![
        WireArgument::String("a".into()),
        variant(WireArgument::UInt64(u64::MAX)),
        WireArgument::Struct(vec![WireArgument::Boolean(true)]),
    ];
    assert_eq!(
        from_message(&message),
        Ok(vec![
            text("a"),
            text("18446744073709551615"),
            HostValue::List(vec![HostValue::Bool(true)])
        ])
    );
    assert_eq!(from_message(&vec![]), Ok(vec![]));
    let broken = vec![WireArgument::Byte(1), WireArgument::Invalid, WireArgument::Byte(2)];
    assert_eq!(from_message(&broken), Err("Encountered invalid D-Bus value".to_string()));
}

#[test]
fn a_property_value_goes_inside_a_variant() {
    assert_eq!(
        property_argument(&HostValue::Float(0.5f64.to_bits()), Some(&DbusType::Double)),
        Ok(variant(WireArgument::Double(0.5f64.to_bits())))
    );
    assert_eq!(
        property_argument(&HostValue::Int(1), None),
        Ok(variant(WireArgument::Int64(1)))
    );
    assert_eq!(
        property_argument(&HostValue::Int(1), Some(&DbusType::Variant)),
        Ok(variant(variant(WireArgument::Int64(1))))
    );
    assert_eq!(
        property_argument(&HostValue::Int(-1), Some(&DbusType::Byte)),
        Err(EncodeError::OutOfRange { value: -1, expected: DbusType::Byte })
    );
}

#[test]
fn a_value_put_in_under_a_key_takes_the_place_of_the_old_one() {
    let mut entries = vec![entry("a", HostValue::Int(1)), entry("b", HostValue::Int(2))];
    insert_entry(&mut entries, "a".to_string(), HostValue::Int(3));
    insert_entry(&mut entries, "c".to_string(), HostValue::Int(4));
    assert_eq!(
        entries,
        vec![
            entry("a", HostValue::Int(3)),
            entry("b", HostValue::Int(2)),
            entry("c", HostValue::Int(4))
        ]
    );
}

#[test]
fn values_know_their_kind() {
    assert_eq!(HostValue::Bool(true).kind(), HostKind::Bool);
    assert_eq!(HostValue::Int(1).kind(), HostKind::Int);
    assert_eq!(HostValue::Float(0).kind(), HostKind::Float);
    assert_eq!(text("").kind(), HostKind::String);
    assert_eq!(HostValue::Binary(vec![]).kind(), HostKind::Binary);
    assert_eq!(HostValue::List(vec![]).kind(), HostKind::List);
    assert_eq!(HostValue::Record(vec![]).kind(), HostKind::Record);
}

#[test]
fn a_text_that_is_no_object_path_is_refused() {
    for path in ["/", "/a", "/org/freedesktop/DBus", "/a_b/c1"] {
        assert_eq!(
            to_message_item(&text(path), Some(&DbusType::ObjectPath)),
            Ok(WireArgument::ObjectPath(path.to_string()))
        );
    }
    for path in ["", "a", "not/a/path", "/a/", "//", "/a//b", "/a.b", "/a-b", "/é"] {
        assert_eq!(
            to_message_item(&text(path), Some(&DbusType::ObjectPath)),
            Err(EncodeError::Malformed {
                text: path.to_string(),
                expected: DbusType::ObjectPath,
                reason: format!("Object path was not valid: '{}'", path)
            })
        );
    }
}

#[test]
fn a_text_that_is_no_signature_is_refused() {
    for signature in ["s", "a{sv}", "(ii)", "aay", "h", "v"] {
        assert_eq!(
            to_message_item(&text(signature), Some(&DbusType::Signature)),
            Ok(WireArgument::Signature(signature.to_string()))
        );
    }
    let cases = [
        ("a", "Missing array element type"),
        ("()", "Struct has no fields"),
        ("z", "Unknown typecode"),
        ("(i", "Struct started but not ended"),
        ("i)", "Struct ended but not started"),
        ("", "Exactly one complete type required in signature"),
        ("(ii)ay", "Exactly one complete type required in signature"),
        ("a{vs}", "Dict key must be basic type"),
    ];
    for (signature, reason) in cases {
        assert_eq!(
            to_message_item(&text(signature), Some(&DbusType::Signature)),
            Err(EncodeError::Malformed {
                text: signature.to_string(),
                expected: DbusType::Signature,
                reason: reason.to_string()
            })
        );
    }
}

#[test]
fn a_key_that_is_no_object_path_is_refused() {
    let record =
        HostValue::Record(vec![entry("/a", HostValue::Int(1)), entry("b", HostValue::Int(2))]);
    assert_eq!(
        to_message_item(&record, Some(&dict_of(DbusType::ObjectPath, DbusType::Int64))),
        Err(EncodeError::Malformed {
            text: "b".into(),
            expected: DbusType::ObjectPath,
            reason: "Object path was not valid: 'b'".into()
        })
    );
}

#[test]
fn what_the_library_found_decides_on_a_path_and_on_a_signature() {
    assert_eq!(object_path_argument("/a", None), Ok(WireArgument::ObjectPath("/a".into())));
    assert_eq!(
        object_path_argument("a", Some("no".into())),
        Err(EncodeError::Malformed {
            text: "a".into(),
            expected: DbusType::ObjectPath,
            reason: "no".into()
        })
    );
    assert_eq!(signature_argument("ai", None), Ok(WireArgument::Signature("ai".into())));
    assert_eq!(
        signature_argument("a", Some("no".into())),
        Err(EncodeError::Malformed {
            text: "a".into(),
            expected: DbusType::Signature,
            reason: "no".into()
        })
    );
}

#[test]
fn values_and_arguments_are_cloned_whole() {
    let value = HostValue::Record(vec![
        entry("a", HostValue::List(vec![HostValue::Int(1), text("x")])),
        entry("b", HostValue::Binary(vec![1, 2, 3])),
        entry("c", HostValue::Float(1.5f64.to_bits())),
    ]);
    assert_eq!(value.clone(), value);
    let sent = to_message_item(&value, Some(&dict_of(DbusType::String, DbusType::Variant)));
    assert_eq!(sent, Err(EncodeError::Unsupported { kind: HostKind::Binary }));
    let argument = WireArgument::Struct(vec![
        variant(WireArgument::Array(DbusType::Int32, vec![WireArgument::Int32(1)])),
        dict_entry(WireArgument::String("k".into()), WireArgument::Double(7)),
        WireArgument::Invalid,
    ]);
    assert_eq!(argument.clone(), argument);
}
