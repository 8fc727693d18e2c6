use nu_plugin_dbus::client::{
    check_call_target, check_object_target, check_part, encode_arguments, first_value,
    lookup_needed, matching_names, method_lookup, method_not_found_message, property_lookup,
    property_not_found_message, resolve_and_encode, resolve_signature, shape_reply, warnings_of,
    CallError, Lookup, Prepared, Reply, Resolution, TargetError, TargetPart, Warning,
};
use nu_plugin_dbus::introspection::{
    Access, Direction, Interface, Method, MethodArg, Node, Property,
};
use nu_plugin_dbus::convert::EncodeError;
use nu_plugin_dbus::dbus_type::DbusType;
use nu_plugin_dbus::host_value::{HostKind, HostValue};
use nu_plugin_dbus::pattern::Pattern;
use nu_plugin_dbus::wire::WireArgument;

fn text(s: &str) -> HostValue {
    HostValue::String(s.to_string())
}

fn variant(arg: WireArgument) -> WireArgument {
    WireArgument::Variant(Box::new(arg))
}

#[test]
fn a_lookup_is_needed_without_a_signature_where_introspection_is_enabled() {
    assert!(lookup_needed(None, true));
    assert!(!lookup_needed(None, false));
    assert!(!lookup_needed(Some("s"), true));
    assert!(!lookup_needed(Some("s"), false));
}

#[test]
fn the_signature_that_the_caller_gave_governs() {
    for introspect in [true, false] {
        for lookup in [Lookup::NotAsked, Lookup::Found("i".into()), Lookup::Failed("no".into())] {
            assert_eq!(
                resolve_signature(Some("su"), introspect, &lookup),
                Ok(Resolution {
                    types: Some(vec![DbusType::String, DbusType::UInt32]),
                    failure: None
                })
            );
            assert_eq!(
                resolve_signature(Some("s*"), introspect, &lookup),
                Err(CallError::Signature(
                    "unexpected char '*' in D-Bus type representation".into()
                ))
            );
        }
    }
}

#[test]
fn the_signature_that_introspection_found_governs_otherwise() {
    assert_eq!(
        resolve_signature(None, true, &Lookup::Found("a{sv}".into())),
        Ok(Resolution {
            types: Some(vec![DbusType::Array(Box::new(DbusType::DictEntry(
                Box::new(DbusType::String),
                Box::new(DbusType::Variant)
            )))]),
            failure: None
        })
    );
    assert_eq!(
        resolve_signature(None, true, &Lookup::Found("a".into())),
        Err(CallError::IntrospectedSignature("unexpected end of D-Bus type string".into()))
    );
    assert_eq!(
        resolve_signature(None, true, &Lookup::Failed("Method \"M\" not found".into())),
        Ok(Resolution { types: None, failure: Some("Method \"M\" not found".into()) })
    );
    assert_eq!(
        resolve_signature(None, true, &Lookup::NotAsked),
        Ok(Resolution { types: None, failure: None })
    );
}

#[test]
fn no_signature_governs_where_introspection_is_disabled() {
    for lookup in [Lookup::NotAsked, Lookup::Found("*".into()), Lookup::Failed("no".into())] {
        assert_eq!(
            resolve_signature(None, false, &lookup),
            Ok(Resolution { types: None, failure: None })
        );
    }
}

#[test]
fn arguments_are_sent_as_the_signature_says() {
    let values = vec![text("12"), HostValue::Int(3), text("x")];
    let signature = vec![DbusType::UInt16, DbusType::Byte];
    assert_eq!(
        encode_arguments(&values, Some(&signature)),
        Ok(vec![
            WireArgument::UInt16(12),
            WireArgument::Byte(3),
            WireArgument::String("x".into())
        ])
    );
    assert_eq!(
        encode_arguments(&values, None),
        Ok(vec![
            WireArgument::String("12".into()),
            WireArgument::Int64(3),
            WireArgument::String("x".into())
        ])
    );
    let longer = vec![DbusType::Variant, DbusType::Int64, DbusType::String, DbusType::Boolean];
    assert_eq!(
        encode_arguments(&values, Some(&longer)),
        Ok(vec![
            variant(WireArgument::String("12".into())),
            WireArgument::Int64(3),
            WireArgument::String("x".into())
        ])
    );
    assert_eq!(encode_arguments(&vec![], Some(&longer)), Ok(vec![]));
}

#[test]
fn the_first_argument_that_cannot_be_sent_stops_the_call() {
    let values = vec![text("12"), HostValue::Int(300), HostValue::Bool(true)];
    let signature = vec![DbusType::UInt16, DbusType::Byte, DbusType::Int32];
    assert_eq!(
        encode_arguments(&values, Some(&signature)),
        Err(CallError::Argument {
            position: 1,
            error: EncodeError::OutOfRange { value: 300, expected: DbusType::Byte }
        })
    );
    assert_eq!(
        encode_arguments(&vec![HostValue::Int(1), HostValue::Binary(vec![])], None),
        Err(CallError::Argument {
            position: 1,
            error: EncodeError::Unsupported { kind: HostKind::Binary }
        })
    );
}

#[test]
fn there_is_a_warning_for_each_thing_that_went_wrong() {
    let none = Resolution { types: None, failure: None };
    assert_eq!(warnings_of(&none, 3), vec![]);
    let failed = Resolution { types: None, failure: Some("no such object".into()) };
    assert_eq!(
        warnings_of(&failed, 0),
        vec![Warning::IntrospectionFailed("no such object".into())]
    );
    let two = Resolution { types: Some(vec![DbusType::Byte, DbusType::Byte]), failure: None };
    assert_eq!(warnings_of(&two, 2), vec![]);
    assert_eq!(warnings_of(&two, 3), vec![Warning::ArityMismatch { expected: 2, actual: 3 }]);
    assert_eq!(warnings_of(&two, 0), vec![Warning::ArityMismatch { expected: 2, actual: 0 }]);
}

#[test]
fn a_call_is_prepared_from_its_values_and_its_signature() {
    let values = vec![text("name"), HostValue::Int(5000)];
    assert_eq!(
        resolve_and_encode(&values, Some("si"), true, &Lookup::NotAsked),
        Ok(Prepared {
            arguments: vec![WireArgument::String("name".into()), WireArgument::Int32(5000)],
            warnings: vec![]
        })
    );
    assert_eq!(
        resolve_and_encode(&values, None, true, &Lookup::Found("sq".into())),
        Ok(Prepared {
            arguments: vec![WireArgument::String("name".into()), WireArgument::UInt16(5000)],
            warnings: vec![]
        })
    );
    assert_eq!(
        resolve_and_encode(&values, None, true, &Lookup::Failed("timed out".into())),
        Ok(Prepared {
            arguments: vec![WireArgument::String("name".into()), WireArgument::Int64(5000)],
            warnings: vec![Warning::IntrospectionFailed("timed out".into())]
        })
    );
    assert_eq!(
        resolve_and_encode(&values, None, false, &Lookup::Found("sq".into())),
        Ok(Prepared {
            arguments: vec![WireArgument::String("name".into()), WireArgument::Int64(5000)],
            warnings: vec![]
        })
    );
}

#[test]
fn a_signature_of_another_length_does_not_stop_the_call() {
    let values = vec![text("name"), HostValue::Int(5000)];
    assert_eq!(
        resolve_and_encode(&values, Some("s"), false, &Lookup::NotAsked),
        Ok(Prepared {
            arguments: vec![WireArgument::String("name".into()), WireArgument::Int64(5000)],
            warnings: vec![Warning::ArityMismatch { expected: 1, actual: 2 }]
        })
    );
    assert_eq!(
        resolve_and_encode(&values, Some("sqb"), false, &Lookup::NotAsked),
        Ok(Prepared {
            arguments: vec![WireArgument::String("name".into()), WireArgument::UInt16(5000)],
            warnings: vec![Warning::ArityMismatch { expected: 3, actual: 2 }]
        })
    );
}

#[test]
fn a_call_is_stopped_by_what_is_no_signature_and_by_what_cannot_be_sent() {
    let values = vec![text("name"), HostValue::Int(5000)];
    assert_eq!(
        resolve_and_encode(&values, Some("s("), true, &Lookup::NotAsked),
        Err(CallError::Signature(
            "unexpected end of D-Bus type string before end of array".into()
        ))
    );
    assert_eq!(
        resolve_and_encode(&values, None, true, &Lookup::Found("{s".into())),
        Err(CallError::IntrospectedSignature("unexpected end of D-Bus type string".into()))
    );
    assert_eq!(
        resolve_and_encode(&values, Some("sy"), true, &Lookup::NotAsked),
        Err(CallError::Argument {
            position: 1,
            error: EncodeError::OutOfRange { value: 5000, expected: DbusType::Byte }
        })
    );
}

#[test]
fn names_are_kept_where_they_match() {
    let names = || {
        vec![
            "org.freedesktop.DBus".to_string(),
            ":1.42".to_string(),
            "org.freedesktop.Notifications".to_string(),
            "org.freedesktop.Management.Inhibit".to_string(),
            "org.mpris.MediaPlayer2.spotify".to_string(),
        ]
    };
    assert_eq!(matching_names(names(), None), names());
    let top = Pattern::new("org.freedesktop.*", Some('.'));
    assert_eq!(
        matching_names(names(), Some(&top)),
        vec!["org.freedesktop.DBus".to_string(), "org.freedesktop.Notifications".to_string()]
    );
    let all = Pattern::new("org.**", Some('.'));
    assert_eq!(
        matching_names(names(), Some(&all)),
        vec![
            "org.freedesktop.DBus".to_string(),
            "org.freedesktop.Notifications".to_string(),
            "org.freedesktop.Management.Inhibit".to_string(),
            "org.mpris.MediaPlayer2.spotify".to_string()
        ]
    );
    let none = Pattern::new("com.*", Some('.'));
    assert_eq!(matching_names(names(), Some(&none)), Vec::<String>::new());
    assert_eq!(matching_names(vec![], Some(&top)), Vec::<String>::new());
}

fn target_error(part: TargetPart, reason: &str) -> Result<(), TargetError> {
    Err(TargetError { part, reason: reason.to_string() })
}

#[test]
fn what_a_call_is_sent_to_is_checked_part_by_part() {
    let check = check_call_target;
    assert_eq!(
        check("org.freedesktop.DBus", "/org/freedesktop/DBus", "org.freedesktop.DBus", "Ping"),
        Ok(())
    );
    assert_eq!(check(":1.42", "/", "a.b", "M_1"), Ok(()));
    assert_eq!(
        check("nodots", "no/slash", "nodots", "has.dot"),
        target_error(TargetPart::Destination, "Bus name was not valid: 'nodots'")
    );
    assert_eq!(
        check("a.b", "no/slash", "nodots", "has.dot"),
        target_error(TargetPart::Object, "Object path was not valid: 'no/slash'")
    );
    assert_eq!(
        check("a.b", "/a", "nodots", "has.dot"),
        target_error(TargetPart::Interface, "Interface name was not valid: 'nodots'")
    );
    assert_eq!(
        check("a.b", "/a", "a.b", "has.dot"),
        target_error(TargetPart::Member, "Member name was not valid: 'has.dot'")
    );
    assert_eq!(
        check("a.b", "/a", "a.b", ""),
        target_error(TargetPart::Member, "Member name was not valid: ''")
    );
}

#[test]
fn the_connection_and_the_object_are_checked_alone() {
    assert_eq!(check_object_target("org.kde.KWin", "/"), Ok(()));
    assert_eq!(
        check_object_target("", "/"),
        target_error(TargetPart::Destination, "Bus name was not valid: ''")
    );
    assert_eq!(
        check_object_target("org.kde.KWin", "/a/"),
        target_error(TargetPart::Object, "Object path was not valid: '/a/'")
    );
}

#[test]
fn a_part_is_in_order_where_nothing_was_found_wrong() {
    assert_eq!(check_part(TargetPart::Interface, None), Ok(()));
    assert_eq!(
        check_part(TargetPart::Interface, Some("bad".into())),
        target_error(TargetPart::Interface, "bad")
    );
}

#[test]
fn a_reply_is_flattened_unless_asked_otherwise() {
    let one = || vec![text("a")];
    let two = || vec![text("a"), HostValue::Int(2)];
    assert_eq!(shape_reply(vec![], true), Reply::Nothing);
    assert_eq!(shape_reply(one(), true), Reply::Single(text("a")));
    assert_eq!(shape_reply(two(), true), Reply::List(two()));
    assert_eq!(shape_reply(vec![], false), Reply::List(vec![]));
    assert_eq!(shape_reply(one(), false), Reply::List(one()));
    assert_eq!(shape_reply(two(), false), Reply::List(two()));
}

#[test]
fn the_first_value_of_a_reply_is_taken() {
    assert_eq!(first_value(vec![]), None);
    assert_eq!(first_value(vec![text("a")]), Some(text("a")));
    assert_eq!(first_value(vec![HostValue::Int(1), text("a"), text("b")]), Some(HostValue::Int(1)));
}

fn sample_node() -> Node {
    Node {
        name: Some("/sample".into()),
        interfaces: vec![Interface {
            name: "com.example.Sample".into(),
            methods: vec![Method {
                name: "Frobate".into(),
                args: vec![
                    MethodArg::new("foo", "i", Direction::In),
                    MethodArg::new("baz", "a{us}", Direction::Out),
                    MethodArg::new("bar", "as", Direction::In),
                ],
                annotations: vec![],
            }],
            signals: vec![],
            properties: vec![Property {
                name: "Bar".into(),
                signature: "y".into(),
                access: Access::ReadWrite,
                annotations: vec![],
            }],
            annotations: vec![],
        }],
        children: vec![],
    }
}

#[test]
fn the_signature_of_a_method_is_looked_up_in_what_the_object_said() {
    let node = sample_node();
    assert_eq!(method_lookup(&node, "com.example.Sample", "Frobate"), Lookup::Found("ias".into()));
    assert_eq!(
        method_lookup(&node, "com.example.Sample", "Bar"),
        Lookup::Failed("Method \"Bar\" not found on \"com.example.Sample\"".into())
    );
    assert_eq!(
        method_lookup(&node, "com.example.Other", "Frobate"),
        Lookup::Failed("Method \"Frobate\" not found on \"com.example.Other\"".into())
    );
}

#[test]
fn the_signature_of_a_property_is_looked_up_in_what_the_object_said() {
    let node = sample_node();
    assert_eq!(property_lookup(&node, "com.example.Sample", "Bar"), Lookup::Found("y".into()));
    assert_eq!(
        property_lookup(&node, "com.example.Sample", "Fro\"bate"),
        Lookup::Failed("Property \"Fro\\\"bate\" not found on \"com.example.Sample\"".into())
    );
}

#[test]
fn the_reason_names_what_was_not_found() {
    assert_eq!(method_not_found_message("'M'", "'I'"), "Method 'M' not found on 'I'");
    assert_eq!(property_not_found_message("'P'", "'I'"), "Property 'P' not found on 'I'");
}

#[test]
fn a_call_is_prepared_with_what_the_object_said() {
    let values = vec![HostValue::Int(7), HostValue::List(vec![text("a")])];
    let lookup = method_lookup(&sample_node(), "com.example.Sample", "Frobate");
    assert_eq!(
        resolve_and_encode(&values, None, true, &lookup),
        Ok(Prepared {
            arguments: vec![
                WireArgument::Int32(7),
                WireArgument::Array(DbusType::String, vec![WireArgument::String("a".into())])
            ],
            warnings: vec![]
        })
    );
}
