use nu_plugin_dbus::introspection::{
    Access, Annotation, Direction, Interface, Method, MethodArg, Node, Property, Signal, SignalArg,
};

fn test_introspection_doc_rs() -> Node {
    Node {
        name: Some("/com/example/sample_object0".into()),
        interfaces: vec![Interface {
            name: "com.example.SampleInterface0".into(),
            methods: vec![
                Method {
                    name: "Frobate".into(),
                    args: vec![
                        MethodArg::new("foo", "i", Direction::In),
                        MethodArg::new("bar", "as", Direction::In),
                        MethodArg::new("baz", "a{us}", Direction::Out),
                    ],
                    annotations: vec![Annotation::new("org.freedesktop.DBus.Deprecated", "true")],
                },
                Method {
                    name: "Bazify".into(),
                    args: vec![
                        MethodArg::new("bar", "(iiu)", Direction::In),
                        MethodArg::new("len", "u", Direction::Out),
                        MethodArg::new("bar", "v", Direction::Out),
                    ],
                    annotations: vec![],
                },
                Method {
                    name: "Mogrify".into(),
                    args: vec![MethodArg::new("bar", "(iiav)", Direction::In)],
                    annotations: vec![],
                },
            ],
            signals: vec![Signal {
                name: "Changed".into(),
                args: vec![SignalArg { name: Some("new_value".into()), signature: "b".into() }],
                annotations: vec![],
            }],
            properties: vec![Property {
                name: "Bar".into(),
                signature: "y".into(),
                access: Access::ReadWrite,
                annotations: vec![],
            }],
            annotations: vec![],
        }],
        children: vec![
            Node::with_name("child_of_sample_object"),
            Node::with_name("another_child_of_sample_object"),
        ],
    }
}

#[test]
fn test_get_method_args_signature() {
    assert_eq!(
        test_introspection_doc_rs()
            .get_method_args_signature("com.example.SampleInterface0", "Frobate"),
        Some("ias".into())
    );
}

#[test]
fn method_signatures_follow_the_direction() {
    let node = test_introspection_doc_rs();
    let interface = node.get_interface("com.example.SampleInterface0").unwrap();
    let frobate = interface.get_method("Frobate").unwrap();
    assert_eq!(frobate.in_signature(), "ias");
    assert_eq!(frobate.out_signature(), "a{us}");
    let bazify = interface.get_method("Bazify").unwrap();
    assert_eq!(bazify.in_signature(), "(iiu)");
    assert_eq!(bazify.out_signature(), "uv");
    let empty = Method { name: "Ping".into(), args: vec![], annotations: vec![] };
    assert_eq!(empty.in_signature(), "");
    assert_eq!(empty.out_signature(), "");
}

#[test]
fn members_are_found_by_name() {
    let node = test_introspection_doc_rs();
    assert!(node.get_interface("com.example.Other").is_none());
    let interface = node.get_interface("com.example.SampleInterface0").unwrap();
    assert_eq!(interface.name, "com.example.SampleInterface0");
    assert_eq!(interface.get_method("Mogrify").unwrap().args.len(), 1);
    assert!(interface.get_method("mogrify").is_none());
    assert_eq!(interface.get_signal("Changed").unwrap().args[0].signature, "b");
    assert!(interface.get_signal("Bar").is_none());
    assert_eq!(interface.get_property("Bar").unwrap().access, Access::ReadWrite);
    assert!(interface.get_property("Changed").is_none());
}

#[test]
fn the_first_member_of_a_name_is_found() {
    let interface = Interface {
        name: "a.b".into(),
        methods: vec![
            Method {
                name: "M".into(),
                args: vec![MethodArg::new("x", "s", Direction::In)],
                annotations: vec![],
            },
            Method {
                name: "M".into(),
                args: vec![MethodArg::new("x", "i", Direction::In)],
                annotations: vec![],
            },
        ],
        signals: vec![],
        properties: vec![],
        annotations: vec![],
    };
    assert_eq!(interface.get_method("M").unwrap().in_signature(), "s");
}

#[test]
fn signatures_are_looked_up_through_the_node() {
    let node = test_introspection_doc_rs();
    assert_eq!(node.get_method_args_signature("com.example.SampleInterface0", "Mogrify"),
        Some("(iiav)".to_string()));
    assert_eq!(node.get_method_args_signature("com.example.SampleInterface0", "Nope"), None);
    assert_eq!(node.get_method_args_signature("com.example.Nope", "Frobate"), None);
    assert_eq!(node.get_property_signature("com.example.SampleInterface0", "Bar"), Some("y"));
    assert_eq!(node.get_property_signature("com.example.SampleInterface0", "Baz"), None);
    assert_eq!(node.get_property_signature("com.example.Nope", "Bar"), None);
}

#[test]
fn constructors_fill_the_fields() {
    let node = Node::with_name("n");
    assert_eq!(node, Node { name: Some("n".into()), interfaces: vec![], children: vec![] });
    let arg = MethodArg::new("a", "ai", Direction::Out);
    assert_eq!(
        arg,
        MethodArg { name: Some("a".into()), signature: "ai".into(), direction: Direction::Out }
    );
    assert_eq!(
        Annotation::new("k", "v"),
        Annotation { name: "k".into(), value: "v".into() }
    );
    assert_eq!(Direction::default(), Direction::In);
    assert_eq!(Node::default(), Node { name: None, interfaces: vec![], children: vec![] });
}

#[test]
fn a_node_is_cloned_with_its_children() {
    let node = test_introspection_doc_rs();
    assert_eq!(node.clone(), node);
}
