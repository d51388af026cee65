use rbx_xml_core::codec::{
    decode, decode_property, encode, find_referent_index, is_elided, value_to_text, DecodeError,
    DecodeErrorKind, Instance, PendingValue, RawInstance, RawProperty,
};
use rbx_xml_core::schema::{ClassDescriptor, PropertyDescriptor, ReflectionDatabase};
use rbx_xml_core::value::{
    kind_of_tag, tag_of_kind, PropertyKind, PropertyValue, UniqueId,
};

fn database() -> ReflectionDatabase {
    ReflectionDatabase {
        classes: vec![
            ClassDescriptor {
                name: "Instance".to_string(),
                superclass: None,
                properties: vec![PropertyDescriptor {
                    name: "Name".to_string(),
                    kind: PropertyKind::Text,
                    default: Some(PropertyValue::Text("Instance".to_string())),
                    elidable: false,
                }],
            },
            ClassDescriptor {
                name: "Part".to_string(),
                superclass: Some("Instance".to_string()),
                properties: vec![
                    PropertyDescriptor {
                        name: "Anchored".to_string(),
                        kind: PropertyKind::Bool,
                        default: Some(PropertyValue::Bool(false)),
                        elidable: true,
                    },
                    PropertyDescriptor {
                        name: "Target".to_string(),
                        kind: PropertyKind::Ref,
                        default: None,
                        elidable: true,
                    },
                    PropertyDescriptor {
                        name: "Id".to_string(),
                        kind: PropertyKind::UniqueId,
                        default: None,
                        elidable: true,
                    },
                ],
            },
        ],
    }
}

fn raw_prop(tag: &str, name: &str, text: &str) -> RawProperty {
    RawProperty {
        tag: tag.to_string(),
        name: name.to_string(),
        text: text.to_string(),
    }
}

fn raw_inst(class: &str, referent: &str, parent: Option<usize>, properties: Vec<RawProperty>) -> RawInstance {
    RawInstance {
        class_name: class.to_string(),
        referent: referent.to_string(),
        parent,
        properties,
    }
}

fn inst(class: &str, referent: &str, parent: Option<usize>, properties: Vec<(&str, PropertyValue)>) -> Instance {
    Instance {
        class_name: class.to_string(),
        referent: referent.to_string(),
        parent,
        properties: properties
            .into_iter()
            .map(|(n, v)| (n.to_string(), v))
            .collect(),
    }
}

fn texts(ps: &[RawProperty]) -> Vec<(String, String, String)> {
    ps.iter()
        .map(|p| (p.tag.clone(), p.name.clone(), p.text.clone()))
        .collect()
}

#[test]
fn registry_tags() {
    for k in [PropertyKind::Text, PropertyKind::Bool, PropertyKind::UniqueId, PropertyKind::Ref] {
        assert_eq!(kind_of_tag(tag_of_kind(k)), Some(k));
    }
    assert_eq!(kind_of_tag("string"), Some(PropertyKind::Text));
    assert_eq!(kind_of_tag("Vector3"), None);
}

#[test]
fn unique_id_text_form() {
    let id = UniqueId { index: 1, time: 2, random: 3 };
    let text = id.to_text();
    assert_eq!(text, "00000000000000030000000200000001");
    assert_eq!(UniqueId::from_text(&text), Ok(id));
    assert_eq!(
        UniqueId::from_text("0123"),
        Err("expected string to contain 32 characters, got one that contained 4".to_string())
    );
    assert!(UniqueId::from_text("zz000000000000030000000200000001").is_err());
}

#[test]
fn unique_id_text_outside_ascii_is_an_error() {
    // 32 bytes, with a multi-byte character across byte offset 16.
    let text = format!("{}\u{20ac}{}", "a".repeat(15), "a".repeat(14));
    assert_eq!(text.len(), 32);
    assert_eq!(
        UniqueId::from_text(&text),
        Err("expected hexadecimal digits, found a character outside ASCII".to_string())
    );
    let db = database();
    assert_eq!(
        decode_property(&db, "Part", &raw_prop("UniqueId", "Id", &text)).err(),
        Some(DecodeErrorKind::InvalidPropertyData {
            property_type: "UniqueId".to_string(),
            error: "expected hexadecimal digits, found a character outside ASCII".to_string(),
        })
    );
}

#[test]
fn decode_one_property_of_each_kind() {
    let db = database();
    let v = decode_property(&db, "Part", &raw_prop("string", "Name", "Box")).unwrap();
    assert!(matches!(v, PendingValue::Value(PropertyValue::Text(ref s)) if s == "Box"));
    let v = decode_property(&db, "Part", &raw_prop("bool", "Anchored", "true")).unwrap();
    assert!(matches!(v, PendingValue::Value(PropertyValue::Bool(true))));
    let v = decode_property(&db, "Part", &raw_prop("UniqueId", "Id", "00000000000000030000000200000001")).unwrap();
    assert!(matches!(v, PendingValue::Value(PropertyValue::UniqueId(u)) if u == UniqueId { index: 1, time: 2, random: 3 }));
    let v = decode_property(&db, "Part", &raw_prop("Ref", "Target", "RBX1")).unwrap();
    assert!(matches!(v, PendingValue::Link(ref t) if t == "RBX1"));
}

#[test]
fn invalid_text_is_invalid_property_data() {
    let db = database();
    assert!(matches!(
        decode_property(&db, "Part", &raw_prop("bool", "Anchored", "yes")),
        Err(DecodeErrorKind::InvalidPropertyData { ref property_type, ref error })
            if property_type == "bool" && error == "expected true or false"
    ));
    assert!(matches!(
        decode_property(&db, "Part", &raw_prop("UniqueId", "Id", "short")),
        Err(DecodeErrorKind::InvalidPropertyData { ref property_type, ref error })
            if property_type == "UniqueId" && error == "expected string to contain 32 characters, got one that contained 5"
    ));
}

#[test]
fn unknown_property_type_fails_document() {
    let db = database();
    let raw = vec![
        raw_inst("Part", "RBX0", None, vec![raw_prop("string", "Name", "A")]),
        raw_inst("Part", "RBX1", Some(0), vec![raw_prop("Vector3", "Size", "1, 2, 3")]),
    ];
    assert_eq!(
        decode(&db, &raw).unwrap_err(),
        DecodeError { kind: DecodeErrorKind::UnknownPropertyType, instance: 1 }
    );
}

#[test]
fn schema_mismatch_fails_document() {
    let db = database();
    // "true" parses as a boolean, but Name is declared as text.
    let raw = vec![raw_inst("Part", "RBX0", None, vec![raw_prop("bool", "Name", "true")])];
    assert_eq!(
        decode(&db, &raw).unwrap_err(),
        DecodeError {
            kind: DecodeErrorKind::InvalidPropertyData {
                property_type: "bool".to_string(),
                error: "the element's type differs from the type the schema declares".to_string(),
            },
            instance: 0,
        }
    );
}

#[test]
fn undeclared_property_passes_through() {
    let db = database();
    let raw = vec![raw_inst("Part", "RBX0", None, vec![raw_prop("bool", "Custom", "true")])];
    let insts = decode(&db, &raw).unwrap();
    assert_eq!(insts[0].properties, vec![("Custom".to_string(), PropertyValue::Bool(true))]);
}

#[test]
fn forward_reference_is_resolved() {
    let db = database();
    let raw = vec![
        raw_inst("Part", "RBX0", None, vec![raw_prop("Ref", "Target", "RBX1")]),
        raw_inst("Part", "RBX1", Some(0), vec![]),
    ];
    let insts = decode(&db, &raw).unwrap();
    assert_eq!(insts.len(), 2);
    assert_eq!(insts[0].properties, vec![("Target".to_string(), PropertyValue::Ref(1))]);
    assert_eq!(insts[1].parent, Some(0));
    assert_eq!(insts[1].referent, "RBX1");
}

#[test]
fn unresolved_reference_is_dropped() {
    let db = database();
    let raw = vec![
        raw_inst(
            "Part",
            "RBX0",
            None,
            vec![raw_prop("Ref", "Target", "RBX9"), raw_prop("string", "Name", "Kept")],
        ),
        raw_inst("Part", "RBX1", Some(0), vec![]),
    ];
    let insts = decode(&db, &raw).unwrap();
    assert_eq!(
        insts[0].properties,
        vec![("Name".to_string(), PropertyValue::Text("Kept".to_string()))]
    );
    assert_eq!(find_referent_index(&raw, "RBX9"), None);
    assert_eq!(find_referent_index(&raw, "RBX1"), Some(1));
}

#[test]
fn duplicate_referent_is_malformed() {
    let db = database();
    let raw = vec![
        raw_inst("Part", "RBX0", None, vec![]),
        raw_inst("Part", "RBX0", Some(0), vec![]),
    ];
    assert_eq!(
        decode(&db, &raw).unwrap_err(),
        DecodeError { kind: DecodeErrorKind::MalformedDocument, instance: 1 }
    );
}

#[test]
fn parent_after_child_is_malformed() {
    let db = database();
    let raw = vec![
        raw_inst("Part", "RBX0", Some(1), vec![]),
        raw_inst("Part", "RBX1", None, vec![]),
    ];
    assert_eq!(
        decode(&db, &raw).unwrap_err(),
        DecodeError { kind: DecodeErrorKind::MalformedDocument, instance: 0 }
    );
}

#[test]
fn empty_document() {
    let db = database();
    assert_eq!(decode(&db, &vec![]).unwrap().len(), 0);
    assert_eq!(encode(&db, &vec![]).len(), 0);
}

#[test]
fn default_value_is_elided() {
    let db = database();
    assert!(is_elided(&db, "Part", "Anchored", &PropertyValue::Bool(false)));
    assert!(!is_elided(&db, "Part", "Anchored", &PropertyValue::Bool(true)));
    // Name equals its default but is not marked elidable.
    assert!(!is_elided(&db, "Part", "Name", &PropertyValue::Text("Instance".to_string())));
    // No descriptor: never elided.
    assert!(!is_elided(&db, "Part", "Custom", &PropertyValue::Bool(false)));

    let insts = vec![
        inst("Part", "RBX0", None, vec![("Anchored", PropertyValue::Bool(false))]),
        inst("Part", "RBX1", Some(0), vec![("Anchored", PropertyValue::Bool(true))]),
    ];
    let raw = encode(&db, &insts);
    assert!(raw[0].properties.is_empty());
    assert_eq!(
        texts(&raw[1].properties),
        vec![("bool".to_string(), "Anchored".to_string(), "true".to_string())]
    );
}

#[test]
fn encoding_twice_is_identical() {
    let db = database();
    let insts = vec![
        inst(
            "Part",
            "RBX0",
            None,
            vec![
                ("Name", PropertyValue::Text("A".to_string())),
                ("Anchored", PropertyValue::Bool(false)),
                ("Id", PropertyValue::UniqueId(UniqueId { index: 7, time: 8, random: 9 })),
            ],
        ),
        inst("Part", "RBX1", Some(0), vec![("Target", PropertyValue::Ref(0))]),
    ];
    let a = encode(&db, &insts);
    let b = encode(&db, &insts);
    assert_eq!(a.len(), b.len());
    for (x, y) in a.iter().zip(b.iter()) {
        assert_eq!(x.class_name, y.class_name);
        assert_eq!(x.referent, y.referent);
        assert_eq!(x.parent, y.parent);
        assert_eq!(texts(&x.properties), texts(&y.properties));
    }
    assert_eq!(
        texts(&a[0].properties),
        vec![
            ("string".to_string(), "Name".to_string(), "A".to_string()),
            ("UniqueId".to_string(), "Id".to_string(), "00000000000000090000000800000007".to_string()),
        ]
    );
    assert_eq!(
        texts(&a[1].properties),
        vec![("Ref".to_string(), "Target".to_string(), "RBX0".to_string())]
    );
}

#[test]
fn reference_text_is_target_referent() {
    let insts = vec![inst("Part", "RBX0", None, vec![]), inst("Part", "RBXa", None, vec![])];
    assert_eq!(value_to_text(&PropertyValue::Ref(1), &insts), "RBXa");
    assert_eq!(value_to_text(&PropertyValue::Bool(false), &insts), "false");
}

#[test]
fn decode_of_encode_round_trips() {
    let db = database();
    let insts = vec![
        inst(
            "Part",
            "RBX0",
            None,
            vec![
                ("Name", PropertyValue::Text("Root".to_string())),
                ("Target", PropertyValue::Ref(2)),
            ],
        ),
        inst("Part", "RBX1", Some(0), vec![("Anchored", PropertyValue::Bool(true))]),
        inst("Instance", "RBX2", Some(0), vec![("Custom", PropertyValue::Text("x".to_string()))]),
        inst(
            "Part",
            "RBX3",
            Some(1),
            vec![("Id", PropertyValue::UniqueId(UniqueId { index: 1, time: 20, random: 300 }))],
        ),
    ];
    let raw = encode(&db, &insts);
    let back = decode(&db, &raw).unwrap();
    assert_eq!(back.len(), insts.len());
    for (x, y) in back.iter().zip(insts.iter()) {
        assert_eq!(x.class_name, y.class_name);
        assert_eq!(x.referent, y.referent);
        assert_eq!(x.parent, y.parent);
        assert_eq!(x.properties, y.properties);
    }
}


#[test]
fn dangling_reference_in_the_middle_changes_nothing_else() {
    let db = database();
    let with = vec![
        raw_inst("Part", "RBX0", None, vec![]),
        raw_inst(
            "Part",
            "RBX1",
            Some(0),
            vec![
                raw_prop("string", "Name", "A"),
                raw_prop("Ref", "Target", "RBX9"),
                raw_prop("UniqueId", "Id", "00000000000000030000000200000001"),
            ],
        ),
    ];
    let without = vec![
        raw_inst("Part", "RBX0", None, vec![]),
        raw_inst(
            "Part",
            "RBX1",
            Some(0),
            vec![
                raw_prop("string", "Name", "A"),
                raw_prop("UniqueId", "Id", "00000000000000030000000200000001"),
            ],
        ),
    ];
    let a = decode(&db, &with).unwrap();
    let b = decode(&db, &without).unwrap();
    assert_eq!(a.len(), b.len());
    for (x, y) in a.iter().zip(b.iter()) {
        assert_eq!(x.class_name, y.class_name);
        assert_eq!(x.referent, y.referent);
        assert_eq!(x.parent, y.parent);
        assert_eq!(x.properties, y.properties);
    }
    assert_eq!(
        a[1].properties[1],
        ("Id".to_string(), PropertyValue::UniqueId(UniqueId { index: 1, time: 2, random: 3 }))
    );
}

#[test]
fn non_default_value_in_the_middle_is_written_in_place() {
    let db = database();
    let insts = vec![inst(
        "Part",
        "RBX0",
        None,
        vec![
            ("Name", PropertyValue::Text("A".to_string())),
            ("Anchored", PropertyValue::Bool(false)),
            ("Id", PropertyValue::UniqueId(UniqueId { index: 1, time: 2, random: 3 })),
            ("Anchored", PropertyValue::Bool(true)),
        ],
    )];
    let raw = encode(&db, &insts);
    assert_eq!(
        texts(&raw[0].properties),
        vec![
            ("string".to_string(), "Name".to_string(), "A".to_string()),
            ("UniqueId".to_string(), "Id".to_string(), "00000000000000030000000200000001".to_string()),
            ("bool".to_string(), "Anchored".to_string(), "true".to_string()),
        ]
    );
}
