use rbx_xml_core::codec::{DecodeErrorKind, Instance};
use rbx_xml_core::document::{Event, EventWriter};
use rbx_xml_core::format::{decode_events, encode_events, DocumentError};
use rbx_xml_core::schema::{ClassDescriptor, PropertyDescriptor, ReflectionDatabase};
use rbx_xml_core::value::{PropertyKind, PropertyValue};

fn database() -> ReflectionDatabase {
    ReflectionDatabase {
        classes: vec![ClassDescriptor {
            name: "Part".to_string(),
            superclass: None,
            properties: vec![PropertyDescriptor {
                name: "Anchored".to_string(),
                kind: PropertyKind::Bool,
                default: Some(PropertyValue::Bool(false)),
                elidable: true,
            }],
        }],
    }
}

fn inst(referent: &str, parent: Option<usize>, properties: Vec<(&str, PropertyValue)>) -> Instance {
    Instance {
        class_name: "Part".to_string(),
        referent: referent.to_string(),
        parent,
        properties: properties.into_iter().map(|(n, v)| (n.to_string(), v)).collect(),
    }
}

#[test]
fn arena_survives_events() {
    let db = database();
    let insts = vec![
        inst("RBX0", None, vec![("Anchored", PropertyValue::Bool(true))]),
        inst("RBX1", Some(0), vec![("Target", PropertyValue::Ref(2))]),
        inst("RBX2", Some(0), vec![("Name", PropertyValue::Text("c".to_string()))]),
    ];
    let events = encode_events(&db, &insts).unwrap();
    let back = decode_events(&db, events).unwrap();
    assert_eq!(back.len(), 3);
    for (x, y) in back.iter().zip(insts.iter()) {
        assert_eq!(x.class_name, y.class_name);
        assert_eq!(x.referent, y.referent);
        assert_eq!(x.parent, y.parent);
        assert_eq!(x.properties, y.properties);
    }
}

#[test]
fn malformed_stream_is_a_stream_error() {
    let db = database();
    let events = vec![Event::End { tag: "roblox".to_string() }];
    assert!(matches!(decode_events(&db, events), Err(DocumentError::Stream(e)) if e.position == 0));
}

#[test]
fn undecodable_document_is_a_decode_error() {
    let db = database();
    let mut w = EventWriter::new();
    w.write_start("roblox", vec![]);
    w.write_item_start("Part", "RBX0");
    w.write_properties(&vec![rbx_xml_core::codec::RawProperty {
        tag: "Vector3".to_string(),
        name: "Size".to_string(),
        text: "1, 1, 1".to_string(),
    }]);
    w.write_end("Item");
    w.write_end("roblox");
    match decode_events(&db, w.events) {
        Err(DocumentError::Decode(e)) => {
            assert_eq!(e.kind, DecodeErrorKind::UnknownPropertyType);
            assert_eq!(e.instance, 0);
        }
        _ => panic!("expected a decode error"),
    }
}

#[test]
fn arena_out_of_document_order_is_refused() {
    let db = database();
    let insts = vec![
        inst("RBX0", None, vec![]),
        inst("RBX1", Some(0), vec![]),
        inst("RBX2", None, vec![]),
        inst("RBX3", Some(1), vec![]),
    ];
    assert_eq!(encode_events(&db, &insts).err(), Some(3));
}
