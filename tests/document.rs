use rbx_xml_core::codec::{RawInstance, RawProperty};
use rbx_xml_core::document::{find_attribute, Event, EventReader, EventWriter, StreamError};

fn prop(tag: &str, name: &str, text: &str) -> RawProperty {
    RawProperty {
        tag: tag.to_string(),
        name: name.to_string(),
        text: text.to_string(),
    }
}

#[test]
fn written_properties_are_read_back() {
    let mut w = EventWriter::new();
    w.write_start("Properties", vec![]);
    w.write_property(&prop("string", "Name", "Box"));
    w.write_property(&prop("bool", "Anchored", "true"));
    w.write_end("Properties");
    assert_eq!(w.events.len(), 8);

    let mut r = EventReader::new(w.events);
    assert!(r.expect_start("Properties").unwrap().is_empty());
    let a = r.read_property().unwrap();
    assert_eq!((a.tag.as_str(), a.name.as_str(), a.text.as_str()), ("string", "Name", "Box"));
    let b = r.read_property().unwrap();
    assert_eq!((b.tag.as_str(), b.name.as_str(), b.text.as_str()), ("bool", "Anchored", "true"));
    assert_eq!(r.expect_end("Properties"), Ok(()));
    assert!(r.peek().is_none());
    assert!(r.next_event().is_none());
}

#[test]
fn write_value_writes_three_events() {
    let mut w = EventWriter::new();
    w.write_value("url", "rbxasset://x");
    assert!(matches!(&w.events[0], Event::Start { tag, attributes } if tag == "url" && attributes.is_empty()));
    assert!(matches!(&w.events[1], Event::Text(s) if s == "rbxasset://x"));
    assert!(matches!(&w.events[2], Event::End { tag } if tag == "url"));
}

#[test]
fn characters_are_concatenated() {
    let events = vec![
        Event::Text("ab".to_string()),
        Event::Text("cd".to_string()),
        Event::End { tag: "x".to_string() },
    ];
    let mut r = EventReader::new(events);
    assert_eq!(r.read_characters(), "abcd");
    assert_eq!(r.position(), 2);
    assert_eq!(r.read_characters(), "");
    assert_eq!(r.position(), 2);
}

#[test]
fn mismatched_tags_fail_with_position() {
    let events = vec![
        Event::Start { tag: "a".to_string(), attributes: vec![] },
        Event::End { tag: "b".to_string() },
    ];
    let mut r = EventReader::new(events);
    assert_eq!(r.expect_start("b").unwrap_err(), StreamError { position: 0 });
    assert!(r.expect_start("a").is_ok());
    assert_eq!(r.expect_end("a"), Err(StreamError { position: 1 }));
    assert_eq!(r.expect_end("b"), Ok(()));
    assert_eq!(r.expect_end("b"), Err(StreamError { position: 2 }));
}

#[test]
fn property_without_name_is_refused() {
    let events = vec![
        Event::Start { tag: "string".to_string(), attributes: vec![("id".to_string(), "1".to_string())] },
        Event::Text("x".to_string()),
        Event::End { tag: "string".to_string() },
    ];
    let mut r = EventReader::new(events);
    assert_eq!(r.read_property().unwrap_err(), StreamError { position: 0 });
}

#[test]
fn property_without_end_is_refused() {
    let events = vec![
        Event::Start { tag: "string".to_string(), attributes: vec![("name".to_string(), "N".to_string())] },
        Event::Text("x".to_string()),
    ];
    let mut r = EventReader::new(events);
    assert_eq!(r.read_property().unwrap_err(), StreamError { position: 2 });
}

#[test]
fn first_attribute_of_a_name_wins() {
    let a = vec![
        ("name".to_string(), "first".to_string()),
        ("name".to_string(), "second".to_string()),
    ];
    assert_eq!(find_attribute(&a, "name"), Some("first".to_string()));
    assert_eq!(find_attribute(&a, "class"), None);
}

#[test]
fn written_instance_header_and_block_are_read_back() {
    let mut w = EventWriter::new();
    w.write_item_start("Part", "RBX0");
    w.write_properties(&vec![prop("string", "Name", "A"), prop("bool", "Anchored", "false")]);
    w.write_end("Item");
    assert_eq!(w.events.len(), 10);

    let mut r = EventReader::new(w.events);
    let (class_name, referent) = r.read_item_start().unwrap();
    assert_eq!((class_name.as_str(), referent.as_str()), ("Part", "RBX0"));
    let ps = r.read_properties().unwrap();
    assert_eq!(ps.len(), 2);
    assert_eq!((ps[0].tag.as_str(), ps[0].name.as_str(), ps[0].text.as_str()), ("string", "Name", "A"));
    assert_eq!((ps[1].tag.as_str(), ps[1].name.as_str(), ps[1].text.as_str()), ("bool", "Anchored", "false"));
    assert_eq!(r.expect_end("Item"), Ok(()));
    assert_eq!(r.position(), 10);
}

#[test]
fn empty_properties_block() {
    let mut w = EventWriter::new();
    w.write_properties(&vec![]);
    let mut r = EventReader::new(w.events);
    assert!(r.read_properties().unwrap().is_empty());
    assert_eq!(r.position(), 2);
}

#[test]
fn instance_without_referent_is_refused() {
    let events = vec![Event::Start {
        tag: "Item".to_string(),
        attributes: vec![("class".to_string(), "Part".to_string())],
    }];
    let mut r = EventReader::new(events);
    assert_eq!(r.read_item_start().unwrap_err(), StreamError { position: 0 });
    assert_eq!(r.position(), 0);
}

#[test]
fn unterminated_properties_block_is_refused() {
    let mut w = EventWriter::new();
    w.write_start("Properties", vec![]);
    w.write_property(&prop("string", "Name", "A"));
    let mut r = EventReader::new(w.events);
    assert!(r.read_properties().is_err());
}

fn write_item(w: &mut EventWriter, class: &str, referent: &str, ps: Vec<RawProperty>) {
    w.write_item_start(class, referent);
    w.write_properties(&ps);
}

#[test]
fn nested_document_is_read_in_document_order() {
    let mut w = EventWriter::new();
    w.write_start("roblox", vec![]);
    write_item(&mut w, "Model", "RBX0", vec![prop("string", "Name", "M")]);
    write_item(&mut w, "Part", "RBX1", vec![prop("Ref", "Target", "RBX2")]);
    w.write_end("Item");
    write_item(&mut w, "Part", "RBX2", vec![]);
    write_item(&mut w, "Part", "RBX3", vec![]);
    w.write_end("Item");
    w.write_end("Item");
    w.write_end("Item");
    write_item(&mut w, "Folder", "RBX4", vec![]);
    w.write_end("Item");
    w.write_end("roblox");
    let n = w.events.len();

    let mut r = EventReader::new(w.events);
    let raw = r.read_document().unwrap();
    assert_eq!(r.position(), n);
    let shape: Vec<(&str, &str, Option<usize>)> = raw
        .iter()
        .map(|e| (e.class_name.as_str(), e.referent.as_str(), e.parent))
        .collect();
    assert_eq!(
        shape,
        vec![
            ("Model", "RBX0", None),
            ("Part", "RBX1", Some(0)),
            ("Part", "RBX2", Some(0)),
            ("Part", "RBX3", Some(2)),
            ("Folder", "RBX4", None),
        ]
    );
    assert_eq!(raw[1].properties[0].text, "RBX2");
}

#[test]
fn document_with_open_instance_at_root_end_is_refused() {
    let mut w = EventWriter::new();
    w.write_start("roblox", vec![]);
    write_item(&mut w, "Part", "RBX0", vec![]);
    w.write_end("roblox");
    let mut r = EventReader::new(w.events);
    assert!(r.read_document().is_err());
}

#[test]
fn stray_item_end_is_refused() {
    let mut w = EventWriter::new();
    w.write_start("roblox", vec![]);
    w.write_end("Item");
    w.write_end("roblox");
    let mut r = EventReader::new(w.events);
    assert_eq!(r.read_document().unwrap_err(), StreamError { position: 1 });
}

#[test]
fn document_without_root_is_refused() {
    let mut w = EventWriter::new();
    write_item(&mut w, "Part", "RBX0", vec![]);
    let mut r = EventReader::new(w.events);
    assert_eq!(r.read_document().unwrap_err(), StreamError { position: 0 });
}

fn item(class: &str, referent: &str, parent: Option<usize>, properties: Vec<RawProperty>) -> RawInstance {
    RawInstance {
        class_name: class.to_string(),
        referent: referent.to_string(),
        parent,
        properties,
    }
}

#[test]
fn written_document_is_read_back() {
    let raw = vec![
        item("Model", "RBX0", None, vec![prop("string", "Name", "M")]),
        item("Part", "RBX1", Some(0), vec![prop("Ref", "Target", "RBX3")]),
        item("Part", "RBX2", Some(1), vec![]),
        item("Part", "RBX3", Some(0), vec![prop("bool", "Anchored", "true")]),
        item("Folder", "RBX4", None, vec![]),
    ];
    let mut w = EventWriter::new();
    assert_eq!(w.write_document(&raw), Ok(()));
    let n = w.events.len();
    let mut r = EventReader::new(w.events);
    let back = r.read_document().unwrap();
    assert_eq!(r.position(), n);
    assert_eq!(back.len(), raw.len());
    for (x, y) in back.iter().zip(raw.iter()) {
        assert_eq!(x.class_name, y.class_name);
        assert_eq!(x.referent, y.referent);
        assert_eq!(x.parent, y.parent);
        let xs: Vec<(&str, &str, &str)> = x.properties.iter().map(|p| (p.tag.as_str(), p.name.as_str(), p.text.as_str())).collect();
        let ys: Vec<(&str, &str, &str)> = y.properties.iter().map(|p| (p.tag.as_str(), p.name.as_str(), p.text.as_str())).collect();
        assert_eq!(xs, ys);
    }
}

#[test]
fn element_whose_parent_is_closed_is_refused() {
    let raw = vec![
        item("Model", "RBX0", None, vec![]),
        item("Part", "RBX1", Some(0), vec![]),
        item("Folder", "RBX2", None, vec![]),
        item("Part", "RBX3", Some(1), vec![]),
    ];
    let mut w = EventWriter::new();
    assert_eq!(w.write_document(&raw), Err(3));
}

#[test]
fn empty_document_is_written_and_read() {
    let mut w = EventWriter::new();
    assert_eq!(w.write_document(&vec![]), Ok(()));
    assert_eq!(w.events.len(), 2);
    let mut r = EventReader::new(w.events);
    assert!(r.read_document().unwrap().is_empty());
}
