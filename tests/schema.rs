use rbx_xml_core::schema::{ClassDescriptor, PropertyDescriptor, ReflectionDatabase};
use rbx_xml_core::value::{PropertyKind, PropertyValue};

fn class(name: &str, superclass: Option<&str>, properties: Vec<PropertyDescriptor>) -> ClassDescriptor {
    ClassDescriptor {
        name: name.to_string(),
        superclass: superclass.map(|s| s.to_string()),
        properties,
    }
}

fn prop(name: &str, kind: PropertyKind, default: Option<PropertyValue>) -> PropertyDescriptor {
    PropertyDescriptor {
        name: name.to_string(),
        kind,
        default,
        elidable: true,
    }
}

fn database() -> ReflectionDatabase {
    ReflectionDatabase {
        classes: vec![
            class(
                "Instance",
                None,
                vec![prop("Name", PropertyKind::Text, None)],
            ),
            class("Part", Some("BasePart"), vec![]),
            class(
                "PVInstance",
                Some("Instance"),
                vec![prop("Name", PropertyKind::Bool, None)],
            ),
            class(
                "BasePart",
                Some("PVInstance"),
                vec![prop("Anchored", PropertyKind::Bool, Some(PropertyValue::Bool(false)))],
            ),
            class("Orphan", Some("Missing"), vec![]),
        ],
    }
}

#[test]
fn superclasses_iter_test() {
    let db = database();
    let part = db.lookup("Part").unwrap();
    let chain: Vec<&str> = db
        .superclasses_of(part)
        .iter()
        .map(|&i| db.classes[i].name.as_str())
        .collect();
    assert_eq!(chain, vec!["Part", "BasePart", "PVInstance", "Instance"]);
}

#[test]
fn has_superclass_test() {
    let db = database();
    let part = db.lookup("Part").unwrap();
    let instance = db.lookup("Instance").unwrap();
    assert!(db.is_ancestor(instance, part));
    assert!(!db.is_ancestor(part, instance));
}

#[test]
fn class_is_its_own_ancestor() {
    let db = database();
    let part = db.lookup("Part").unwrap();
    assert!(db.is_ancestor(part, part));
}

#[test]
fn chain_ends_at_unknown_superclass() {
    let db = database();
    let orphan = db.lookup("Orphan").unwrap();
    assert_eq!(db.superclasses_of(orphan), vec![orphan]);
}

#[test]
fn lookup_of_missing_class() {
    let db = database();
    assert_eq!(db.lookup("Model"), None);
    assert_eq!(db.lookup("Instance"), Some(0));
}

#[test]
fn nearest_descriptor_wins() {
    let db = database();
    let part = db.lookup("Part").unwrap();
    // PVInstance declares Name nearer to Part than Instance does.
    assert_eq!(db.find_property(part, "Name"), Some((2, 0)));
    assert_eq!(db.find_property(part, "Anchored"), Some((3, 0)));
    assert_eq!(db.find_property(part, "Size"), None);
    assert_eq!(db.descriptor_of("Part", "Anchored"), Some((3, 0)));
    assert_eq!(db.descriptor_of("Model", "Anchored"), None);
}
