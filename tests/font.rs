use rbx_xml_core::font::{Font, FontStyle, FontWeight};

#[test]
fn weight_from_number() {
    assert_eq!(FontWeight::from_u16(100), FontWeight::Thin);
    assert_eq!(FontWeight::from_u16(200), FontWeight::ExtraLight);
    assert_eq!(FontWeight::from_u16(300), FontWeight::Light);
    assert_eq!(FontWeight::from_u16(400), FontWeight::Regular);
    assert_eq!(FontWeight::from_u16(500), FontWeight::Medium);
    assert_eq!(FontWeight::from_u16(600), FontWeight::SemiBold);
    assert_eq!(FontWeight::from_u16(700), FontWeight::Bold);
    assert_eq!(FontWeight::from_u16(800), FontWeight::ExtraBold);
    assert_eq!(FontWeight::from_u16(900), FontWeight::Heavy);
}

#[test]
fn weight_from_unknown_number_is_regular() {
    assert_eq!(FontWeight::from_u16(0), FontWeight::Regular);
    assert_eq!(FontWeight::from_u16(450), FontWeight::Regular);
    assert_eq!(FontWeight::from_u16(u16::MAX), FontWeight::Regular);
}

#[test]
fn weight_numbers_round_trip() {
    let all = [
        FontWeight::Thin,
        FontWeight::ExtraLight,
        FontWeight::Light,
        FontWeight::Regular,
        FontWeight::Medium,
        FontWeight::SemiBold,
        FontWeight::Bold,
        FontWeight::ExtraBold,
        FontWeight::Heavy,
    ];
    for (i, w) in all.iter().enumerate() {
        assert_eq!(w.as_u16(), 100 * (i as u16 + 1));
        assert_eq!(FontWeight::from_u16(w.as_u16()), *w);
    }
}

#[test]
fn style_numbers() {
    assert_eq!(FontStyle::from_u8(0), FontStyle::Normal);
    assert_eq!(FontStyle::from_u8(1), FontStyle::Italic);
    assert_eq!(FontStyle::from_u8(2), FontStyle::Normal);
    assert_eq!(FontStyle::Normal.as_u8(), 0);
    assert_eq!(FontStyle::Italic.as_u8(), 1);
}

#[test]
fn defaults() {
    assert_eq!(FontWeight::default(), FontWeight::Regular);
    assert_eq!(FontStyle::default(), FontStyle::Normal);
    let f = Font::default();
    assert_eq!(f.family, "rbxasset://fonts/families/SourceSansPro.json");
    assert_eq!(f.weight, FontWeight::Regular);
    assert_eq!(f.style, FontStyle::Normal);
    assert_eq!(f.cached_face_id, None);
}

#[test]
fn new_and_regular() {
    let f = Font::new("a.json", FontWeight::Bold, FontStyle::Italic);
    assert_eq!(f.family, "a.json");
    assert_eq!(f.weight, FontWeight::Bold);
    assert_eq!(f.style, FontStyle::Italic);
    assert_eq!(f.cached_face_id, None);
    let r = Font::regular("b.json");
    assert_eq!(r, Font::new("b.json", FontWeight::Regular, FontStyle::Normal));
    assert_ne!(r, f);
}

#[test]
fn font_equality_looks_at_cached_face_id() {
    let a = Font::regular("a.json");
    let mut b = Font::regular("a.json");
    assert_eq!(a, b);
    b.cached_face_id = Some("x".to_string());
    assert_ne!(a, b);
}

#[test]
fn legacy_font_numbers() {
    assert_eq!(
        Font::from_font_enum(0),
        Some(Font::regular("rbxasset://fonts/families/LegacyArial.json"))
    );
    assert_eq!(
        Font::from_font_enum(2),
        Some(Font::new(
            "rbxasset://fonts/families/Arial.json",
            FontWeight::Bold,
            FontStyle::Normal
        ))
    );
    assert_eq!(
        Font::from_font_enum(6),
        Some(Font::new(
            "rbxasset://fonts/families/SourceSansPro.json",
            FontWeight::Regular,
            FontStyle::Italic
        ))
    );
    assert_eq!(
        Font::from_font_enum(16),
        Some(Font::new(
            "rbxasset://fonts/families/SourceSansPro.json",
            FontWeight::SemiBold,
            FontStyle::Normal
        ))
    );
    assert_eq!(
        Font::from_font_enum(20),
        Some(Font::new(
            "rbxasset://fonts/families/GothamSSm.json",
            FontWeight::Heavy,
            FontStyle::Normal
        ))
    );
    assert_eq!(
        Font::from_font_enum(45),
        Some(Font::regular("rbxasset://fonts/families/Ubuntu.json"))
    );
}

#[test]
fn legacy_font_number_out_of_range() {
    assert_eq!(Font::from_font_enum(46), None);
    assert_eq!(Font::from_font_enum(u32::MAX), None);
}
