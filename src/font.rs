//! Font faces: a typeface family together with a weight and a style.
use vstd::prelude::*;

verus! {

/// The weight of a font face, from thinnest to heaviest.
#[derive(Debug, Copy, Clone, PartialEq, Eq, Structural, Hash)]
pub enum FontWeight {
    Thin,
    ExtraLight,
    Light,
    Regular,
    Medium,
    SemiBold,
    Bold,
    ExtraBold,
    Heavy,
}

/// The numeric weight (a multiple of 100) that stands for each weight.
pub open spec fn weight_number(w: FontWeight) -> u16 {
    match w {
        FontWeight::Thin => 100,
        FontWeight::ExtraLight => 200,
        FontWeight::Light => 300,
        FontWeight::Regular => 400,
        FontWeight::Medium => 500,
        FontWeight::SemiBold => 600,
        FontWeight::Bold => 700,
        FontWeight::ExtraBold => 800,
        FontWeight::Heavy => 900,
    }
}

/// The weight that a number stands for; numbers that stand for no weight
/// fall back to `Regular`.
pub open spec fn weight_of_number(n: u16) -> FontWeight {
    if n == 100 {
        FontWeight::Thin
    } else if n == 200 {
        FontWeight::ExtraLight
    } else if n == 300 {
        FontWeight::Light
    } else if n == 500 {
        FontWeight::Medium
    } else if n == 600 {
        FontWeight::SemiBold
    } else if n == 700 {
        FontWeight::Bold
    } else if n == 800 {
        FontWeight::ExtraBold
    } else if n == 900 {
        FontWeight::Heavy
    } else {
        FontWeight::Regular
    }
}

impl Default for FontWeight {
    fn default() -> (r: Self)
        ensures
            r == FontWeight::Regular,
    {
        FontWeight::Regular
    }
}

impl FontWeight {
    pub fn from_u16(weight: u16) -> (r: Self)
        ensures
            r == weight_of_number(weight),
    {
        match weight {
            100 => FontWeight::Thin,
            200 => FontWeight::ExtraLight,
            300 => FontWeight::Light,
            400 => FontWeight::Regular,
            500 => FontWeight::Medium,
            600 => FontWeight::SemiBold,
            700 => FontWeight::Bold,
            800 => FontWeight::ExtraBold,
            900 => FontWeight::Heavy,
            _ => FontWeight::Regular,
        }
    }

    pub fn as_u16(self) -> (r: u16)
        ensures
            r == weight_number(self),
    {
        match self {
            FontWeight::Thin => 100,
            FontWeight::ExtraLight => 200,
            FontWeight::Light => 300,
            FontWeight::Regular => 400,
            FontWeight::Medium => 500,
            FontWeight::SemiBold => 600,
            FontWeight::Bold => 700,
            FontWeight::ExtraBold => 800,
            FontWeight::Heavy => 900,
        }
    }
}

/// Every weight survives a trip through its number.
pub proof fn lemma_weight_number_round_trip(w: FontWeight)
    ensures
        weight_of_number(weight_number(w)) == w,
{
}

/// The slant of a font face.
#[derive(Debug, Copy, Clone, PartialEq, Eq, Structural, Hash)]
pub enum FontStyle {
    Normal,
    Italic,
}

/// The number that stands for each style.
pub open spec fn style_number(s: FontStyle) -> u8 {
    match s {
        FontStyle::Normal => 0,
        FontStyle::Italic => 1,
    }
}

/// The style that a number stands for; any number but 1 is `Normal`.
pub open spec fn style_of_number(n: u8) -> FontStyle {
    if n == 1 {
        FontStyle::Italic
    } else {
        FontStyle::Normal
    }
}

impl Default for FontStyle {
    fn default() -> (r: Self)
        ensures
            r == FontStyle::Normal,
    {
        FontStyle::Normal
    }
}

impl FontStyle {
    pub fn from_u8(style: u8) -> (r: Self)
        ensures
            r == style_of_number(style),
    {
        match style {
            0 => FontStyle::Normal,
            1 => FontStyle::Italic,
            _ => FontStyle::Normal,
        }
    }

    pub fn as_u8(self) -> (r: u8)
        ensures
            r == style_number(self),
    {
        match self {
            FontStyle::Normal => 0,
            FontStyle::Italic => 1,
        }
    }
}

/// Every style survives a trip through its number.
pub proof fn lemma_style_number_round_trip(s: FontStyle)
    ensures
        style_of_number(style_number(s)) == s,
{
}

/// A font face consisting of a typeface and other style properties.
#[derive(Debug, Clone)]
pub struct Font {
    pub family: String,
    pub weight: FontWeight,
    pub style: FontStyle,
    pub cached_face_id: Option<String>,
}

/// Two optional strings hold the same text, or are both absent.
pub open spec fn same_opt_text(a: Option<String>, b: Option<String>) -> bool {
    match (a, b) {
        (Some(x), Some(y)) => x@ == y@,
        (None, None) => true,
        _ => false,
    }
}

/// Two fonts are equal when all four of their parts are.
pub open spec fn font_eq(a: Font, b: Font) -> bool {
    &&& a.family@ == b.family@
    &&& a.weight == b.weight
    &&& a.style == b.style
    &&& same_opt_text(a.cached_face_id, b.cached_face_id)
}

fn opt_text_eq(a: &Option<String>, b: &Option<String>) -> (r: bool)
    ensures
        r == same_opt_text(*a, *b),
{
    match (a, b) {
        (Some(x), Some(y)) => *x == *y,
        (None, None) => true,
        _ => false,
    }
}

impl PartialEq for Font {
    fn eq(&self, o: &Font) -> (r: bool) {
        self.family == o.family && self.weight == o.weight && self.style == o.style
            && opt_text_eq(&self.cached_face_id, &o.cached_face_id)
    }
}

impl vstd::std_specs::cmp::PartialEqSpecImpl for Font {
    open spec fn obeys_eq_spec() -> bool {
        true
    }

    open spec fn eq_spec(&self, o: &Font) -> bool {
        font_eq(*self, *o)
    }
}

impl Eq for Font {

}

/// The family of the default font face.
pub open spec fn default_family() -> Seq<char> {
    "rbxasset://fonts/families/SourceSansPro.json"@
}

impl Default for Font {
    fn default() -> (r: Self)
        ensures
            r.family@ == default_family(),
            r.weight == FontWeight::Regular,
            r.style == FontStyle::Normal,
            r.cached_face_id.is_none(),
    {
        Font {
            family: "rbxasset://fonts/families/SourceSansPro.json".to_owned(),
            weight: FontWeight::default(),
            style: FontStyle::default(),
            cached_face_id: None,
        }
    }
}

/// The family, weight and style that a legacy font number stands for, or
/// `None` for a number that stands for no font.
pub open spec fn font_enum_face(value: u32) -> Option<(Seq<char>, FontWeight, FontStyle)> {
    match value {
        0 => Some(("rbxasset://fonts/families/LegacyArial.json"@, FontWeight::Regular, FontStyle::Normal)),
        1 => Some(("rbxasset://fonts/families/Arial.json"@, FontWeight::Regular, FontStyle::Normal)),
        2 => Some(("rbxasset://fonts/families/Arial.json"@, FontWeight::Bold, FontStyle::Normal)),
        3 => Some(("rbxasset://fonts/families/SourceSansPro.json"@, FontWeight::Regular, FontStyle::Normal)),
        4 => Some(("rbxasset://fonts/families/SourceSansPro.json"@, FontWeight::Bold, FontStyle::Normal)),
        16 => Some(("rbxasset://fonts/families/SourceSansPro.json"@, FontWeight::SemiBold, FontStyle::Normal)),
        5 => Some(("rbxasset://fonts/families/SourceSansPro.json"@, FontWeight::Light, FontStyle::Normal)),
        6 => Some(("rbxasset://fonts/families/SourceSansPro.json"@, FontWeight::Regular, FontStyle::Italic)),
        7 => Some(("rbxasset://fonts/families/AccanthisADFStd.json"@, FontWeight::Regular, FontStyle::Normal)),
        8 => Some(("rbxasset://fonts/families/Guru.json"@, FontWeight::Regular, FontStyle::Normal)),
        9 => Some(("rbxasset://fonts/families/ComicNeueAngular.json"@, FontWeight::Regular, FontStyle::Normal)),
        10 => Some(("rbxasset://fonts/families/Inconsolata.json"@, FontWeight::Regular, FontStyle::Normal)),
        11 => Some(("rbxasset://fonts/families/HighwayGothic.json"@, FontWeight::Regular, FontStyle::Normal)),
        12 => Some(("rbxasset://fonts/families/Zekton.json"@, FontWeight::Regular, FontStyle::Normal)),
        13 => Some(("rbxasset://fonts/families/PressStart2P.json"@, FontWeight::Regular, FontStyle::Normal)),
        14 => Some(("rbxasset://fonts/families/Balthazar.json"@, FontWeight::Regular, FontStyle::Normal)),
        15 => Some(("rbxasset://fonts/families/RomanAntique.json"@, FontWeight::Regular, FontStyle::Normal)),
        17 => Some(("rbxasset://fonts/families/GothamSSm.json"@, FontWeight::Regular, FontStyle::Normal)),
        18 => Some(("rbxasset://fonts/families/GothamSSm.json"@, FontWeight::Medium, FontStyle::Normal)),
        19 => Some(("rbxasset://fonts/families/GothamSSm.json"@, FontWeight::Bold, FontStyle::Normal)),
        20 => Some(("rbxasset://fonts/families/GothamSSm.json"@, FontWeight::Heavy, FontStyle::Normal)),
        21 => Some(("rbxasset://fonts/families/AmaticSC.json"@, FontWeight::Regular, FontStyle::Normal)),
        22 => Some(("rbxasset://fonts/families/Bangers.json"@, FontWeight::Regular, FontStyle::Normal)),
        23 => Some(("rbxasset://fonts/families/Creepster.json"@, FontWeight::Regular, FontStyle::Normal)),
        24 => Some(("rbxasset://fonts/families/DenkOne.json"@, FontWeight::Regular, FontStyle::Normal)),
        25 => Some(("rbxasset://fonts/families/Fondamento.json"@, FontWeight::Regular, FontStyle::Normal)),
        26 => Some(("rbxasset://fonts/families/FredokaOne.json"@, FontWeight::Regular, FontStyle::Normal)),
        27 => Some(("rbxasset://fonts/families/GrenzeGotisch.json"@, FontWeight::Regular, FontStyle::Normal)),
        28 => Some(("rbxasset://fonts/families/IndieFlower.json"@, FontWeight::Regular, FontStyle::Normal)),
        29 => Some(("rbxasset://fonts/families/JosefinSans.json"@, FontWeight::Regular, FontStyle::Normal)),
        30 => Some(("rbxasset://fonts/families/Jura.json"@, FontWeight::Regular, FontStyle::Normal)),
        31 => Some(("rbxasset://fonts/families/Kalam.json"@, FontWeight::Regular, FontStyle::Normal)),
        32 => Some(("rbxasset://fonts/families/LuckiestGuy.json"@, FontWeight::Regular, FontStyle::Normal)),
        33 => Some(("rbxasset://fonts/families/Merriweather.json"@, FontWeight::Regular, FontStyle::Normal)),
        34 => Some(("rbxasset://fonts/families/Michroma.json"@, FontWeight::Regular, FontStyle::Normal)),
        35 => Some(("rbxasset://fonts/families/Nunito.json"@, FontWeight::Regular, FontStyle::Normal)),
        36 => Some(("rbxasset://fonts/families/Oswald.json"@, FontWeight::Regular, FontStyle::Normal)),
        37 => Some(("rbxasset://fonts/families/PatrickHand.json"@, FontWeight::Regular, FontStyle::Normal)),
        38 => Some(("rbxasset://fonts/families/PermanentMarker.json"@, FontWeight::Regular, FontStyle::Normal)),
        39 => Some(("rbxasset://fonts/families/Roboto.json"@, FontWeight::Regular, FontStyle::Normal)),
        40 => Some(("rbxasset://fonts/families/RobotoCondensed.json"@, FontWeight::Regular, FontStyle::Normal)),
        41 => Some(("rbxasset://fonts/families/RobotoMono.json"@, FontWeight::Regular, FontStyle::Normal)),
        42 => Some(("rbxasset://fonts/families/Sarpanch.json"@, FontWeight::Regular, FontStyle::Normal)),
        43 => Some(("rbxasset://fonts/families/SpecialElite.json"@, FontWeight::Regular, FontStyle::Normal)),
        44 => Some(("rbxasset://fonts/families/TitilliumWeb.json"@, FontWeight::Regular, FontStyle::Normal)),
        45 => Some(("rbxasset://fonts/families/Ubuntu.json"@, FontWeight::Regular, FontStyle::Normal)),
        _ => None,
    }
}

impl Font {
    pub fn new(family: &str, weight: FontWeight, style: FontStyle) -> (r: Self)
        ensures
            r.family@ == family@,
            r.weight == weight,
            r.style == style,
            r.cached_face_id.is_none(),
    {
        Font { family: family.to_owned(), weight, style, cached_face_id: None }
    }

    pub fn regular(family: &str) -> (r: Self)
        ensures
            r.family@ == family@,
            r.weight == FontWeight::Regular,
            r.style == FontStyle::Normal,
            r.cached_face_id.is_none(),
    {
        let d = Font::default();
        Font { family: family.to_owned(), ..d }
    }

    pub fn from_font_enum(value: u32) -> (r: Option<Font>)
        ensures
            match font_enum_face(value) {
                None => r.is_none(),
                Some((family, weight, style)) => {
                    &&& r is Some
                    &&& r->0.family@ == family
                    &&& r->0.weight == weight
                    &&& r->0.style == style
                    &&& r->0.cached_face_id.is_none()
                },
            },
    {
        let font = match value {
            0 => Font::regular("rbxasset://fonts/families/LegacyArial.json"),
            1 => Font::regular("rbxasset://fonts/families/Arial.json"),
            2 => Font::new("rbxasset://fonts/families/Arial.json", FontWeight::Bold, FontStyle::Normal),
            3 => Font::regular("rbxasset://fonts/families/SourceSansPro.json"),
            4 => Font::new("rbxasset://fonts/families/SourceSansPro.json", FontWeight::Bold, FontStyle::Normal),
            16 => Font::new("rbxasset://fonts/families/SourceSansPro.json", FontWeight::SemiBold, FontStyle::Normal),
            5 => Font::new("rbxasset://fonts/families/SourceSansPro.json", FontWeight::Light, FontStyle::Normal),
            6 => Font::new("rbxasset://fonts/families/SourceSansPro.json", FontWeight::Regular, FontStyle::Italic),
            7 => Font::regular("rbxasset://fonts/families/AccanthisADFStd.json"),
            8 => Font::regular("rbxasset://fonts/families/Guru.json"),
            9 => Font::regular("rbxasset://fonts/families/ComicNeueAngular.json"),
            10 => Font::regular("rbxasset://fonts/families/Inconsolata.json"),
            11 => Font::regular("rbxasset://fonts/families/HighwayGothic.json"),
            12 => Font::regular("rbxasset://fonts/families/Zekton.json"),
            13 => Font::regular("rbxasset://fonts/families/PressStart2P.json"),
            14 => Font::regular("rbxasset://fonts/families/Balthazar.json"),
            15 => Font::regular("rbxasset://fonts/families/RomanAntique.json"),
            17 => Font::regular("rbxasset://fonts/families/GothamSSm.json"),
            18 => Font::new("rbxasset://fonts/families/GothamSSm.json", FontWeight::Medium, FontStyle::Normal),
            19 => Font::new("rbxasset://fonts/families/GothamSSm.json", FontWeight::Bold, FontStyle::Normal),
            20 => Font::new("rbxasset://fonts/families/GothamSSm.json", FontWeight::Heavy, FontStyle::Normal),
            21 => Font::regular("rbxasset://fonts/families/AmaticSC.json"),
            22 => Font::regular("rbxasset://fonts/families/Bangers.json"),
            23 => Font::regular("rbxasset://fonts/families/Creepster.json"),
            24 => Font::regular("rbxasset://fonts/families/DenkOne.json"),
            25 => Font::regular("rbxasset://fonts/families/Fondamento.json"),
            26 => Font::regular("rbxasset://fonts/families/FredokaOne.json"),
            27 => Font::regular("rbxasset://fonts/families/GrenzeGotisch.json"),
            28 => Font::regular("rbxasset://fonts/families/IndieFlower.json"),
            29 => Font::regular("rbxasset://fonts/families/JosefinSans.json"),
            30 => Font::regular("rbxasset://fonts/families/Jura.json"),
            31 => Font::regular("rbxasset://fonts/families/Kalam.json"),
            32 => Font::regular("rbxasset://fonts/families/LuckiestGuy.json"),
            33 => Font::regular("rbxasset://fonts/families/Merriweather.json"),
            34 => Font::regular("rbxasset://fonts/families/Michroma.json"),
            35 => Font::regular("rbxasset://fonts/families/Nunito.json"),
            36 => Font::regular("rbxasset://fonts/families/Oswald.json"),
            37 => Font::regular("rbxasset://fonts/families/PatrickHand.json"),
            38 => Font::regular("rbxasset://fonts/families/PermanentMarker.json"),
            39 => Font::regular("rbxasset://fonts/families/Roboto.json"),
            40 => Font::regular("rbxasset://fonts/families/RobotoCondensed.json"),
            41 => Font::regular("rbxasset://fonts/families/RobotoMono.json"),
            42 => Font::regular("rbxasset://fonts/families/Sarpanch.json"),
            43 => Font::regular("rbxasset://fonts/families/SpecialElite.json"),
            44 => Font::regular("rbxasset://fonts/families/TitilliumWeb.json"),
            45 => Font::regular("rbxasset://fonts/families/Ubuntu.json"),
            _ => return None,
        };
        Some(font)
    }
}

} // verus!
