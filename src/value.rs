//! Property kinds, property values and the text form of leaf values.
use vstd::prelude::*;

verus! {

/// Two strings hold the same text.
pub fn same_text(a: &str, b: &str) -> (r: bool)
    ensures
        r == (a@ == b@),
{
    a.to_owned() == b.to_owned()
}

/// A property kind: the declared type of a property in the schema, and the
/// runtime kind of a property value.
#[derive(Debug, Copy, Clone, PartialEq, Eq, Structural, Hash)]
pub enum PropertyKind {
    Text,
    Bool,
    UniqueId,
    Ref,
}

/// A unique identifier made of an index, a timestamp and a random part.
#[derive(Debug, Copy, Clone, PartialEq, Eq, Structural, Hash)]
pub struct UniqueId {
    pub index: u32,
    pub time: u32,
    pub random: i64,
}

/// A property value. A reference holds the arena index of the instance it
/// points to.
#[derive(Debug, Clone)]
pub enum PropertyValue {
    Text(String),
    Bool(bool),
    UniqueId(UniqueId),
    Ref(usize),
}

/// The mathematical form of a property value.
pub enum ValueView {
    Text(Seq<char>),
    Bool(bool),
    UniqueId(UniqueId),
    Ref(int),
}

impl View for PropertyValue {
    type V = ValueView;

    open spec fn view(&self) -> ValueView {
        match self {
            PropertyValue::Text(s) => ValueView::Text(s@),
            PropertyValue::Bool(b) => ValueView::Bool(*b),
            PropertyValue::UniqueId(u) => ValueView::UniqueId(*u),
            PropertyValue::Ref(i) => ValueView::Ref(*i as int),
        }
    }
}

impl PartialEq for PropertyValue {
    fn eq(&self, o: &PropertyValue) -> (r: bool) {
        match (self, o) {
            (PropertyValue::Text(a), PropertyValue::Text(b)) => *a == *b,
            (PropertyValue::Bool(a), PropertyValue::Bool(b)) => *a == *b,
            (PropertyValue::UniqueId(a), PropertyValue::UniqueId(b)) => *a == *b,
            (PropertyValue::Ref(a), PropertyValue::Ref(b)) => *a == *b,
            _ => false,
        }
    }
}

impl vstd::std_specs::cmp::PartialEqSpecImpl for PropertyValue {
    open spec fn obeys_eq_spec() -> bool {
        true
    }

    open spec fn eq_spec(&self, o: &PropertyValue) -> bool {
        self@ == o@
    }
}

impl Eq for PropertyValue {

}

/// The kind of a value.
pub open spec fn kind_of(v: ValueView) -> PropertyKind {
    match v {
        ValueView::Text(_) => PropertyKind::Text,
        ValueView::Bool(_) => PropertyKind::Bool,
        ValueView::UniqueId(_) => PropertyKind::UniqueId,
        ValueView::Ref(_) => PropertyKind::Ref,
    }
}

impl PropertyValue {
    pub fn kind(&self) -> (r: PropertyKind)
        ensures
            r == kind_of(self@),
    {
        match self {
            PropertyValue::Text(_) => PropertyKind::Text,
            PropertyValue::Bool(_) => PropertyKind::Bool,
            PropertyValue::UniqueId(_) => PropertyKind::UniqueId,
            PropertyValue::Ref(_) => PropertyKind::Ref,
        }
    }
}

/// The wire tag of the document element that holds a property of each kind.
pub open spec fn kind_tag(k: PropertyKind) -> Seq<char> {
    match k {
        PropertyKind::Text => "string"@,
        PropertyKind::Bool => "bool"@,
        PropertyKind::UniqueId => "UniqueId"@,
        PropertyKind::Ref => "Ref"@,
    }
}

/// The kind registered under a wire tag, if any.
pub open spec fn tag_kind(tag: Seq<char>) -> Option<PropertyKind> {
    if tag == "string"@ {
        Some(PropertyKind::Text)
    } else if tag == "bool"@ {
        Some(PropertyKind::Bool)
    } else if tag == "UniqueId"@ {
        Some(PropertyKind::UniqueId)
    } else if tag == "Ref"@ {
        Some(PropertyKind::Ref)
    } else {
        None
    }
}

pub fn tag_of_kind(k: PropertyKind) -> (r: &'static str)
    ensures
        r@ == kind_tag(k),
{
    match k {
        PropertyKind::Text => "string",
        PropertyKind::Bool => "bool",
        PropertyKind::UniqueId => "UniqueId",
        PropertyKind::Ref => "Ref",
    }
}

/// Looks a wire tag up in the registry of codecs.
pub fn kind_of_tag(tag: &str) -> (r: Option<PropertyKind>)
    ensures
        r == tag_kind(tag@),
{
    if same_text(tag, "string") {
        Some(PropertyKind::Text)
    } else if same_text(tag, "bool") {
        Some(PropertyKind::Bool)
    } else if same_text(tag, "UniqueId") {
        Some(PropertyKind::UniqueId)
    } else if same_text(tag, "Ref") {
        Some(PropertyKind::Ref)
    } else {
        None
    }
}

/// Every kind is found again under its own wire tag.
pub proof fn lemma_tag_round_trip(k: PropertyKind)
    ensures
        tag_kind(kind_tag(k)) == Some(k),
{
    reveal_strlit("string");
    reveal_strlit("bool");
    reveal_strlit("UniqueId");
    reveal_strlit("Ref");
    assert("string"@.len() == 6 && "bool"@.len() == 4);
    assert("UniqueId"@.len() == 8 && "Ref"@.len() == 3);
}

/// The text form of a boolean.
pub open spec fn bool_text(b: bool) -> Seq<char> {
    if b {
        "true"@
    } else {
        "false"@
    }
}

/// The boolean that a text stands for, if any.
pub open spec fn parse_bool(s: Seq<char>) -> Option<bool> {
    if s == "true"@ {
        Some(true)
    } else if s == "false"@ {
        Some(false)
    } else {
        None
    }
}

pub fn bool_to_text(b: bool) -> (r: &'static str)
    ensures
        r@ == bool_text(b),
{
    if b {
        "true"
    } else {
        "false"
    }
}

pub fn bool_from_text(s: &str) -> (r: Option<bool>)
    ensures
        r == parse_bool(s@),
{
    if same_text(s, "true") {
        Some(true)
    } else if same_text(s, "false") {
        Some(false)
    } else {
        None
    }
}

/// Every boolean is read back from its text.
pub proof fn lemma_bool_text_round_trip(b: bool)
    ensures
        parse_bool(bool_text(b)) == Some(b),
{
    reveal_strlit("true");
    reveal_strlit("false");
    assert("true"@.len() != "false"@.len());
}

/// The text that the outside `UniqueId` type displays for the given parts.
pub uninterp spec fn unique_id_text(id: UniqueId) -> Seq<char>;

/// What the outside `UniqueId` type parses from a text: its parts, or the
/// message of the error it reports.
pub uninterp spec fn unique_id_parse(s: Seq<char>) -> Result<UniqueId, Seq<char>>;

/// The message given for a text that holds a character outside ASCII, which
/// is never a hexadecimal digit.
pub open spec fn non_ascii_message() -> Seq<char> {
    "expected hexadecimal digits, found a character outside ASCII"@
}

/// What a text reads as: the outside parse of an ASCII text, and an error
/// for any other.
pub open spec fn unique_id_read(s: Seq<char>) -> Result<UniqueId, Seq<char>> {
    if vstd::utf8::is_ascii_chars(s) {
        unique_id_parse(s)
    } else {
        Err(non_ascii_message())
    }
}

/// Relies on rbx_types' `Display` for `UniqueId` (reached through
/// rbx_dom_weak::types): the text depends on the three parts alone.
#[verifier::external_body]
fn unique_id_to_text(id: UniqueId) -> (r: String)
    ensures
        r@ == unique_id_text(id),
{
    rbx_dom_weak::types::UniqueId::new(id.index, id.time, id.random).to_string()
}

/// Relies on rbx_types' `FromStr` for `UniqueId` (reached through
/// rbx_dom_weak::types): the outcome, and the message of its error, depend on
/// the text alone. It slices the text at byte offsets, so it is only called on
/// ASCII text, where every offset is a character boundary.
#[verifier::external_body]
fn unique_id_from_text(s: &str) -> (r: Result<UniqueId, String>)
    requires
        vstd::string::is_ascii(s),
    ensures
        match unique_id_parse(s@) {
            Ok(u) => r == Ok::<UniqueId, String>(u),
            Err(m) => r matches Err(e) && e@ == m,
        },
{
    match <rbx_dom_weak::types::UniqueId as std::str::FromStr>::from_str(s) {
        Ok(u) => Ok(UniqueId { index: u.index(), time: u.time(), random: u.random() }),
        Err(e) => Err(e.to_string()),
    }
}

impl UniqueId {
    /// The text form of this identifier.
    pub fn to_text(&self) -> (r: String)
        ensures
            r@ == unique_id_text(*self),
    {
        unique_id_to_text(*self)
    }

    /// Reads an identifier from its text form; on failure, returns the
    /// message of the error.
    pub fn from_text(s: &str) -> (r: Result<UniqueId, String>)
        ensures
            match unique_id_read(s@) {
                Ok(u) => r == Ok::<UniqueId, String>(u),
                Err(m) => r matches Err(e) && e@ == m,
            },
    {
        if !s.is_ascii() {
            return Err("expected hexadecimal digits, found a character outside ASCII".to_owned());
        }
        unique_id_from_text(s)
    }
}

} // verus!
