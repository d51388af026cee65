//! The property codec: decoding property elements against the schema,
//! resolving references between instances, and encoding with default
//! elision.
use vstd::prelude::*;
use crate::schema::{declared_descriptor, declared_kind, ClassDescriptor, ReflectionDatabase};
use crate::value::{
    bool_from_text, bool_text, bool_to_text, kind_of, kind_of_tag, parse_bool, tag_kind, tag_of_kind,
    kind_tag, unique_id_read, unique_id_text, PropertyKind, PropertyValue, UniqueId, ValueView,
};

verus! {

/// The kinds of failure of a decode. A reference to a referent that no
/// instance element of the document carries is no failure: the property is
/// dropped, since its target may live in another document.
#[derive(Debug, Clone)]
pub enum DecodeErrorKind {
    /// A structural violation: an instance whose parent does not come before
    /// it, or a referent used by two instances.
    MalformedDocument,
    /// A property element whose tag no codec is registered under.
    UnknownPropertyType,
    /// A property whose text does not parse as its kind, or whose kind
    /// disagrees with the kind the schema declares: the wire tag of the
    /// property's type, and what went wrong.
    InvalidPropertyData { property_type: String, error: String },
}

/// The mathematical form of a decode failure.
pub enum ErrorView {
    MalformedDocument,
    UnknownPropertyType,
    InvalidPropertyData(Seq<char>, Seq<char>),
}

impl View for DecodeErrorKind {
    type V = ErrorView;

    open spec fn view(&self) -> ErrorView {
        match self {
            DecodeErrorKind::MalformedDocument => ErrorView::MalformedDocument,
            DecodeErrorKind::UnknownPropertyType => ErrorView::UnknownPropertyType,
            DecodeErrorKind::InvalidPropertyData { property_type, error } => ErrorView::InvalidPropertyData(
                property_type@,
                error@,
            ),
        }
    }
}

impl PartialEq for DecodeErrorKind {
    fn eq(&self, o: &DecodeErrorKind) -> (r: bool) {
        match (self, o) {
            (DecodeErrorKind::MalformedDocument, DecodeErrorKind::MalformedDocument) => true,
            (DecodeErrorKind::UnknownPropertyType, DecodeErrorKind::UnknownPropertyType) => true,
            (
                DecodeErrorKind::InvalidPropertyData { property_type: t1, error: e1 },
                DecodeErrorKind::InvalidPropertyData { property_type: t2, error: e2 },
            ) => *t1 == *t2 && *e1 == *e2,
            _ => false,
        }
    }
}

impl vstd::std_specs::cmp::PartialEqSpecImpl for DecodeErrorKind {
    open spec fn obeys_eq_spec() -> bool {
        true
    }

    open spec fn eq_spec(&self, o: &DecodeErrorKind) -> bool {
        self@ == o@
    }
}

impl Eq for DecodeErrorKind {

}

/// A decode failure, with the index of the instance element it arose in.
#[derive(Debug, Clone)]
pub struct DecodeError {
    pub kind: DecodeErrorKind,
    pub instance: usize,
}

impl PartialEq for DecodeError {
    fn eq(&self, o: &DecodeError) -> (r: bool) {
        self.kind == o.kind && self.instance == o.instance
    }
}

impl vstd::std_specs::cmp::PartialEqSpecImpl for DecodeError {
    open spec fn obeys_eq_spec() -> bool {
        true
    }

    open spec fn eq_spec(&self, o: &DecodeError) -> bool {
        self.kind@ == o.kind@ && self.instance == o.instance
    }
}

impl Eq for DecodeError {

}

/// The message for a property whose element names another type than the
/// one its class declares.
pub open spec fn mismatch_message() -> Seq<char> {
    "the element's type differs from the type the schema declares"@
}

/// The message for a boolean text other than `true` or `false`.
pub open spec fn bool_message() -> Seq<char> {
    "expected true or false"@
}

/// A property element: its wire tag, its name and its text.
#[derive(Debug, Clone)]
pub struct RawProperty {
    pub tag: String,
    pub name: String,
    pub text: String,
}

/// An instance element: its class and referent attributes, the index of its
/// parent element (`None` for a root) and its property elements. A document
/// lists its instance elements in document order.
#[derive(Debug, Clone)]
pub struct RawInstance {
    pub class_name: String,
    pub referent: String,
    pub parent: Option<usize>,
    pub properties: Vec<RawProperty>,
}

/// A decoded instance in an arena: its class, its referent, the index of its
/// parent (`None` for a root) and its properties. Children of one parent
/// keep the order of the arena.
#[derive(Debug, Clone)]
pub struct Instance {
    pub class_name: String,
    pub referent: String,
    pub parent: Option<usize>,
    pub properties: Vec<(String, PropertyValue)>,
}

/// The outcome of decoding one property element before references are
/// resolved: a value, or a link to the instance with the given referent.
pub enum Decoded {
    Value(ValueView),
    Link(Seq<char>),
}

/// Decodes one property element of an instance of class `class_name`. The
/// codec is chosen by the element's tag; where the schema declares another
/// kind for the property, the element is refused before its text is read.
pub open spec fn decode_property_spec(classes: Seq<ClassDescriptor>, class_name: Seq<char>, p: RawProperty) -> Result<Decoded, ErrorView> {
    match tag_kind(p.tag@) {
        None => Err(ErrorView::UnknownPropertyType),
        Some(k) => {
            if declared_kind(classes, class_name, p.name@) matches Some(d) && d != k {
                Err(ErrorView::InvalidPropertyData(kind_tag(k), mismatch_message()))
            } else {
                match k {
                    PropertyKind::Text => Ok(Decoded::Value(ValueView::Text(p.text@))),
                    PropertyKind::Bool => match parse_bool(p.text@) {
                        Some(b) => Ok(Decoded::Value(ValueView::Bool(b))),
                        None => Err(ErrorView::InvalidPropertyData(kind_tag(k), bool_message())),
                    },
                    PropertyKind::UniqueId => match unique_id_read(p.text@) {
                        Ok(u) => Ok(Decoded::Value(ValueView::UniqueId(u))),
                        Err(m) => Err(ErrorView::InvalidPropertyData(kind_tag(k), m)),
                    },
                    PropertyKind::Ref => Ok(Decoded::Link(p.text@)),
                }
            }
        },
    }
}

/// The index of the first instance element with referent `t`.
pub open spec fn find_referent_from(raw: Seq<RawInstance>, t: Seq<char>, k: int) -> Option<int>
    decreases raw.len() - k,
{
    if k < 0 || k >= raw.len() {
        None
    } else if raw[k].referent@ == t {
        Some(k)
    } else {
        find_referent_from(raw, t, k + 1)
    }
}

pub open spec fn find_referent(raw: Seq<RawInstance>, t: Seq<char>) -> Option<int> {
    find_referent_from(raw, t, 0)
}

/// The first error among the property elements `ps`, in order.
pub open spec fn properties_error(classes: Seq<ClassDescriptor>, class_name: Seq<char>, ps: Seq<RawProperty>) -> Option<ErrorView>
    decreases ps.len(),
{
    if ps.len() == 0 {
        None
    } else {
        match properties_error(classes, class_name, ps.drop_last()) {
            Some(e) => Some(e),
            None => match decode_property_spec(classes, class_name, ps.last()) {
                Err(e) => Some(e),
                Ok(_) => None,
            },
        }
    }
}

/// The properties decoded from `ps`, in order, with each link resolved to
/// the instance it names; a link to a referent that no instance element of
/// the document carries is dropped.
pub open spec fn decoded_properties(classes: Seq<ClassDescriptor>, raw: Seq<RawInstance>, class_name: Seq<char>, ps: Seq<RawProperty>) -> Seq<(Seq<char>, ValueView)>
    decreases ps.len(),
{
    if ps.len() == 0 {
        seq![]
    } else {
        let prev = decoded_properties(classes, raw, class_name, ps.drop_last());
        let p = ps.last();
        match decode_property_spec(classes, class_name, p) {
            Ok(Decoded::Value(v)) => prev.push((p.name@, v)),
            Ok(Decoded::Link(t)) => match find_referent(raw, t) {
                Some(j) => prev.push((p.name@, ValueView::Ref(j))),
                None => prev,
            },
            Err(_) => prev,
        }
    }
}

/// The error of instance element `i`, if any: a parent that does not come
/// before it, a referent that an earlier element carries, or else the first
/// error among its properties.
pub open spec fn instance_error(classes: Seq<ClassDescriptor>, raw: Seq<RawInstance>, i: int) -> Option<ErrorView> {
    if raw[i].parent matches Some(p) && p >= i {
        Some(ErrorView::MalformedDocument)
    } else if find_referent(raw, raw[i].referent@) != Some(i) {
        Some(ErrorView::MalformedDocument)
    } else {
        properties_error(classes, raw[i].class_name@, raw[i].properties@)
    }
}

/// The first error of the instance elements before `n`, with the index of
/// the element it arose in.
pub open spec fn document_error_upto(classes: Seq<ClassDescriptor>, raw: Seq<RawInstance>, n: int) -> Option<(ErrorView, int)>
    decreases n,
{
    if n <= 0 {
        None
    } else {
        match document_error_upto(classes, raw, n - 1) {
            Some(e) => Some(e),
            None => match instance_error(classes, raw, n - 1) {
                Some(k) => Some((k, n - 1)),
                None => None,
            },
        }
    }
}

/// The first error of a document, if any.
pub open spec fn document_error(classes: Seq<ClassDescriptor>, raw: Seq<RawInstance>) -> Option<(ErrorView, int)> {
    document_error_upto(classes, raw, raw.len() as int)
}

/// The mathematical form of a list of named properties.
pub open spec fn properties_view(ps: Seq<(String, PropertyValue)>) -> Seq<(Seq<char>, ValueView)> {
    ps.map_values(|p: (String, PropertyValue)| (p.0@, p.1@))
}

/// Decoded instance `d` is what instance element `i` of `raw` decodes to.
pub open spec fn decodes_to(classes: Seq<ClassDescriptor>, raw: Seq<RawInstance>, i: int, d: Instance) -> bool {
    &&& d.class_name@ == raw[i].class_name@
    &&& d.referent@ == raw[i].referent@
    &&& d.parent == raw[i].parent
    &&& properties_view(d.properties@)
        == decoded_properties(classes, raw, raw[i].class_name@, raw[i].properties@)
}

} // verus!

verus! {

/// A property decoded from its element, before its link, if it is one, is
/// resolved.
pub enum PendingValue {
    Value(PropertyValue),
    Link(String),
}

impl View for PendingValue {
    type V = Decoded;

    open spec fn view(&self) -> Decoded {
        match self {
            PendingValue::Value(v) => Decoded::Value(v@),
            PendingValue::Link(t) => Decoded::Link(t@),
        }
    }
}

/// Decodes one property element of an instance of class `class_name`.
pub fn decode_property(db: &ReflectionDatabase, class_name: &str, p: &RawProperty) -> (r: Result<PendingValue, DecodeErrorKind>)
    ensures
        match r {
            Ok(v) => decode_property_spec(db.classes@, class_name@, *p) == Ok::<Decoded, ErrorView>(v@),
            Err(e) => decode_property_spec(db.classes@, class_name@, *p) == Err::<Decoded, ErrorView>(e@),
        },
{
    let k = match kind_of_tag(p.tag.as_str()) {
        Some(k) => k,
        None => return Err(DecodeErrorKind::UnknownPropertyType),
    };
    match db.descriptor_of(class_name, p.name.as_str()) {
        Some((c, j)) => {
            if db.classes[c].properties[j].kind != k {
                return Err(DecodeErrorKind::InvalidPropertyData {
                    property_type: tag_of_kind(k).to_owned(),
                    error: "the element's type differs from the type the schema declares".to_owned(),
                });
            }
        },
        None => {},
    }
    match k {
        PropertyKind::Text => Ok(PendingValue::Value(PropertyValue::Text(p.text.clone()))),
        PropertyKind::Bool => match bool_from_text(p.text.as_str()) {
            Some(b) => Ok(PendingValue::Value(PropertyValue::Bool(b))),
            None => Err(DecodeErrorKind::InvalidPropertyData {
                property_type: tag_of_kind(k).to_owned(),
                error: "expected true or false".to_owned(),
            }),
        },
        PropertyKind::UniqueId => match UniqueId::from_text(p.text.as_str()) {
            Ok(u) => Ok(PendingValue::Value(PropertyValue::UniqueId(u))),
            Err(error) => Err(DecodeErrorKind::InvalidPropertyData { property_type: tag_of_kind(k).to_owned(), error }),
        },
        PropertyKind::Ref => Ok(PendingValue::Link(p.text.clone())),
    }
}

/// Finds the first instance element that carries referent `t`.
pub fn find_referent_index(raw: &Vec<RawInstance>, t: &str) -> (r: Option<usize>)
    ensures
        match find_referent(raw@, t@) {
            Some(i) => r matches Some(q) && q as int == i,
            None => r is None,
        },
{
    let mut i: usize = 0;
    while i < raw.len()
        invariant
            i <= raw@.len(),
            find_referent(raw@, t@) == find_referent_from(raw@, t@, i as int),
        decreases raw@.len() - i,
    {
        if crate::value::same_text(raw[i].referent.as_str(), t) {
            return Some(i);
        }
        i = i + 1;
    }
    None
}

} // verus!

verus! {

/// Once an error has arisen before element `m`, it stays the first error of
/// any longer prefix of the document.
proof fn lemma_document_error_stays(classes: Seq<ClassDescriptor>, raw: Seq<RawInstance>, m: int, n: int)
    requires
        m <= n,
        document_error_upto(classes, raw, m) is Some,
    ensures
        document_error_upto(classes, raw, n) == document_error_upto(classes, raw, m),
    decreases n - m,
{
    if m < n {
        lemma_document_error_stays(classes, raw, m, n - 1);
    }
}

/// Decodes the property elements of instance element `i`, resolving each
/// link against the referents of the whole document.
fn decode_instance_properties(db: &ReflectionDatabase, raw: &Vec<RawInstance>, i: usize) -> (r: Result<Vec<(String, PropertyValue)>, DecodeErrorKind>)
    requires
        i < raw@.len(),
    ensures
        match properties_error(db.classes@, raw@[i as int].class_name@, raw@[i as int].properties@) {
            Some(e) => r matches Err(x) && x@ == e,
            None => r matches Ok(ps) && properties_view(ps@) == decoded_properties(
                db.classes@, raw@, raw@[i as int].class_name@, raw@[i as int].properties@),
        },
{
    let inst = &raw[i];
    let ghost classes = db.classes@;
    let ghost cname = inst.class_name@;
    let ghost ps = inst.properties@;
    let mut out: Vec<(String, PropertyValue)> = Vec::new();
    let mut j: usize = 0;
    while j < inst.properties.len()
        invariant
            j <= ps.len(),
            inst == raw@[i as int],
            ps == inst.properties@,
            cname == inst.class_name@,
            classes == db.classes@,
            properties_error(classes, cname, ps.take(j as int)) is None,
            properties_view(out@) == decoded_properties(classes, raw@, cname, ps.take(j as int)),
        decreases ps.len() - j,
    {
        let p = &inst.properties[j];
        assert(ps.take(j + 1).drop_last() == ps.take(j as int));
        assert(ps.take(j + 1).last() == ps[j as int]);
        let ghost before = out@;
        match decode_property(db, inst.class_name.as_str(), p) {
            Err(e) => {
                proof {
                    lemma_properties_error_stays(classes, cname, ps, j as int + 1);
                }
                return Err(e);
            },
            Ok(PendingValue::Value(v)) => {
                out.push((p.name.clone(), v));
                assert(properties_view(out@) == properties_view(before).push((p.name@, v@)));
            },
            Ok(PendingValue::Link(t)) => {
                match find_referent_index(raw, t.as_str()) {
                    Some(target) => {
                        out.push((p.name.clone(), PropertyValue::Ref(target)));
                        assert(properties_view(out@) == properties_view(before).push(
                            (p.name@, ValueView::Ref(target as int)),
                        ));
                    },
                    None => {},
                }
            },
        }
        j = j + 1;
    }
    assert(ps.take(j as int) == ps);
    Ok(out)
}

/// Once an error has arisen among the first `m` property elements, it stays
/// the first error of the whole list.
proof fn lemma_properties_error_stays(classes: Seq<ClassDescriptor>, cname: Seq<char>, ps: Seq<RawProperty>, m: int)
    requires
        0 <= m <= ps.len(),
        properties_error(classes, cname, ps.take(m)) is Some,
    ensures
        properties_error(classes, cname, ps) == properties_error(classes, cname, ps.take(m)),
    decreases ps.len() - m,
{
    if m < ps.len() {
        assert(ps.take(m + 1).drop_last() == ps.take(m));
        lemma_properties_error_stays(classes, cname, ps, m + 1);
    } else {
        assert(ps.take(m) == ps);
    }
}

/// Decodes a document, given as its instance elements in document order,
/// into an arena of instances: the instance at each index is decoded from
/// the element at that index. The whole decode fails on the first error.
pub fn decode(db: &ReflectionDatabase, raw: &Vec<RawInstance>) -> (r: Result<Vec<Instance>, DecodeError>)
    ensures
        match document_error(db.classes@, raw@) {
            Some((k, i)) => r matches Err(e) && e.kind@ == k && e.instance as int == i,
            None => r matches Ok(insts) && insts@.len() == raw@.len()
                && forall|i: int| 0 <= i < raw@.len() ==> decodes_to(db.classes@, raw@, i, #[trigger] insts@[i]),
        },
{
    let ghost classes = db.classes@;
    let mut out: Vec<Instance> = Vec::new();
    let mut i: usize = 0;
    while i < raw.len()
        invariant
            i <= raw@.len(),
            classes == db.classes@,
            document_error_upto(classes, raw@, i as int) is None,
            out@.len() == i,
            forall|k: int| 0 <= k < i ==> decodes_to(classes, raw@, k, #[trigger] out@[k]),
        decreases raw@.len() - i,
    {
        let inst = &raw[i];
        let bad_parent = match inst.parent {
            Some(p) => p >= i,
            None => false,
        };
        let owner = find_referent_index(raw, inst.referent.as_str());
        let duplicate = match owner {
            Some(q) => q != i,
            None => true,
        };
        if bad_parent || duplicate {
            proof {
                lemma_document_error_stays(classes, raw@, i + 1, raw@.len() as int);
            }
            return Err(DecodeError { kind: DecodeErrorKind::MalformedDocument, instance: i });
        }
        match decode_instance_properties(db, raw, i) {
            Err(kind) => {
                proof {
                    lemma_document_error_stays(classes, raw@, i + 1, raw@.len() as int);
                }
                return Err(DecodeError { kind, instance: i });
            },
            Ok(properties) => {
                out.push(
                    Instance {
                        class_name: inst.class_name.clone(),
                        referent: inst.referent.clone(),
                        parent: inst.parent,
                        properties,
                    },
                );
            },
        }
        i = i + 1;
    }
    Ok(out)
}

} // verus!

verus! {

/// Whether value `v` of property `name` of an instance of class
/// `class_name` is left out on write: the schema gives the property a
/// descriptor that is marked elidable and whose default equals `v`.
pub open spec fn elided(classes: Seq<ClassDescriptor>, class_name: Seq<char>, name: Seq<char>, v: ValueView) -> bool {
    match declared_descriptor(classes, class_name, name) {
        Some((c, j)) => {
            let d = classes[c].properties@[j];
            d.elidable && (d.default matches Some(dv) && dv@ == v)
        },
        None => false,
    }
}

/// The text that holds value `v`; a reference is written as the referent of
/// the instance it points to.
pub open spec fn value_text(v: ValueView, insts: Seq<Instance>) -> Seq<char> {
    match v {
        ValueView::Text(s) => s,
        ValueView::Bool(b) => bool_text(b),
        ValueView::UniqueId(u) => unique_id_text(u),
        ValueView::Ref(i) => insts[i].referent@,
    }
}

/// The mathematical form of a property element: tag, name and text.
pub open spec fn raw_property_view(p: RawProperty) -> (Seq<char>, Seq<char>, Seq<char>) {
    (p.tag@, p.name@, p.text@)
}

pub open spec fn raw_properties_view(ps: Seq<RawProperty>) -> Seq<(Seq<char>, Seq<char>, Seq<char>)> {
    ps.map_values(|p: RawProperty| raw_property_view(p))
}

/// The property elements written for the properties `ps` of an instance of
/// class `class_name`, in order, leaving out the elided ones.
pub open spec fn encoded_properties(classes: Seq<ClassDescriptor>, insts: Seq<Instance>, class_name: Seq<char>, ps: Seq<(Seq<char>, ValueView)>) -> Seq<(Seq<char>, Seq<char>, Seq<char>)>
    decreases ps.len(),
{
    if ps.len() == 0 {
        seq![]
    } else {
        let prev = encoded_properties(classes, insts, class_name, ps.drop_last());
        let (name, v) = ps.last();
        if elided(classes, class_name, name, v) {
            prev
        } else {
            prev.push((kind_tag(kind_of(v)), name, value_text(v, insts)))
        }
    }
}

/// A value that is a reference points to an index below `n`.
pub open spec fn points_into(v: ValueView, n: int) -> bool {
    match v {
        ValueView::Ref(t) => 0 <= t < n,
        _ => true,
    }
}

/// Every reference of the arena points to one of its instances.
pub open spec fn references_in_arena(insts: Seq<Instance>) -> bool {
    forall|i: int, k: int|
        0 <= i < insts.len() && 0 <= k < insts[i].properties@.len()
            ==> points_into((#[trigger] insts[i].properties@[k]).1@, insts.len() as int)
}

/// Instance element `e` is what instance `i` of the arena encodes to.
pub open spec fn encodes_to(classes: Seq<ClassDescriptor>, insts: Seq<Instance>, i: int, e: RawInstance) -> bool {
    &&& e.class_name@ == insts[i].class_name@
    &&& e.referent@ == insts[i].referent@
    &&& e.parent == insts[i].parent
    &&& raw_properties_view(e.properties@)
        == encoded_properties(classes, insts, insts[i].class_name@, properties_view(insts[i].properties@))
}

/// Whether property `name` with value `v` of an instance of class
/// `class_name` is left out on write.
pub fn is_elided(db: &ReflectionDatabase, class_name: &str, name: &str, v: &PropertyValue) -> (r: bool)
    ensures
        r == elided(db.classes@, class_name@, name@, v@),
{
    match db.descriptor_of(class_name, name) {
        Some((c, j)) => {
            let d = &db.classes[c].properties[j];
            if !d.elidable {
                return false;
            }
            match &d.default {
                Some(dv) => *dv == *v,
                None => false,
            }
        },
        None => false,
    }
}

/// The text that holds value `v`, with references written as the referents
/// of the instances of `insts` they point to.
pub fn value_to_text(v: &PropertyValue, insts: &Vec<Instance>) -> (r: String)
    requires
        points_into(v@, insts@.len() as int),
    ensures
        r@ == value_text(v@, insts@),
{
    match v {
        PropertyValue::Text(s) => s.clone(),
        PropertyValue::Bool(b) => bool_to_text(*b).to_owned(),
        PropertyValue::UniqueId(u) => u.to_text(),
        PropertyValue::Ref(t) => insts[*t].referent.clone(),
    }
}

/// Encodes the properties of instance `i` of the arena.
fn encode_instance_properties(db: &ReflectionDatabase, insts: &Vec<Instance>, i: usize) -> (r: Vec<RawProperty>)
    requires
        i < insts@.len(),
        references_in_arena(insts@),
    ensures
        raw_properties_view(r@) == encoded_properties(
            db.classes@, insts@, insts@[i as int].class_name@, properties_view(insts@[i as int].properties@)),
{
    let inst = &insts[i];
    let ghost classes = db.classes@;
    let ghost ps = properties_view(inst.properties@);
    let mut out: Vec<RawProperty> = Vec::new();
    let mut k: usize = 0;
    while k < inst.properties.len()
        invariant
            k <= inst.properties@.len(),
            i < insts@.len(),
            inst == insts@[i as int],
            ps == properties_view(inst.properties@),
            classes == db.classes@,
            references_in_arena(insts@),
            raw_properties_view(out@) == encoded_properties(classes, insts@, inst.class_name@, ps.take(k as int)),
        decreases inst.properties@.len() - k,
    {
        let (name, v) = &inst.properties[k];
        assert(ps.take(k + 1).drop_last() == ps.take(k as int));
        assert(ps.take(k + 1).last() == ps[k as int]);
        assert(inst.properties@[k as int] == insts@[i as int].properties@[k as int]);
        assert(v@ == insts@[i as int].properties@[k as int].1@);
        if !is_elided(db, inst.class_name.as_str(), name.as_str(), v) {
            let ghost before = out@;
            let text = value_to_text(v, insts);
            let tag = tag_of_kind(v.kind()).to_owned();
            out.push(RawProperty { tag, name: name.clone(), text });
            assert(raw_properties_view(out@) == raw_properties_view(before).push(
                (kind_tag(kind_of(v@)), name@, value_text(v@, insts@)),
            ));
        }
        k = k + 1;
    }
    assert(ps.take(k as int) == ps);
    out
}

/// Encodes an arena of instances into instance elements, one for each
/// instance, at the same index.
pub fn encode(db: &ReflectionDatabase, insts: &Vec<Instance>) -> (r: Vec<RawInstance>)
    requires
        references_in_arena(insts@),
    ensures
        r@.len() == insts@.len(),
        forall|i: int| 0 <= i < insts@.len() ==> encodes_to(db.classes@, insts@, i, #[trigger] r@[i]),
{
    let mut out: Vec<RawInstance> = Vec::new();
    let mut i: usize = 0;
    while i < insts.len()
        invariant
            i <= insts@.len(),
            out@.len() == i,
            references_in_arena(insts@),
            forall|k: int| 0 <= k < i ==> encodes_to(db.classes@, insts@, k, #[trigger] out@[k]),
        decreases insts@.len() - i,
    {
        let inst = &insts[i];
        let properties = encode_instance_properties(db, insts, i);
        out.push(
            RawInstance {
                class_name: inst.class_name.clone(),
                referent: inst.referent.clone(),
                parent: inst.parent,
                properties,
            },
        );
        i = i + 1;
    }
    out
}

} // verus!

verus! {

/// A property whose value equals its descriptor's default, where the
/// descriptor is marked elidable, adds no element to the encoded output; a
/// property that is not elided, such as one whose value differs from its
/// descriptor's default, adds exactly its own element.
pub proof fn lemma_default_elision(
    classes: Seq<ClassDescriptor>,
    insts: Seq<Instance>,
    class_name: Seq<char>,
    ps: Seq<(Seq<char>, ValueView)>,
    name: Seq<char>,
    v: ValueView,
)
    ensures
        elided(classes, class_name, name, v) ==> encoded_properties(classes, insts, class_name, ps.push((name, v)))
            == encoded_properties(classes, insts, class_name, ps),
        !elided(classes, class_name, name, v) ==> encoded_properties(classes, insts, class_name, ps.push((name, v)))
            == encoded_properties(classes, insts, class_name, ps).push((kind_tag(kind_of(v)), name, value_text(v, insts))),
        (declared_descriptor(classes, class_name, name) matches Some((c, j))
            && classes[c].properties@[j].default matches Some(dv) && dv@ != v)
            ==> !elided(classes, class_name, name, v),
{
    assert(ps.push((name, v)).drop_last() == ps);
}

/// A property element that links to a referent that no instance element of
/// the document carries is dropped: it adds no property and no error.
pub proof fn lemma_unresolved_reference_dropped(
    classes: Seq<ClassDescriptor>,
    raw: Seq<RawInstance>,
    class_name: Seq<char>,
    ps: Seq<RawProperty>,
    p: RawProperty,
)
    requires
        tag_kind(p.tag@) == Some(PropertyKind::Ref),
        declared_kind(classes, class_name, p.name@) matches Some(d) ==> d == PropertyKind::Ref,
        find_referent(raw, p.text@) is None,
    ensures
        decoded_properties(classes, raw, class_name, ps.push(p)) == decoded_properties(classes, raw, class_name, ps),
        properties_error(classes, class_name, ps.push(p)) == properties_error(classes, class_name, ps),
{
    assert(ps.push(p).drop_last() == ps);
    assert(ps.push(p).last() == p);
}

/// A property element whose decode fails makes the first property error of
/// its instance element exist; where no earlier property fails, it is that
/// element's error.
proof fn lemma_property_error(classes: Seq<ClassDescriptor>, cname: Seq<char>, ps: Seq<RawProperty>, k: int)
    requires
        0 <= k < ps.len(),
        decode_property_spec(classes, cname, ps[k]) is Err,
    ensures
        properties_error(classes, cname, ps) is Some,
        properties_error(classes, cname, ps.take(k)) is None ==> properties_error(classes, cname, ps)
            == Some(decode_property_spec(classes, cname, ps[k])->Err_0),
{
    assert(ps.take(k + 1).drop_last() == ps.take(k));
    assert(ps.take(k + 1).last() == ps[k]);
    lemma_properties_error_stays(classes, cname, ps, k + 1);
}

/// A property element that fails to decode makes the whole document decode
/// fail; where nothing before it fails, its own error is the one reported,
/// at its instance element.
pub proof fn lemma_property_error_fails_document(classes: Seq<ClassDescriptor>, raw: Seq<RawInstance>, i: int, k: int)
    requires
        0 <= i < raw.len(),
        0 <= k < raw[i].properties@.len(),
        decode_property_spec(classes, raw[i].class_name@, raw[i].properties@[k]) is Err,
    ensures
        document_error(classes, raw) is Some,
        (document_error_upto(classes, raw, i) is None && instance_error(classes, raw, i)
            == properties_error(classes, raw[i].class_name@, raw[i].properties@)
            && properties_error(classes, raw[i].class_name@, raw[i].properties@.take(k)) is None)
            ==> document_error(classes, raw) == Some(
                (decode_property_spec(classes, raw[i].class_name@, raw[i].properties@[k])->Err_0, i),
            ),
{
    lemma_property_error(classes, raw[i].class_name@, raw[i].properties@, k);
    assert(document_error_upto(classes, raw, i + 1) is Some);
    lemma_document_error_stays(classes, raw, i + 1, raw.len() as int);
}

/// A property element whose tag no codec is registered under fails the
/// whole document decode; where nothing before it fails, the error is
/// `UnknownPropertyType` at its instance element.
pub proof fn lemma_unknown_tag_fails_document(classes: Seq<ClassDescriptor>, raw: Seq<RawInstance>, i: int, k: int)
    requires
        0 <= i < raw.len(),
        0 <= k < raw[i].properties@.len(),
        tag_kind(raw[i].properties@[k].tag@) is None,
    ensures
        document_error(classes, raw) is Some,
        (document_error_upto(classes, raw, i) is None && instance_error(classes, raw, i)
            == properties_error(classes, raw[i].class_name@, raw[i].properties@)
            && properties_error(classes, raw[i].class_name@, raw[i].properties@.take(k)) is None)
            ==> document_error(classes, raw) == Some((ErrorView::UnknownPropertyType, i)),
{
    lemma_property_error_fails_document(classes, raw, i, k);
}

/// A property element whose tag names another kind than the one its class
/// declares fails with `InvalidPropertyData`, whatever its text; so does the
/// whole document decode, where nothing before it fails.
pub proof fn lemma_schema_mismatch_fails_document(classes: Seq<ClassDescriptor>, raw: Seq<RawInstance>, i: int, k: int)
    requires
        0 <= i < raw.len(),
        0 <= k < raw[i].properties@.len(),
        tag_kind(raw[i].properties@[k].tag@) matches Some(t) && declared_kind(
            classes,
            raw[i].class_name@,
            raw[i].properties@[k].name@,
        ) matches Some(d) && t != d,
    ensures
        decode_property_spec(classes, raw[i].class_name@, raw[i].properties@[k]) == Err::<Decoded, ErrorView>(
            ErrorView::InvalidPropertyData(kind_tag(tag_kind(raw[i].properties@[k].tag@)->0), mismatch_message()),
        ),
        document_error(classes, raw) is Some,
        (document_error_upto(classes, raw, i) is None && instance_error(classes, raw, i)
            == properties_error(classes, raw[i].class_name@, raw[i].properties@)
            && properties_error(classes, raw[i].class_name@, raw[i].properties@.take(k)) is None)
            ==> document_error(classes, raw) == Some(
                (ErrorView::InvalidPropertyData(kind_tag(tag_kind(raw[i].properties@[k].tag@)->0), mismatch_message()), i),
            ),
{
    lemma_property_error_fails_document(classes, raw, i, k);
}

} // verus!

verus! {

/// An arena that survives an encode and a decode unchanged: parents come
/// before their children, referents are distinct, every reference points into
/// the arena, and every property is written (not elided), has the kind its
/// class declares for it, if any, and is not a unique identifier (whose text
/// form the outside type alone reads and writes).
pub open spec fn round_trippable(classes: Seq<ClassDescriptor>, insts: Seq<Instance>) -> bool {
    &&& references_in_arena(insts)
    &&& forall|i: int| 0 <= i < insts.len() ==> match (#[trigger] insts[i]).parent {
        Some(p) => p < i,
        None => true,
    }
    &&& forall|i: int, j: int| 0 <= i < insts.len() && 0 <= j < insts.len() && i != j
        ==> (#[trigger] insts[i]).referent@ != (#[trigger] insts[j]).referent@
    &&& forall|i: int, k: int| 0 <= i < insts.len() && 0 <= k < insts[i].properties@.len()
        ==> property_round_trippable(classes, insts[i].class_name@, #[trigger] insts[i].properties@[k])
}

/// One property that is written, has the kind its class declares for it, if
/// any, and is not a unique identifier.
pub open spec fn property_round_trippable(classes: Seq<ClassDescriptor>, class_name: Seq<char>, p: (String, PropertyValue)) -> bool {
    &&& !(p.1@ is UniqueId)
    &&& !elided(classes, class_name, p.0@, p.1@)
    &&& match declared_kind(classes, class_name, p.0@) {
        Some(d) => d == kind_of(p.1@),
        None => true,
    }
}

proof fn lemma_find_referent_unique(raw: Seq<RawInstance>, t: int, k: int)
    requires
        0 <= k <= t < raw.len(),
        forall|j: int| 0 <= j < raw.len() && j != t ==> (#[trigger] raw[j]).referent@ != raw[t].referent@,
    ensures
        find_referent_from(raw, raw[t].referent@, k) == Some(t),
    decreases t - k,
{
    if k < t {
        lemma_find_referent_unique(raw, t, k + 1);
    }
}

proof fn lemma_properties_round_trip(
    classes: Seq<ClassDescriptor>,
    insts: Seq<Instance>,
    raw: Seq<RawInstance>,
    class_name: Seq<char>,
    ps: Seq<(String, PropertyValue)>,
    rp: Seq<RawProperty>,
)
    requires
        raw.len() == insts.len(),
        forall|t: int| 0 <= t < insts.len() ==> #[trigger] raw[t].referent@ == insts[t].referent@,
        forall|i: int, j: int| 0 <= i < insts.len() && 0 <= j < insts.len() && i != j
            ==> (#[trigger] insts[i]).referent@ != (#[trigger] insts[j]).referent@,
        forall|k: int| 0 <= k < ps.len() ==> points_into((#[trigger] ps[k]).1@, insts.len() as int)
            && property_round_trippable(classes, class_name, ps[k]),
        raw_properties_view(rp) == encoded_properties(classes, insts, class_name, properties_view(ps)),
    ensures
        properties_error(classes, class_name, rp) is None,
        decoded_properties(classes, raw, class_name, rp) == properties_view(ps),
    decreases ps.len(),
{
    if ps.len() > 0 {
        let pv = properties_view(ps);
        let last = ps.last();
        assert(pv.drop_last() == properties_view(ps.drop_last()));
        assert(pv.last() == (last.0@, last.1@));
        assert(ps.last() == ps[ps.len() - 1]);
        let enc = encoded_properties(classes, insts, class_name, pv);
        assert(enc == encoded_properties(classes, insts, class_name, pv.drop_last()).push(
            (kind_tag(kind_of(last.1@)), last.0@, value_text(last.1@, insts)),
        ));
        assert(rp.len() == enc.len());
        assert(raw_properties_view(rp.drop_last()) == raw_properties_view(rp).drop_last());
        assert(enc.drop_last() == encoded_properties(classes, insts, class_name, pv.drop_last()));
        lemma_properties_round_trip(classes, insts, raw, class_name, ps.drop_last(), rp.drop_last());
        let p = rp.last();
        assert(raw_property_view(p) == raw_properties_view(rp)[rp.len() - 1]);
        crate::value::lemma_tag_round_trip(kind_of(last.1@));
        match last.1@ {
            ValueView::Bool(b) => {
                crate::value::lemma_bool_text_round_trip(b);
            },
            ValueView::Ref(t) => {
                assert(raw[t].referent@ == insts[t].referent@);
                assert forall|j: int| 0 <= j < raw.len() && j != t implies (#[trigger] raw[j]).referent@
                    != raw[t].referent@ by {
                    assert(raw[j].referent@ == insts[j].referent@);
                }
                lemma_find_referent_unique(raw, t, 0);
            },
            _ => {},
        }
        assert(properties_view(ps) == properties_view(ps.drop_last()).push((last.0@, last.1@)));
    } else {
        assert(raw_properties_view(rp).len() == 0);
        assert(properties_view(ps) == Seq::<(Seq<char>, ValueView)>::empty());
    }
}

/// Decoding the encoding of an arena gives the arena back: every instance
/// element decodes, without error, to the instance it was written from.
pub proof fn lemma_round_trip(classes: Seq<ClassDescriptor>, insts: Seq<Instance>, raw: Seq<RawInstance>)
    requires
        round_trippable(classes, insts),
        raw.len() == insts.len(),
        forall|i: int| 0 <= i < insts.len() ==> encodes_to(classes, insts, i, #[trigger] raw[i]),
    ensures
        document_error(classes, raw) is None,
        forall|i: int| 0 <= i < raw.len() ==> decodes_to(classes, raw, i, #[trigger] insts[i]),
{
    assert forall|t: int| 0 <= t < insts.len() implies #[trigger] raw[t].referent@ == insts[t].referent@ by {
        assert(encodes_to(classes, insts, t, raw[t]));
    }
    assert forall|i: int| 0 <= i < raw.len() implies decodes_to(classes, raw, i, #[trigger] insts[i])
        && instance_error(classes, raw, i) is None by {
        assert(encodes_to(classes, insts, i, raw[i]));
        let ps = insts[i].properties@;
        assert forall|k: int| 0 <= k < ps.len() implies points_into((#[trigger] ps[k]).1@, insts.len() as int)
            && property_round_trippable(classes, insts[i].class_name@, ps[k]) by {
            assert(ps[k] == insts[i].properties@[k]);
        }
        lemma_properties_round_trip(classes, insts, raw, insts[i].class_name@, ps, raw[i].properties@);
        assert forall|j: int| 0 <= j < raw.len() && j != i implies (#[trigger] raw[j]).referent@
            != raw[i].referent@ by {
            assert(raw[j].referent@ == insts[j].referent@);
        }
        lemma_find_referent_unique(raw, i, 0);
    }
    lemma_no_document_error(classes, raw, raw.len() as int);
}

proof fn lemma_no_document_error(classes: Seq<ClassDescriptor>, raw: Seq<RawInstance>, n: int)
    requires
        n <= raw.len(),
        forall|i: int| 0 <= i < raw.len() ==> instance_error(classes, raw, i) is None,
    ensures
        document_error_upto(classes, raw, n) is None,
    decreases n,
{
    if n > 0 {
        lemma_no_document_error(classes, raw, n - 1);
    }
}

} // verus!

verus! {

/// The text form of an instance element: class, referent, parent and
/// property elements.
pub open spec fn raw_instance_view(e: RawInstance) -> (Seq<char>, Seq<char>, Option<usize>, Seq<(Seq<char>, Seq<char>, Seq<char>)>) {
    (e.class_name@, e.referent@, e.parent, raw_properties_view(e.properties@))
}

/// Two encodings of one arena with one schema hold the same text, element for
/// element.
pub proof fn lemma_encode_deterministic(classes: Seq<ClassDescriptor>, insts: Seq<Instance>, first: Seq<RawInstance>, second: Seq<RawInstance>)
    requires
        first.len() == insts.len(),
        second.len() == insts.len(),
        forall|i: int| 0 <= i < insts.len() ==> encodes_to(classes, insts, i, #[trigger] first[i]),
        forall|i: int| 0 <= i < insts.len() ==> encodes_to(classes, insts, i, #[trigger] second[i]),
    ensures
        first.map_values(|e: RawInstance| raw_instance_view(e)) == second.map_values(|e: RawInstance| raw_instance_view(e)),
{
    assert forall|i: int| 0 <= i < insts.len() implies raw_instance_view(#[trigger] first[i]) == raw_instance_view(second[i]) by {
        assert(encodes_to(classes, insts, i, first[i]));
        assert(encodes_to(classes, insts, i, second[i]));
    }
    assert(first.map_values(|e: RawInstance| raw_instance_view(e)) =~= second.map_values(|e: RawInstance| raw_instance_view(e)));
}

} // verus!

verus! {

proof fn lemma_encoded_concat(
    classes: Seq<ClassDescriptor>,
    insts: Seq<Instance>,
    cname: Seq<char>,
    a: Seq<(Seq<char>, ValueView)>,
    b: Seq<(Seq<char>, ValueView)>,
)
    ensures
        encoded_properties(classes, insts, cname, a + b)
            == encoded_properties(classes, insts, cname, a) + encoded_properties(classes, insts, cname, b),
    decreases b.len(),
{
    if b.len() == 0 {
        assert(a + b == a);
        assert(encoded_properties(classes, insts, cname, a) + Seq::empty() == encoded_properties(classes, insts, cname, a));
    } else {
        assert((a + b).drop_last() == a + b.drop_last());
        assert((a + b).last() == b.last());
        lemma_encoded_concat(classes, insts, cname, a, b.drop_last());
        let ea = encoded_properties(classes, insts, cname, a);
        let eb = encoded_properties(classes, insts, cname, b.drop_last());
        let (name, v) = b.last();
        let item = (kind_tag(kind_of(v)), name, value_text(v, insts));
        assert((ea + eb).push(item) == ea + eb.push(item));
    }
}

/// Wherever a property stands in an instance's list, it adds no element to
/// the encoded output where it is elided, such as where it equals its
/// elidable descriptor's default, and exactly its own element, in its place,
/// where it is not, such as where it differs from its descriptor's default.
pub proof fn lemma_default_elision_anywhere(
    classes: Seq<ClassDescriptor>,
    insts: Seq<Instance>,
    class_name: Seq<char>,
    before: Seq<(Seq<char>, ValueView)>,
    after: Seq<(Seq<char>, ValueView)>,
    name: Seq<char>,
    v: ValueView,
)
    ensures
        elided(classes, class_name, name, v) ==> encoded_properties(classes, insts, class_name, before + seq![(name, v)] + after)
            == encoded_properties(classes, insts, class_name, before) + encoded_properties(classes, insts, class_name, after),
        !elided(classes, class_name, name, v) ==> encoded_properties(classes, insts, class_name, before + seq![(name, v)] + after)
            == encoded_properties(classes, insts, class_name, before) + seq![(kind_tag(kind_of(v)), name, value_text(v, insts))]
                + encoded_properties(classes, insts, class_name, after),
{
    lemma_encoded_concat(classes, insts, class_name, before + seq![(name, v)], after);
    lemma_encoded_concat(classes, insts, class_name, before, seq![(name, v)]);
    let one = seq![(name, v)];
    assert(one.drop_last() == Seq::<(Seq<char>, ValueView)>::empty());
    assert(one.last() == (name, v));
    let empty = encoded_properties(classes, insts, class_name, Seq::<(Seq<char>, ValueView)>::empty());
    assert(empty == Seq::<(Seq<char>, Seq<char>, Seq<char>)>::empty());
    let ea = encoded_properties(classes, insts, class_name, before);
    assert(ea + Seq::<(Seq<char>, Seq<char>, Seq<char>)>::empty() == ea);
}

proof fn lemma_decoded_concat(
    classes: Seq<ClassDescriptor>,
    raw: Seq<RawInstance>,
    cname: Seq<char>,
    a: Seq<RawProperty>,
    b: Seq<RawProperty>,
)
    ensures
        decoded_properties(classes, raw, cname, a + b)
            == decoded_properties(classes, raw, cname, a) + decoded_properties(classes, raw, cname, b),
        properties_error(classes, cname, a + b) == match properties_error(classes, cname, a) {
            Some(e) => Some(e),
            None => properties_error(classes, cname, b),
        },
    decreases b.len(),
{
    if b.len() == 0 {
        assert(a + b == a);
        assert(decoded_properties(classes, raw, cname, a) + Seq::empty() == decoded_properties(classes, raw, cname, a));
    } else {
        assert((a + b).drop_last() == a + b.drop_last());
        assert((a + b).last() == b.last());
        lemma_decoded_concat(classes, raw, cname, a, b.drop_last());
        let da = decoded_properties(classes, raw, cname, a);
        let db = decoded_properties(classes, raw, cname, b.drop_last());
        assert(forall|x: (Seq<char>, ValueView)| (da + db).push(x) == da + db.push(x));
    }
}

/// Wherever it stands in an instance's list, a property element that links
/// to a referent that no instance element of the document carries is
/// dropped: the list decodes, and fails, as it would without it.
pub proof fn lemma_unresolved_reference_dropped_anywhere(
    classes: Seq<ClassDescriptor>,
    raw: Seq<RawInstance>,
    class_name: Seq<char>,
    before: Seq<RawProperty>,
    after: Seq<RawProperty>,
    p: RawProperty,
)
    requires
        tag_kind(p.tag@) == Some(PropertyKind::Ref),
        declared_kind(classes, class_name, p.name@) matches Some(d) ==> d == PropertyKind::Ref,
        find_referent(raw, p.text@) is None,
    ensures
        decoded_properties(classes, raw, class_name, before.push(p) + after)
            == decoded_properties(classes, raw, class_name, before + after),
        properties_error(classes, class_name, before.push(p) + after)
            == properties_error(classes, class_name, before + after),
{
    lemma_unresolved_reference_dropped(classes, raw, class_name, before, p);
    lemma_decoded_concat(classes, raw, class_name, before.push(p), after);
    lemma_decoded_concat(classes, raw, class_name, before, after);
}

proof fn lemma_find_referent_same(raw: Seq<RawInstance>, raw2: Seq<RawInstance>, t: Seq<char>, k: int)
    requires
        raw.len() == raw2.len(),
        forall|j: int| 0 <= j < raw.len() ==> (#[trigger] raw[j]).referent@ == raw2[j].referent@,
    ensures
        find_referent_from(raw, t, k) == find_referent_from(raw2, t, k),
    decreases raw.len() - k,
{
    if 0 <= k < raw.len() {
        lemma_find_referent_same(raw, raw2, t, k + 1);
    }
}

proof fn lemma_decoded_same_referents(
    classes: Seq<ClassDescriptor>,
    raw: Seq<RawInstance>,
    raw2: Seq<RawInstance>,
    cname: Seq<char>,
    ps: Seq<RawProperty>,
)
    requires
        raw.len() == raw2.len(),
        forall|j: int| 0 <= j < raw.len() ==> (#[trigger] raw[j]).referent@ == raw2[j].referent@,
    ensures
        decoded_properties(classes, raw, cname, ps) == decoded_properties(classes, raw2, cname, ps),
    decreases ps.len(),
{
    if ps.len() > 0 {
        lemma_decoded_same_referents(classes, raw, raw2, cname, ps.drop_last());
        lemma_find_referent_same(raw, raw2, ps.last().text@, 0);
    }
}

/// A document in which one instance element holds a property element that
/// links to a referent carried by no instance element of the document
/// decodes, and fails, exactly as the same document without that property
/// element: every instance gets the same class, referent, parent and
/// properties, and the first error, if any, is the same.
pub proof fn lemma_unresolved_reference_document(
    classes: Seq<ClassDescriptor>,
    raw: Seq<RawInstance>,
    without: Seq<RawInstance>,
    x: int,
    before: Seq<RawProperty>,
    after: Seq<RawProperty>,
    p: RawProperty,
)
    requires
        0 <= x < raw.len(),
        raw.len() == without.len(),
        forall|j: int| 0 <= j < raw.len() && j != x ==> #[trigger] raw[j] == without[j],
        raw[x].class_name@ == without[x].class_name@,
        raw[x].referent@ == without[x].referent@,
        raw[x].parent == without[x].parent,
        raw[x].properties@ == before.push(p) + after,
        without[x].properties@ == before + after,
        tag_kind(p.tag@) == Some(PropertyKind::Ref),
        declared_kind(classes, raw[x].class_name@, p.name@) matches Some(d) ==> d == PropertyKind::Ref,
        find_referent(raw, p.text@) is None,
    ensures
        document_error(classes, raw) == document_error(classes, without),
        forall|i: int| 0 <= i < raw.len() ==> decoded_properties(classes, raw, (#[trigger] raw[i]).class_name@, raw[i].properties@)
            == decoded_properties(classes, without, without[i].class_name@, without[i].properties@),
{
    assert forall|j: int| 0 <= j < raw.len() implies (#[trigger] raw[j]).referent@ == without[j].referent@ by {
        if j != x {
            assert(raw[j] == without[j]);
        }
    }
    lemma_unresolved_reference_dropped_anywhere(classes, raw, raw[x].class_name@, before, after, p);
    assert forall|i: int| 0 <= i < raw.len() implies decoded_properties(classes, raw, (#[trigger] raw[i]).class_name@, raw[i].properties@)
        == decoded_properties(classes, without, without[i].class_name@, without[i].properties@)
        && instance_error(classes, raw, i) == instance_error(classes, without, i) by {
        lemma_decoded_same_referents(classes, raw, without, without[i].class_name@, without[i].properties@);
        lemma_find_referent_same(raw, without, raw[i].referent@, 0);
        if i != x {
            assert(raw[i] == without[i]);
        }
    }
    lemma_same_document_error(classes, raw, without, raw.len() as int);
}

proof fn lemma_same_document_error(classes: Seq<ClassDescriptor>, raw: Seq<RawInstance>, raw2: Seq<RawInstance>, n: int)
    requires
        n <= raw.len(),
        forall|i: int| 0 <= i < raw.len() ==> #[trigger] instance_error(classes, raw, i) == instance_error(classes, raw2, i),
    ensures
        document_error_upto(classes, raw, n) == document_error_upto(classes, raw2, n),
    decreases n,
{
    if n > 0 {
        lemma_same_document_error(classes, raw, raw2, n - 1);
    }
}

} // verus!
