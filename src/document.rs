//! The document event stream: a push-style writer and a pull-style reader
//! over element-start, element-end and text events.
use vstd::prelude::*;
use crate::codec::{RawInstance, RawProperty};

verus! {

/// One event of a document.
#[derive(Debug)]
pub enum Event {
    Start { tag: String, attributes: Vec<(String, String)> },
    End { tag: String },
    Text(String),
}

/// The mathematical form of an event.
pub enum EventView {
    Start(Seq<char>, Seq<(Seq<char>, Seq<char>)>),
    End(Seq<char>),
    Text(Seq<char>),
}

pub open spec fn attributes_view(a: Seq<(String, String)>) -> Seq<(Seq<char>, Seq<char>)> {
    a.map_values(|p: (String, String)| (p.0@, p.1@))
}

impl View for Event {
    type V = EventView;

    open spec fn view(&self) -> EventView {
        match self {
            Event::Start { tag, attributes } => EventView::Start(tag@, attributes_view(attributes@)),
            Event::End { tag } => EventView::End(tag@),
            Event::Text(s) => EventView::Text(s@),
        }
    }
}

pub open spec fn events_view(es: Seq<Event>) -> Seq<EventView> {
    es.map_values(|e: Event| e@)
}

fn copy_attributes(a: &Vec<(String, String)>) -> (r: Vec<(String, String)>)
    ensures
        attributes_view(r@) == attributes_view(a@),
{
    let mut out: Vec<(String, String)> = Vec::new();
    let mut i: usize = 0;
    while i < a.len()
        invariant
            i <= a@.len(),
            attributes_view(out@) == attributes_view(a@).take(i as int),
        decreases a@.len() - i,
    {
        let ghost before = out@;
        out.push((a[i].0.clone(), a[i].1.clone()));
        assert(attributes_view(out@) == attributes_view(before).push((a@[i as int].0@, a@[i as int].1@)));
        assert(attributes_view(a@).take(i + 1) == attributes_view(a@).take(i as int).push(
            attributes_view(a@)[i as int],
        ));
        i = i + 1;
    }
    assert(attributes_view(a@).take(i as int) == attributes_view(a@));
    out
}

impl Event {
    /// A copy of this event.
    pub fn duplicate(&self) -> (r: Event)
        ensures
            r@ == self@,
    {
        match self {
            Event::Start { tag, attributes } => Event::Start {
                tag: tag.clone(),
                attributes: copy_attributes(attributes),
            },
            Event::End { tag } => Event::End { tag: tag.clone() },
            Event::Text(s) => Event::Text(s.clone()),
        }
    }
}

/// An append-only writer of events.
pub struct EventWriter {
    pub events: Vec<Event>,
}

impl EventWriter {
    pub fn new() -> (r: EventWriter)
        ensures
            r.events@.len() == 0,
    {
        EventWriter { events: Vec::new() }
    }

    pub fn write_start(&mut self, tag: &str, attributes: Vec<(String, String)>)
        ensures
            events_view(final(self).events@) == events_view(old(self).events@).push(
                EventView::Start(tag@, attributes_view(attributes@)),
            ),
    {
        let ghost before = self.events@;
        self.events.push(Event::Start { tag: tag.to_owned(), attributes });
        assert(events_view(self.events@) == events_view(before).push(
            EventView::Start(tag@, attributes_view(attributes@)),
        ));
    }

    pub fn write_end(&mut self, tag: &str)
        ensures
            events_view(final(self).events@) == events_view(old(self).events@).push(EventView::End(tag@)),
    {
        let ghost before = self.events@;
        self.events.push(Event::End { tag: tag.to_owned() });
        assert(events_view(self.events@) == events_view(before).push(EventView::End(tag@)));
    }

    pub fn write_text(&mut self, s: &str)
        ensures
            events_view(final(self).events@) == events_view(old(self).events@).push(EventView::Text(s@)),
    {
        let ghost before = self.events@;
        self.events.push(Event::Text(s.to_owned()));
        assert(events_view(self.events@) == events_view(before).push(EventView::Text(s@)));
    }

    /// Writes an element `tag` that holds the text `s` and nothing else.
    pub fn write_value(&mut self, tag: &str, s: &str)
        ensures
            events_view(final(self).events@) == events_view(old(self).events@)
                + seq![EventView::Start(tag@, Seq::empty()), EventView::Text(s@), EventView::End(tag@)],
    {
        self.write_start(tag, Vec::new());
        assert(attributes_view(Seq::<(String, String)>::empty()) == Seq::<(Seq<char>, Seq<char>)>::empty());
        self.write_text(s);
        self.write_end(tag);
    }

    /// Writes a property element: its wire tag carries a `name` attribute,
    /// and it holds the property's text.
    pub fn write_property(&mut self, p: &RawProperty)
        ensures
            events_view(final(self).events@) == events_view(old(self).events@) + property_events(
                p.tag@,
                p.name@,
                p.text@,
            ),
    {
        let mut attributes: Vec<(String, String)> = Vec::new();
        attributes.push(("name".to_owned(), p.name.clone()));
        assert(attributes_view(attributes@) == seq![("name"@, p.name@)]);
        self.write_start(p.tag.as_str(), attributes);
        self.write_text(p.text.as_str());
        self.write_end(p.tag.as_str());
    }
}

impl EventWriter {
    /// Writes the start of an instance element with its `class` and
    /// `referent` attributes.
    pub fn write_item_start(&mut self, class_name: &str, referent: &str)
        ensures
            events_view(final(self).events@) == events_view(old(self).events@).push(
                item_start_event(class_name@, referent@),
            ),
    {
        let mut attributes: Vec<(String, String)> = Vec::new();
        attributes.push(("class".to_owned(), class_name.to_owned()));
        attributes.push(("referent".to_owned(), referent.to_owned()));
        assert(attributes_view(attributes@) == seq![("class"@, class_name@), ("referent"@, referent@)]);
        self.write_start("Item", attributes);
    }

    /// Writes a properties block holding the property elements of `ps`.
    pub fn write_properties(&mut self, ps: &Vec<RawProperty>)
        ensures
            events_view(final(self).events@) == events_view(old(self).events@) + block_events(raw_props_view(ps@)),
    {
        let ghost start = events_view(self.events@);
        self.write_start("Properties", Vec::new());
        assert(attributes_view(Seq::<(String, String)>::empty()) == Seq::<(Seq<char>, Seq<char>)>::empty());
        let mut j: usize = 0;
        while j < ps.len()
            invariant
                j <= ps@.len(),
                events_view(self.events@) == start.push(EventView::Start("Properties"@, Seq::empty()))
                    + properties_events(raw_props_view(ps@).take(j as int)),
            decreases ps@.len() - j,
        {
            let ghost before = events_view(self.events@);
            let ghost pv = raw_props_view(ps@);
            self.write_property(&ps[j]);
            proof {
                assert(pv.take(j + 1) == pv.take(j as int).push(pv[j as int]));
                lemma_properties_events_push(pv.take(j as int), pv[j as int]);
            }
            j = j + 1;
        }
        assert(raw_props_view(ps@).take(j as int) == raw_props_view(ps@));
        self.write_end("Properties");
    }
}

/// The start event of an instance element.
pub open spec fn item_start_event(class_name: Seq<char>, referent: Seq<char>) -> EventView {
    EventView::Start("Item"@, seq![("class"@, class_name), ("referent"@, referent)])
}

/// The events of the property elements of `ps`, in order.
pub open spec fn properties_events(ps: Seq<(Seq<char>, Seq<char>, Seq<char>)>) -> Seq<EventView>
    decreases ps.len(),
{
    if ps.len() == 0 {
        seq![]
    } else {
        property_events(ps[0].0, ps[0].1, ps[0].2) + properties_events(ps.drop_first())
    }
}

/// The events of a properties block holding the property elements of `ps`.
pub open spec fn block_events(ps: Seq<(Seq<char>, Seq<char>, Seq<char>)>) -> Seq<EventView> {
    seq![EventView::Start("Properties"@, Seq::empty())] + properties_events(ps) + seq![EventView::End("Properties"@)]
}

proof fn lemma_properties_events_push(ps: Seq<(Seq<char>, Seq<char>, Seq<char>)>, p: (Seq<char>, Seq<char>, Seq<char>))
    ensures
        properties_events(ps.push(p)) == properties_events(ps) + property_events(p.0, p.1, p.2),
    decreases ps.len(),
{
    if ps.len() == 0 {
        assert(ps.push(p).drop_first() == Seq::<(Seq<char>, Seq<char>, Seq<char>)>::empty());
        assert(ps.push(p)[0] == p);
        assert(properties_events(ps.push(p).drop_first()) == Seq::<EventView>::empty());
        assert(properties_events(ps.push(p)) == property_events(p.0, p.1, p.2) + Seq::<EventView>::empty());
        assert(property_events(p.0, p.1, p.2) + Seq::<EventView>::empty() == property_events(p.0, p.1, p.2));
    } else {
        assert(ps.push(p).drop_first() == ps.drop_first().push(p));
        lemma_properties_events_push(ps.drop_first(), p);
        let head = property_events(ps[0].0, ps[0].1, ps[0].2);
        assert(head + (properties_events(ps.drop_first()) + property_events(p.0, p.1, p.2))
            == (head + properties_events(ps.drop_first())) + property_events(p.0, p.1, p.2));
    }
}

/// The instance elements of `raw`, in their mathematical form.
pub open spec fn raw_instances_view(raw: Seq<RawInstance>) -> Seq<(Seq<char>, Seq<char>, Option<int>, Seq<(Seq<char>, Seq<char>, Seq<char>)>)> {
    raw.map_values(|e: RawInstance| raw_instance_view(e))
}

impl EventWriter {
    /// Writes the instance element for one closed instance.
    fn close_item(&mut self, open: &mut Vec<usize>, Ghost(first): Ghost<int>, Ghost(acc): Ghost<Seq<(Seq<char>, Seq<char>, Option<int>, Seq<(Seq<char>, Seq<char>, Seq<char>)>)>>)
        requires
            old(open)@.len() > 0,
            forall|rest: Seq<EventView>| #[trigger] items_from(events_view(old(self).events@) + rest, first, Seq::empty(), Seq::empty())
                == items_from(events_view(old(self).events@) + rest, events_view(old(self).events@).len() as int, old(open)@.map_values(|i: usize| i as int), acc),
            first <= events_view(old(self).events@).len(),
        ensures
            final(open)@ == old(open)@.drop_last(),
            events_view(final(self).events@) == events_view(old(self).events@).push(EventView::End("Item"@)),
            forall|rest: Seq<EventView>| #[trigger] items_from(events_view(final(self).events@) + rest, first, Seq::empty(), Seq::empty())
                == items_from(events_view(final(self).events@) + rest, events_view(final(self).events@).len() as int, final(open)@.map_values(|i: usize| i as int), acc),
    {
        let ghost e = events_view(self.events@);
        let ghost ov = open@.map_values(|i: usize| i as int);
        self.write_end("Item");
        let _ = open.pop();
        assert(open@.map_values(|i: usize| i as int) == ov.drop_last());
        let ghost e2 = events_view(self.events@);
        assert forall|rest: Seq<EventView>| #[trigger] items_from(e2 + rest, first, Seq::empty(), Seq::empty())
            == items_from(e2 + rest, e2.len() as int, ov.drop_last(), acc) by {
            let rest2 = seq![EventView::End("Item"@)] + rest;
            assert(e + rest2 == e2 + rest);
            assert(items_from(e + rest2, first, Seq::empty(), Seq::empty()) == items_from(e + rest2, e.len() as int, ov, acc));
            assert((e2 + rest)[e.len() as int] == EventView::End("Item"@));
            reveal_strlit("Item");
            reveal_strlit("roblox");
            assert("Item"@.len() != "roblox"@.len());
        }
    }
}

impl EventWriter {
    /// Writes the start and properties block of instance element `e`, whose
    /// parent is the innermost open instance.
    fn open_item(&mut self, open: &mut Vec<usize>, e: &RawInstance, index: usize, Ghost(first): Ghost<int>, Ghost(acc): Ghost<Seq<(Seq<char>, Seq<char>, Option<int>, Seq<(Seq<char>, Seq<char>, Seq<char>)>)>>)
        requires
            acc.len() == index,
            raw_instance_view(*e).2 == (if old(open)@.len() == 0 { None } else { Some(old(open)@.last() as int) }),
            forall|rest: Seq<EventView>| #[trigger] items_from(events_view(old(self).events@) + rest, first, Seq::empty(), Seq::empty())
                == items_from(events_view(old(self).events@) + rest, events_view(old(self).events@).len() as int, old(open)@.map_values(|i: usize| i as int), acc),
            first <= events_view(old(self).events@).len(),
        ensures
            final(open)@ == old(open)@.push(index),
            events_view(final(self).events@) == events_view(old(self).events@) + seq![item_start_event(e.class_name@, e.referent@)]
                + block_events(raw_props_view(e.properties@)),
            forall|rest: Seq<EventView>| #[trigger] items_from(events_view(final(self).events@) + rest, first, Seq::empty(), Seq::empty())
                == items_from(events_view(final(self).events@) + rest, events_view(final(self).events@).len() as int, final(open)@.map_values(|i: usize| i as int), acc.push(raw_instance_view(*e))),
    {
        let ghost e0 = events_view(self.events@);
        let ghost ov = open@.map_values(|i: usize| i as int);
        self.write_item_start(e.class_name.as_str(), e.referent.as_str());
        self.write_properties(&e.properties);
        open.push(index);
        assert(open@.map_values(|i: usize| i as int) == ov.push(index as int));
        let ghost e2 = events_view(self.events@);
        let ghost st = item_start_event(e.class_name@, e.referent@);
        let ghost ps = raw_props_view(e.properties@);
        let ghost chunk = seq![st] + block_events(ps);
        assert(e2 == e0 + chunk);
        proof {
            lemma_properties_events_len(ps);
        }
        assert(ov.len() > 0 ==> ov.last() == old(open)@.last() as int);
        assert forall|rest: Seq<EventView>| #[trigger] items_from(e2 + rest, first, Seq::empty(), Seq::empty())
            == items_from(e2 + rest, e2.len() as int, ov.push(index as int), acc.push(raw_instance_view(*e))) by {
            let es = e2 + rest;
            let k = e0.len() as int;
            assert(e0 + (chunk + rest) == es);
            assert(items_from(e0 + (chunk + rest), first, Seq::empty(), Seq::empty())
                == items_from(e0 + (chunk + rest), k, ov, acc));
            assert(es == e0 + seq![st] + (block_events(ps) + rest));
            lemma_item_start_round_trip(e0, block_events(ps) + rest, e.class_name@, e.referent@);
            assert(es == (e0 + seq![st]) + block_events(ps) + rest);
            lemma_block_round_trip(e0 + seq![st], rest, ps);
            assert(es[k] == st);
            assert(es[k] != EventView::End("roblox"@));
            assert(es[k] != EventView::End("Item"@));
        }
    }

    /// Writes a whole document: a `roblox` root holding the instance
    /// elements of `raw`, each nested in the element its parent index names.
    /// Succeeds exactly where `raw` is well nested; otherwise fails with the
    /// index of the first element whose parent is no longer open when it
    /// comes.
    pub fn write_document(&mut self, raw: &Vec<RawInstance>) -> (r: Result<(), usize>)
        ensures
            r is Ok <==> well_nested(parents_of(raw@)),
            r is Ok ==> document_at(events_view(final(self).events@), events_view(old(self).events@).len() as int)
                == Some((raw_instances_view(raw@), events_view(final(self).events@).len() as int)),
            r matches Err(i) ==> i < raw@.len() && open_after(parents_of(raw@), i as int) is Some
                && open_after(parents_of(raw@), i + 1) is None,
    {
        let ghost parents = parents_of(raw@);
        let ghost e0 = events_view(self.events@);
        self.write_start("roblox", Vec::new());
        assert(attributes_view(Seq::<(String, String)>::empty()) == Seq::<(Seq<char>, Seq<char>)>::empty());
        let ghost first = events_view(self.events@).len() as int;
        assert(events_view(self.events@).subrange(0, first) == events_view(self.events@));
        let mut open: Vec<usize> = Vec::new();
        assert(open@.map_values(|i: usize| i as int) == Seq::<int>::empty());
        assert(raw_instances_view(raw@.take(0)) == Seq::<(Seq<char>, Seq<char>, Option<int>, Seq<(Seq<char>, Seq<char>, Seq<char>)>)>::empty());
        let mut i: usize = 0;
        while i < raw.len()
            invariant
                i <= raw@.len(),
                first == e0.len() + 1,
                events_view(self.events@).subrange(0, first) == e0.push(EventView::Start("roblox"@, Seq::empty())),
                first <= events_view(self.events@).len(),
                forall|j: int| 0 <= j < open@.len() ==> (#[trigger] open@[j]) < i,
                parents == parents_of(raw@),
                open_after(parents, i as int) == Some(open@.map_values(|i: usize| i as int)),
                forall|rest: Seq<EventView>| #[trigger] items_from(events_view(self.events@) + rest, first, Seq::empty(), Seq::empty())
                    == items_from(events_view(self.events@) + rest, events_view(self.events@).len() as int, open@.map_values(|i: usize| i as int), raw_instances_view(raw@.take(i as int))),
            decreases raw@.len() - i,
        {
            let e = &raw[i];
            let ghost s0 = open@.map_values(|i: usize| i as int);
            assert(parents[i as int] == e.parent);
            loop
                invariant
                    i < raw@.len(),
                    first == e0.len() + 1,
                    events_view(self.events@).subrange(0, first) == e0.push(EventView::Start("roblox"@, Seq::empty())),
                    first <= events_view(self.events@).len(),
                    forall|j: int| 0 <= j < open@.len() ==> (#[trigger] open@[j]) < i,
                    e.parent matches Some(p) ==> close_down_to(open@.map_values(|i: usize| i as int), p as int)
                        == close_down_to(s0, p as int),
                    forall|rest: Seq<EventView>| #[trigger] items_from(events_view(self.events@) + rest, first, Seq::empty(), Seq::empty())
                        == items_from(events_view(self.events@) + rest, events_view(self.events@).len() as int, open@.map_values(|i: usize| i as int), raw_instances_view(raw@.take(i as int))),
                ensures
                    open@.len() == 0 || (e.parent matches Some(p) && open@.last() == p),
                decreases open@.len(),
            {
                if open.len() == 0 {
                    break;
                }
                let top = open[open.len() - 1];
                let keep = match e.parent {
                    Some(p) => p == top,
                    None => false,
                };
                if keep {
                    break;
                }
                let ghost old_events = events_view(self.events@);
                let ghost ov = open@.map_values(|i: usize| i as int);
                assert(ov.last() == top as int);
                self.close_item(&mut open, Ghost(first), Ghost(raw_instances_view(raw@.take(i as int))));
                assert(open@.map_values(|i: usize| i as int) == ov.drop_last());
                assert(events_view(self.events@).subrange(0, first) =~= old_events.subrange(0, first));
            }
            let fits = match e.parent {
                Some(p) => open.len() > 0 && open[open.len() - 1] == p,
                None => open.len() == 0,
            };
            let ghost ov = open@.map_values(|i: usize| i as int);
            if !fits {
                proof {
                    assert(ov.len() == 0);
                    assert(open_after(parents, i + 1) is None);
                    lemma_open_after_stays_none(parents, i + 1, parents.len() as int);
                }
                return Err(i);
            }
            proof {
                if ov.len() > 0 {
                    assert(ov.last() == open@[open@.len() - 1] as int);
                }
                assert(place(s0, e.parent, i as int) == Some(ov.push(i as int)));
            }
            assert(raw_instances_view(raw@.take(i as int)).len() == i);
            let ghost old_events = events_view(self.events@);
            self.open_item(&mut open, e, i, Ghost(first), Ghost(raw_instances_view(raw@.take(i as int))));
            assert(events_view(self.events@).subrange(0, first) =~= old_events.subrange(0, first));
            assert(raw_instances_view(raw@.take(i + 1)) == raw_instances_view(raw@.take(i as int)).push(raw_instance_view(*e)));
            assert(open@.map_values(|i: usize| i as int) == ov.push(i as int));
            i = i + 1;
        }
        assert(raw@.take(raw@.len() as int) == raw@);
        while open.len() > 0
            invariant
                first == e0.len() + 1,
                events_view(self.events@).subrange(0, first) == e0.push(EventView::Start("roblox"@, Seq::empty())),
                first <= events_view(self.events@).len(),
                forall|rest: Seq<EventView>| #[trigger] items_from(events_view(self.events@) + rest, first, Seq::empty(), Seq::empty())
                    == items_from(events_view(self.events@) + rest, events_view(self.events@).len() as int, open@.map_values(|i: usize| i as int), raw_instances_view(raw@)),
            decreases open@.len(),
        {
            let ghost old_events = events_view(self.events@);
            self.close_item(&mut open, Ghost(first), Ghost(raw_instances_view(raw@)));
            assert(events_view(self.events@).subrange(0, first) =~= old_events.subrange(0, first));
        }
        let ghost before = events_view(self.events@);
        self.write_end("roblox");
        let ghost fin = events_view(self.events@);
        assert(fin == before + seq![EventView::End("roblox"@)]);
        assert(items_from(before + seq![EventView::End("roblox"@)], first, Seq::empty(), Seq::empty())
            == items_from(before + seq![EventView::End("roblox"@)], before.len() as int, Seq::empty(), raw_instances_view(raw@)));
        assert(fin[e0.len() as int] == before.subrange(0, first)[e0.len() as int]);
        assert(items_from(before + seq![EventView::End("roblox"@)], before.len() as int, Seq::empty(), raw_instances_view(raw@))
            == Some((raw_instances_view(raw@), fin.len() as int)));
        Ok(())
    }
}

proof fn lemma_properties_events_len(ps: Seq<(Seq<char>, Seq<char>, Seq<char>)>)
    ensures
        properties_events(ps).len() == 3 * ps.len(),
    decreases ps.len(),
{
    if ps.len() > 0 {
        lemma_properties_events_len(ps.drop_first());
    }
}

/// The parent index of each instance element.
pub open spec fn parents_of(raw: Seq<RawInstance>) -> Seq<Option<usize>> {
    raw.map_values(|e: RawInstance| e.parent)
}

/// The open instances, innermost last, once those nested deeper than `p`
/// are closed; `None` where `p` is not open.
pub open spec fn close_down_to(open: Seq<int>, p: int) -> Option<Seq<int>>
    decreases open.len(),
{
    if open.len() == 0 {
        None
    } else if open.last() == p {
        Some(open)
    } else {
        close_down_to(open.drop_last(), p)
    }
}

/// The open instances once instance `i`, with the given parent, is placed
/// after those of `open`: a root closes every open instance; a child closes
/// those nested deeper than its parent, which must be open.
pub open spec fn place(open: Seq<int>, parent: Option<usize>, i: int) -> Option<Seq<int>> {
    match parent {
        None => Some(seq![i]),
        Some(p) => match close_down_to(open, p as int) {
            Some(s) => Some(s.push(i)),
            None => None,
        },
    }
}

/// The open instances, innermost last, once the first `n` instances are
/// placed in order; `None` where one of them has a parent that is no longer
/// open when it comes.
pub open spec fn open_after(parents: Seq<Option<usize>>, n: int) -> Option<Seq<int>>
    decreases n,
{
    if n <= 0 {
        Some(seq![])
    } else {
        match open_after(parents, n - 1) {
            Some(s) => place(s, parents[n - 1], n - 1),
            None => None,
        }
    }
}

/// Instances in this order, with these parents, can be written as nested
/// elements: each parent is still open when its child comes.
pub open spec fn well_nested(parents: Seq<Option<usize>>) -> bool {
    open_after(parents, parents.len() as int) is Some
}

proof fn lemma_open_after_stays_none(parents: Seq<Option<usize>>, m: int, n: int)
    requires
        0 <= m <= n,
        open_after(parents, m) is None,
    ensures
        open_after(parents, n) is None,
    decreases n - m,
{
    if m < n {
        lemma_open_after_stays_none(parents, m, n - 1);
    }
}

/// The events of a property element.
pub open spec fn property_events(tag: Seq<char>, name: Seq<char>, text: Seq<char>) -> Seq<EventView> {
    seq![EventView::Start(tag, seq![("name"@, name)]), EventView::Text(text), EventView::End(tag)]
}

/// A malformed document: an unexpected event, a missing end, or an instance
/// or property element without a required attribute (`class`, `referent`,
/// `name`), with the position of the event where it was found.
#[derive(Debug, Copy, Clone, PartialEq, Eq, Structural)]
pub struct StreamError {
    pub position: usize,
}

/// The value of the first attribute named `name`.
pub open spec fn attribute_value(a: Seq<(Seq<char>, Seq<char>)>, name: Seq<char>) -> Option<Seq<char>>
    decreases a.len(),
{
    if a.len() == 0 {
        None
    } else if a[0].0 == name {
        Some(a[0].1)
    } else {
        attribute_value(a.drop_first(), name)
    }
}

/// Finds the value of the first attribute named `name`.
pub fn find_attribute(a: &Vec<(String, String)>, name: &str) -> (r: Option<String>)
    ensures
        match attribute_value(attributes_view(a@), name@) {
            Some(v) => r matches Some(s) && s@ == v,
            None => r is None,
        },
{
    let ghost whole = attributes_view(a@);
    assert(whole.skip(0) == whole);
    let mut i: usize = 0;
    while i < a.len()
        invariant
            i <= a@.len(),
            whole == attributes_view(a@),
            attribute_value(whole, name@) == attribute_value(whole.skip(i as int), name@),
        decreases a@.len() - i,
    {
        assert(whole.skip(i as int)[0] == (a@[i as int].0@, a@[i as int].1@));
        assert(whole.skip(i as int).drop_first() == whole.skip(i + 1));
        if crate::value::same_text(a[i].0.as_str(), name) {
            return Some(a[i].1.clone());
        }
        i = i + 1;
    }
    assert(whole.skip(i as int).len() == 0);
    None
}

/// The text that the events from `k` on hold before the first event that is
/// not text, concatenated.
pub open spec fn text_run(es: Seq<EventView>, k: int) -> Seq<char>
    decreases es.len() - k,
{
    if k < 0 || k >= es.len() {
        Seq::empty()
    } else {
        match es[k] {
            EventView::Text(s) => s + text_run(es, k + 1),
            _ => Seq::empty(),
        }
    }
}

/// The position of the first event at or after `k` that is not text.
pub open spec fn text_run_end(es: Seq<EventView>, k: int) -> int
    decreases es.len() - k,
{
    if k < 0 || k >= es.len() {
        k
    } else {
        match es[k] {
            EventView::Text(_) => text_run_end(es, k + 1),
            _ => k,
        }
    }
}

/// Whether `e` starts an element named `tag`.
pub open spec fn is_start_of(e: EventView, tag: Seq<char>) -> bool {
    match e {
        EventView::Start(t, _) => t == tag,
        _ => false,
    }
}

/// The property element that starts at event `k`: its tag, the value of its
/// `name` attribute, its text, and the position after its end; `None` where
/// no well-formed property element starts there.
pub open spec fn property_at(es: Seq<EventView>, k: int) -> Option<(Seq<char>, Seq<char>, Seq<char>, int)> {
    if 0 <= k < es.len() {
        match es[k] {
            EventView::Start(t, a) => match attribute_value(a, "name"@) {
                Some(n) => {
                    let e = text_run_end(es, k + 1);
                    if e < es.len() && es[e] == EventView::End(t) {
                        Some((t, n, text_run(es, k + 1), e + 1))
                    } else {
                        None
                    }
                },
                None => None,
            },
            _ => None,
        }
    } else {
        None
    }
}

/// A property element that a writer wrote is read back as the same
/// property, wherever it stands in the stream.
pub proof fn lemma_property_round_trip(before: Seq<EventView>, after: Seq<EventView>, tag: Seq<char>, name: Seq<char>, text: Seq<char>)
    ensures
        property_at(before + property_events(tag, name, text) + after, before.len() as int)
            == Some((tag, name, text, before.len() + 3int)),
{
    let es = before + property_events(tag, name, text) + after;
    let k = before.len() as int;
    assert(es[k] == EventView::Start(tag, seq![("name"@, name)]));
    assert(es[k + 1] == EventView::Text(text));
    assert(es[k + 2] == EventView::End(tag));
    assert(seq![("name"@, name)][0] == ("name"@, name));
    assert(text_run_end(es, k + 2) == k + 2);
    assert(text_run(es, k + 2) == Seq::<char>::empty());
    assert(text + Seq::<char>::empty() == text);
}

fn is_text(e: &Event) -> (r: bool)
    ensures
        r == (e@ is Text),
{
    match e {
        Event::Text(_) => true,
        _ => false,
    }
}

/// The header of the instance element that starts at event `k`: the values
/// of its `class` and `referent` attributes.
pub open spec fn item_start_at(es: Seq<EventView>, k: int) -> Option<(Seq<char>, Seq<char>)> {
    if 0 <= k < es.len() {
        match es[k] {
            EventView::Start(t, a) => {
                if t == "Item"@ {
                    match (attribute_value(a, "class"@), attribute_value(a, "referent"@)) {
                        (Some(c), Some(r)) => Some((c, r)),
                        _ => None,
                    }
                } else {
                    None
                }
            },
            _ => None,
        }
    } else {
        None
    }
}

/// The tag, name and text of each property element.
pub open spec fn raw_props_view(ps: Seq<RawProperty>) -> Seq<(Seq<char>, Seq<char>, Seq<char>)> {
    ps.map_values(|p: RawProperty| (p.tag@, p.name@, p.text@))
}

/// The property elements from event `k` up to the end of the enclosing
/// `Properties` element, and the position after that end.
pub open spec fn properties_from(es: Seq<EventView>, k: int) -> Option<(Seq<(Seq<char>, Seq<char>, Seq<char>)>, int)>
    decreases es.len() - k,
{
    if k < 0 || k >= es.len() {
        None
    } else if es[k] == EventView::End("Properties"@) {
        Some((seq![], k + 1))
    } else {
        match property_at(es, k) {
            Some((t, n, x, next)) => {
                if k < next {
                    match properties_from(es, next) {
                        Some((rest, end)) => Some((seq![(t, n, x)] + rest, end)),
                        None => None,
                    }
                } else {
                    None
                }
            },
            None => None,
        }
    }
}

/// The properties block that starts at event `k`: its property elements and
/// the position after its end.
pub open spec fn properties_block_at(es: Seq<EventView>, k: int) -> Option<(Seq<(Seq<char>, Seq<char>, Seq<char>)>, int)> {
    if 0 <= k < es.len() && is_start_of(es[k], "Properties"@) {
        properties_from(es, k + 1)
    } else {
        None
    }
}

proof fn lemma_text_run_end_ge(es: Seq<EventView>, k: int)
    ensures
        k <= text_run_end(es, k),
    decreases es.len() - k,
{
    if 0 <= k < es.len() && es[k] is Text {
        lemma_text_run_end_ge(es, k + 1);
    }
}

/// An instance element start that a writer wrote is read back with the
/// same class and referent.
pub proof fn lemma_item_start_round_trip(before: Seq<EventView>, after: Seq<EventView>, class_name: Seq<char>, referent: Seq<char>)
    ensures
        item_start_at(before + seq![item_start_event(class_name, referent)] + after, before.len() as int)
            == Some((class_name, referent)),
{
    let es = before + seq![item_start_event(class_name, referent)] + after;
    assert(es[before.len() as int] == item_start_event(class_name, referent));
    reveal_strlit("class");
    reveal_strlit("referent");
    let a = seq![("class"@, class_name), ("referent"@, referent)];
    assert("class"@.len() != "referent"@.len());
    assert(a[0].0 == "class"@);
    assert(a.drop_first() == seq![("referent"@, referent)]);
    assert(a.drop_first()[0].0 == "referent"@);
    assert(attribute_value(a, "class"@) == Some(class_name));
    assert(attribute_value(a.drop_first(), "referent"@) == Some(referent));
    assert(attribute_value(a, "referent"@) == Some(referent));
}

proof fn lemma_properties_from_written(before: Seq<EventView>, after: Seq<EventView>, ps: Seq<(Seq<char>, Seq<char>, Seq<char>)>)
    ensures
        properties_from(before + properties_events(ps) + seq![EventView::End("Properties"@)] + after, before.len() as int)
            == Some((ps, before.len() + 3 * ps.len() + 1int)),
    decreases ps.len(),
{
    let tail = seq![EventView::End("Properties"@)] + after;
    let es = before + properties_events(ps) + seq![EventView::End("Properties"@)] + after;
    let k = before.len() as int;
    if ps.len() == 0 {
        assert(es[k] == EventView::End("Properties"@));
    } else {
        let (t, n, x) = ps[0];
        let rest = ps.drop_first();
        let pe = property_events(t, n, x);
        assert(es == before + pe + (properties_events(rest) + tail));
        lemma_property_round_trip(before, properties_events(rest) + tail, t, n, x);
        assert(es[k] == EventView::Start(t, seq![("name"@, n)]));
        lemma_properties_from_written(before + pe, after, rest);
        assert(es == (before + pe) + properties_events(rest) + seq![EventView::End("Properties"@)] + after);
        assert(seq![(t, n, x)] + rest == ps);
    }
}

/// A properties block that a writer wrote is read back with the same
/// property elements, wherever it stands in the stream.
pub proof fn lemma_block_round_trip(before: Seq<EventView>, after: Seq<EventView>, ps: Seq<(Seq<char>, Seq<char>, Seq<char>)>)
    ensures
        properties_block_at(before + block_events(ps) + after, before.len() as int)
            == Some((ps, before.len() + 3 * ps.len() + 2int)),
{
    let start = seq![EventView::Start("Properties"@, Seq::empty())];
    let es = before + block_events(ps) + after;
    assert(es[before.len() as int] == EventView::Start("Properties"@, Seq::empty()));
    assert(es == (before + start) + properties_events(ps) + seq![EventView::End("Properties"@)] + after);
    lemma_properties_from_written(before + start, after, ps);
}

proof fn lemma_properties_from_bounds(es: Seq<EventView>, k: int)
    ensures
        properties_from(es, k) matches Some((_, end)) ==> k < end <= es.len(),
    decreases es.len() - k,
{
    if 0 <= k < es.len() && es[k] != EventView::End("Properties"@) {
        if let Some((t, n, x, next)) = property_at(es, k) {
            if k < next {
                lemma_properties_from_bounds(es, next);
            }
        }
    }
}

/// The mathematical form of an instance element: class, referent, parent
/// and property elements.
pub open spec fn raw_instance_view(e: RawInstance) -> (Seq<char>, Seq<char>, Option<int>, Seq<(Seq<char>, Seq<char>, Seq<char>)>) {
    (
        e.class_name@,
        e.referent@,
        match e.parent {
            Some(p) => Some(p as int),
            None => None,
        },
        raw_props_view(e.properties@),
    )
}

/// The instance elements of a document from event `k` on, given the
/// instance elements already read (`acc`) and the indices of the ones still
/// open, innermost last (`open`): an `Item` start opens an instance whose
/// parent is the innermost open one, its properties block follows, then its
/// children, then its end. The document ends with the end of its `roblox`
/// root once no instance is open. The result is the instance elements in
/// document order and the position after the root's end.
pub open spec fn items_from(
    es: Seq<EventView>,
    k: int,
    open: Seq<int>,
    acc: Seq<(Seq<char>, Seq<char>, Option<int>, Seq<(Seq<char>, Seq<char>, Seq<char>)>)>,
) -> Option<(Seq<(Seq<char>, Seq<char>, Option<int>, Seq<(Seq<char>, Seq<char>, Seq<char>)>)>, int)>
    decreases es.len() - k,
{
    if k < 0 || k >= es.len() {
        None
    } else if es[k] == EventView::End("roblox"@) {
        if open.len() == 0 {
            Some((acc, k + 1))
        } else {
            None
        }
    } else if es[k] == EventView::End("Item"@) {
        if open.len() > 0 {
            items_from(es, k + 1, open.drop_last(), acc)
        } else {
            None
        }
    } else {
        match item_start_at(es, k) {
            Some((c, r)) => match properties_block_at(es, k + 1) {
                Some((ps, next)) => {
                    if k < next <= es.len() {
                        let parent = if open.len() == 0 {
                            None
                        } else {
                            Some(open.last())
                        };
                        items_from(es, next, open.push(acc.len() as int), acc.push((c, r, parent, ps)))
                    } else {
                        None
                    }
                },
                None => None,
            },
            None => None,
        }
    }
}

/// The document that starts at event `k`: its instance elements in document
/// order and the position after its end.
pub open spec fn document_at(es: Seq<EventView>, k: int) -> Option<(Seq<(Seq<char>, Seq<char>, Option<int>, Seq<(Seq<char>, Seq<char>, Seq<char>)>)>, int)> {
    if 0 <= k < es.len() && is_start_of(es[k], "roblox"@) {
        items_from(es, k + 1, Seq::empty(), Seq::empty())
    } else {
        None
    }
}

/// A forward-only reader of events.
pub struct EventReader {
    events: Vec<Event>,
    pos: usize,
}

impl EventReader {
    /// The events read from and the position of the next one.
    pub closed spec fn stream(&self) -> (Seq<EventView>, int) {
        (events_view(self.events@), self.pos as int)
    }

    pub closed spec fn wf(&self) -> bool {
        self.pos <= self.events@.len()
    }

    pub fn new(events: Vec<Event>) -> (r: EventReader)
        ensures
            r.wf(),
            r.stream() == (events_view(events@), 0int),
    {
        EventReader { events, pos: 0 }
    }

    /// The position of the next event.
    pub fn position(&self) -> (r: usize)
        ensures
            r as int == self.stream().1,
    {
        self.pos
    }

    /// The next event, without consuming it; `None` at the end of input.
    pub fn peek(&self) -> (r: Option<&Event>)
        requires
            self.wf(),
        ensures
            match r {
                Some(e) => self.stream().1 < self.stream().0.len() && e@ == self.stream().0[self.stream().1],
                None => self.stream().1 == self.stream().0.len(),
            },
    {
        if self.pos < self.events.len() {
            Some(&self.events[self.pos])
        } else {
            None
        }
    }

    /// Consumes the next event; `None` at the end of input.
    pub fn next_event(&mut self) -> (r: Option<Event>)
        requires
            old(self).wf(),
        ensures
            final(self).wf(),
            final(self).stream().0 == old(self).stream().0,
            match r {
                Some(e) => old(self).stream().1 < old(self).stream().0.len()
                    && e@ == old(self).stream().0[old(self).stream().1]
                    && final(self).stream().1 == old(self).stream().1 + 1,
                None => old(self).stream().1 == old(self).stream().0.len()
                    && final(self).stream().1 == old(self).stream().1,
            },
    {
        if self.pos < self.events.len() {
            let e = self.events[self.pos].duplicate();
            self.pos = self.pos + 1;
            Some(e)
        } else {
            None
        }
    }

    /// Consumes the start of an element named `tag` and returns its
    /// attributes; fails, consuming nothing, on any other event.
    pub fn expect_start(&mut self, tag: &str) -> (r: Result<Vec<(String, String)>, StreamError>)
        requires
            old(self).wf(),
        ensures
            final(self).wf(),
            final(self).stream().0 == old(self).stream().0,
            ({
                let (es, k) = old(self).stream();
                match r {
                    Ok(a) => k < es.len() && es[k] == EventView::Start(tag@, attributes_view(a@))
                        && final(self).stream().1 == k + 1,
                    Err(e) => !(k < es.len() && is_start_of(es[k], tag@)) && e.position as int == k
                        && final(self).stream().1 == k,
                }
            }),
    {
        if self.pos < self.events.len() {
            match &self.events[self.pos] {
                Event::Start { tag: t, attributes } => {
                    if crate::value::same_text(t.as_str(), tag) {
                        let a = copy_attributes(attributes);
                        self.pos = self.pos + 1;
                        return Ok(a);
                    }
                },
                _ => {},
            }
        }
        Err(StreamError { position: self.pos })
    }

    /// Consumes the end of an element named `tag`; fails, consuming
    /// nothing, on any other event.
    pub fn expect_end(&mut self, tag: &str) -> (r: Result<(), StreamError>)
        requires
            old(self).wf(),
        ensures
            final(self).wf(),
            final(self).stream().0 == old(self).stream().0,
            ({
                let (es, k) = old(self).stream();
                match r {
                    Ok(_) => k < es.len() && es[k] == EventView::End(tag@) && final(self).stream().1 == k + 1,
                    Err(e) => !(k < es.len() && es[k] == EventView::End(tag@)) && e.position as int == k
                        && final(self).stream().1 == k,
                }
            }),
    {
        if self.pos < self.events.len() {
            match &self.events[self.pos] {
                Event::End { tag: t } => {
                    if crate::value::same_text(t.as_str(), tag) {
                        self.pos = self.pos + 1;
                        return Ok(());
                    }
                },
                _ => {},
            }
        }
        Err(StreamError { position: self.pos })
    }

    /// Consumes the text events that come next and returns their text,
    /// concatenated; stops before the first event that is not text.
    pub fn read_characters(&mut self) -> (r: String)
        requires
            old(self).wf(),
        ensures
            final(self).wf(),
            final(self).stream().0 == old(self).stream().0,
            r@ == text_run(old(self).stream().0, old(self).stream().1),
            final(self).stream().1 == text_run_end(old(self).stream().0, old(self).stream().1),
    {
        let ghost es = events_view(self.events@);
        let ghost start = self.pos as int;
        let mut out = String::new();
        while self.pos < self.events.len() && is_text(&self.events[self.pos])
            invariant
                self.pos <= self.events@.len(),
                es == events_view(self.events@),
                start <= self.pos,
                out@ + text_run(es, self.pos as int) == text_run(es, start),
                text_run_end(es, self.pos as int) == text_run_end(es, start),
            decreases self.events@.len() - self.pos,
        {
            match &self.events[self.pos] {
                Event::Text(s) => {
                    let ghost before = out@;
                    out.append(s.as_str());
                    assert(before + (s@ + text_run(es, self.pos + 1)) == (before + s@) + text_run(es, self.pos + 1));
                },
                _ => {},
            }
            self.pos = self.pos + 1;
        }
        assert(out@ + Seq::<char>::empty() == out@);
        out
    }

    /// Reads a property element: the start of an element whose tag is the
    /// property's wire tag and which carries a `name` attribute, its text,
    /// and its end.
    pub fn read_property(&mut self) -> (r: Result<RawProperty, StreamError>)
        requires
            old(self).wf(),
        ensures
            final(self).wf(),
            final(self).stream().0 == old(self).stream().0,
            match property_at(old(self).stream().0, old(self).stream().1) {
                Some((t, n, x, next)) => r matches Ok(p) && p.tag@ == t && p.name@ == n && p.text@ == x
                    && final(self).stream().1 == next,
                None => r is Err,
            },
    {
        let start = self.pos;
        let tag = match self.peek() {
            Some(Event::Start { tag, .. }) => tag.clone(),
            _ => return Err(StreamError { position: self.pos }),
        };
        let attributes = match self.expect_start(tag.as_str()) {
            Ok(a) => a,
            Err(e) => return Err(e),
        };
        let name = match find_attribute(&attributes, "name") {
            Some(n) => n,
            None => return Err(StreamError { position: start }),
        };
        let text = self.read_characters();
        match self.expect_end(tag.as_str()) {
            Ok(()) => {},
            Err(e) => return Err(e),
        }
        Ok(RawProperty { tag, name, text })
    }

    /// Reads the start of an instance element: an `Item` element carrying
    /// `class` and `referent` attributes, both required.
    pub fn read_item_start(&mut self) -> (r: Result<(String, String), StreamError>)
        requires
            old(self).wf(),
        ensures
            final(self).wf(),
            final(self).stream().0 == old(self).stream().0,
            match item_start_at(old(self).stream().0, old(self).stream().1) {
                Some((c, rf)) => r matches Ok((rc, rr)) && rc@ == c && rr@ == rf
                    && final(self).stream().1 == old(self).stream().1 + 1,
                None => r matches Err(e) && e.position as int == old(self).stream().1,
            },
    {
        let start = self.pos;
        let attributes = match self.expect_start("Item") {
            Ok(a) => a,
            Err(e) => return Err(e),
        };
        let class_name = match find_attribute(&attributes, "class") {
            Some(c) => c,
            None => {
                self.pos = start;
                return Err(StreamError { position: start });
            },
        };
        let referent = match find_attribute(&attributes, "referent") {
            Some(rf) => rf,
            None => {
                self.pos = start;
                return Err(StreamError { position: start });
            },
        };
        Ok((class_name, referent))
    }

    /// Reads a properties block: a `Properties` element holding property
    /// elements only.
    pub fn read_properties(&mut self) -> (r: Result<Vec<RawProperty>, StreamError>)
        requires
            old(self).wf(),
        ensures
            final(self).wf(),
            final(self).stream().0 == old(self).stream().0,
            match properties_block_at(old(self).stream().0, old(self).stream().1) {
                Some((ps, next)) => r matches Ok(v) && raw_props_view(v@) == ps && final(self).stream().1 == next,
                None => r is Err,
            },
    {
        let ghost es = events_view(self.events@);
        match self.expect_start("Properties") {
            Ok(_) => {},
            Err(e) => return Err(e),
        }
        let ghost first = self.pos as int;
        let mut out: Vec<RawProperty> = Vec::new();
        loop
            invariant
                self.wf(),
                self.stream().0 == es,
                es == old(self).stream().0,
                properties_block_at(es, old(self).stream().1) == properties_from(es, first),
                first <= self.stream().1,
                match properties_from(es, first) {
                    Some((ps, next)) => match properties_from(es, self.stream().1) {
                        Some((rest, next2)) => raw_props_view(out@) + rest == ps && next2 == next,
                        None => false,
                    },
                    None => properties_from(es, self.stream().1) is None,
                },
            decreases es.len() - self.stream().1,
        {
            let ghost k = self.stream().1;
            let at_end = match self.peek() {
                Some(Event::End { tag }) => crate::value::same_text(tag.as_str(), "Properties"),
                None => return Err(StreamError { position: self.pos }),
                _ => false,
            };
            if at_end {
                proof {
                    reveal_strlit("Properties");
                }
                let _ = self.next_event();
                assert(raw_props_view(out@) + Seq::empty() == raw_props_view(out@));
                return Ok(out);
            }
            let ghost before = out@;
            match self.read_property() {
                Ok(p) => {
                    proof {
                        lemma_text_run_end_ge(es, k + 1);
                        assert(es[k] != EventView::End("Properties"@));
                    }
                    out.push(p);
                    assert(raw_props_view(out@) == raw_props_view(before).push((p.tag@, p.name@, p.text@)));
                    proof {
                        let rest = properties_from(es, self.stream().1);
                        if let Some((rs, _)) = rest {
                            assert(raw_props_view(out@) + rs == raw_props_view(before) + (seq![(p.tag@, p.name@, p.text@)] + rs));
                        }
                    }
                },
                Err(e) => return Err(e),
            }
        }
    }

    /// Reads a whole document: a `roblox` root holding nested instance
    /// elements. Each instance element read records the index of the
    /// instance element it is nested in.
    pub fn read_document(&mut self) -> (r: Result<Vec<RawInstance>, StreamError>)
        requires
            old(self).wf(),
        ensures
            final(self).wf(),
            final(self).stream().0 == old(self).stream().0,
            match document_at(old(self).stream().0, old(self).stream().1) {
                Some((items, next)) => r matches Ok(v) && v@.map_values(|e: RawInstance| raw_instance_view(e)) == items
                    && final(self).stream().1 == next,
                None => r is Err,
            },
    {
        let ghost es = events_view(self.events@);
        match self.expect_start("roblox") {
            Ok(_) => {},
            Err(e) => return Err(e),
        }
        let ghost first = self.pos as int;
        let mut open: Vec<usize> = Vec::new();
        let mut out: Vec<RawInstance> = Vec::new();
        assert(open@.map_values(|i: usize| i as int) == Seq::<int>::empty());
        assert(out@.map_values(|e: RawInstance| raw_instance_view(e)) == Seq::<(Seq<char>, Seq<char>, Option<int>, Seq<(Seq<char>, Seq<char>, Seq<char>)>)>::empty());
        loop
            invariant
                self.wf(),
                self.stream().0 == es,
                es == old(self).stream().0,
                document_at(es, old(self).stream().1) == items_from(es, first, Seq::empty(), Seq::empty()),
                items_from(es, first, Seq::empty(), Seq::empty()) == items_from(
                    es,
                    self.stream().1,
                    open@.map_values(|i: usize| i as int),
                    out@.map_values(|e: RawInstance| raw_instance_view(e)),
                ),
                forall|j: int| 0 <= j < open@.len() ==> (#[trigger] open@[j]) < out@.len(),
            decreases es.len() - self.stream().1,
        {
            let ghost k = self.stream().1;
            let ghost ov = open@.map_values(|i: usize| i as int);
            let ghost av = out@.map_values(|e: RawInstance| raw_instance_view(e));
            let (is_root_end, is_item_end) = match self.peek() {
                Some(Event::End { tag }) => (
                    crate::value::same_text(tag.as_str(), "roblox"),
                    crate::value::same_text(tag.as_str(), "Item"),
                ),
                Some(_) => (false, false),
                None => return Err(StreamError { position: self.pos }),
            };
            if is_root_end {
                if open.len() == 0 {
                    let _ = self.next_event();
                    return Ok(out);
                }
                return Err(StreamError { position: self.pos });
            }
            if is_item_end {
                proof {
                    reveal_strlit("roblox");
                    reveal_strlit("Item");
                    assert("roblox"@.len() != "Item"@.len());
                }
                if open.len() == 0 {
                    return Err(StreamError { position: self.pos });
                }
                assert(es[k] == EventView::End("Item"@));
                assert(es[k] != EventView::End("roblox"@));
                let _ = self.next_event();
                let _ = open.pop();
                assert(open@.map_values(|i: usize| i as int) == ov.drop_last());
                assert(items_from(es, k, ov, av) == items_from(es, k + 1, ov.drop_last(), av));
            } else {
                proof {
                    reveal_strlit("roblox");
                    reveal_strlit("Item");
                }
                let (class_name, referent) = match self.read_item_start() {
                    Ok(h) => h,
                    Err(e) => return Err(e),
                };
                let properties = match self.read_properties() {
                    Ok(ps) => ps,
                    Err(e) => return Err(e),
                };
                proof {
                    lemma_properties_from_bounds(es, k + 2);
                    assert(item_start_at(es, k) is Some);
                    assert(es[k] != EventView::End("roblox"@));
                    assert(es[k] != EventView::End("Item"@));
                }
                let parent = if open.len() == 0 {
                    None
                } else {
                    Some(open[open.len() - 1])
                };
                let index = out.len();
                let ghost ps_view = raw_props_view(properties@);
                out.push(RawInstance { class_name, referent, parent, properties });
                open.push(index);
                assert(open@.map_values(|i: usize| i as int) == ov.push(index as int));
                assert(out@.map_values(|e: RawInstance| raw_instance_view(e)) == av.push(
                    raw_instance_view(out@[index as int]),
                ));
                proof {
                    if ov.len() > 0 {
                        assert(ov.last() == open@[ov.len() - 1] as int);
                    }
                }
            }
        }
    }
}

} // verus!
