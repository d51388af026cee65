//! Whole documents as event streams: reading and decoding, encoding and
//! writing.
use vstd::prelude::*;
use crate::codec::{decode, decodes_to, document_error, encode, encodes_to, references_in_arena, DecodeError, Instance, RawInstance};
use crate::document::{document_at, open_after, parents_of, well_nested, events_view, raw_instances_view, Event, EventReader, EventWriter, StreamError};
use crate::schema::ReflectionDatabase;

verus! {

/// A failure to read a document: a malformed event stream, or a document
/// that does not decode.
#[derive(Debug)]
pub enum DocumentError {
    Stream(StreamError),
    Decode(DecodeError),
}

/// Every instance of `insts` is what the instance element at its index
/// decodes to.
pub open spec fn decodes_all(classes: Seq<crate::schema::ClassDescriptor>, raw: Seq<RawInstance>, insts: Seq<Instance>) -> bool {
    &&& insts.len() == raw.len()
    &&& forall|i: int| 0 <= i < raw.len() ==> decodes_to(classes, raw, i, #[trigger] insts[i])
}

/// Reads a document from `events` and decodes it into an arena of
/// instances.
pub fn decode_events(db: &ReflectionDatabase, events: Vec<Event>) -> (r: Result<Vec<Instance>, DocumentError>)
    ensures
        match document_at(events_view(events@), 0) {
            None => r matches Err(DocumentError::Stream(_)),
            Some((items, _)) => exists|raw: Seq<RawInstance>|
                #![trigger raw_instances_view(raw)]
                raw_instances_view(raw) == items && match document_error(db.classes@, raw) {
                    Some((k, i)) => r matches Err(DocumentError::Decode(e)) && e.kind@ == k && e.instance as int == i,
                    None => r matches Ok(insts) && decodes_all(db.classes@, raw, insts@),
                },
        },
{
    let mut reader = EventReader::new(events);
    let raw = match reader.read_document() {
        Ok(raw) => raw,
        Err(e) => return Err(DocumentError::Stream(e)),
    };
    let r = match decode(db, &raw) {
        Ok(insts) => Ok(insts),
        Err(e) => Err(DocumentError::Decode(e)),
    };
    assert(raw_instances_view(raw@) == raw_instances_view(raw@));
    r
}

/// The parent index of each instance of an arena.
pub open spec fn instance_parents(insts: Seq<Instance>) -> Seq<Option<usize>> {
    insts.map_values(|e: Instance| e.parent)
}

/// Encodes an arena of instances and writes it as a document. Succeeds
/// exactly where the arena is well nested; otherwise fails with the index of
/// the first instance whose parent is no longer open when it comes.
pub fn encode_events(db: &ReflectionDatabase, insts: &Vec<Instance>) -> (r: Result<Vec<Event>, usize>)
    requires
        references_in_arena(insts@),
    ensures
        r matches Ok(events) ==> exists|raw: Seq<RawInstance>|
            #![trigger raw_instances_view(raw)]
            raw.len() == insts@.len()
                && (forall|i: int| 0 <= i < insts@.len() ==> encodes_to(db.classes@, insts@, i, #[trigger] raw[i]))
                && document_at(events_view(events@), 0) == Some((raw_instances_view(raw), events@.len() as int)),
        r is Ok <==> well_nested(instance_parents(insts@)),
        r matches Err(i) ==> i < insts@.len() && open_after(instance_parents(insts@), i as int) is Some
            && open_after(instance_parents(insts@), i + 1) is None,
{
    let raw = encode(db, insts);
    assert(parents_of(raw@) =~= instance_parents(insts@)) by {
        assert forall|i: int| 0 <= i < raw@.len() implies parents_of(raw@)[i] == instance_parents(insts@)[i] by {
            assert(encodes_to(db.classes@, insts@, i, raw@[i]));
        }
    }
    let mut w = EventWriter::new();
    match w.write_document(&raw) {
        Ok(()) => {
            assert(events_view(w.events@).len() == w.events@.len());
            assert(raw_instances_view(raw@) == raw_instances_view(raw@));
            Ok(w.events)
        },
        Err(i) => Err(i),
    }
}

} // verus!
