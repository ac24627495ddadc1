//! An ordered sequence that is kept in a file.
//!
//! The sequence lives in memory, where it is read. Whoever changes it writes
//! its image to the file before the change counts as done, so that the
//! sequence comes back when the file is opened again. The image is
//! MessagePack.

use crate::command::execution_context::Event;
use crate::command::execution_context::ProgramStatus;
use crate::command::execution_context::ResultId;
use crate::command::execution_context::RetryEvent;
use vstd::prelude::*;

verus! {

/// A sequence with a backing file.
#[derive(Debug)]
pub struct FileVec<T> {
    vec: Vec<T>,
}

impl<T> View for FileVec<T> {
    type V = Seq<T>;

    closed spec fn view(&self) -> Seq<T> {
        self.vec@
    }
}

impl<T> FileVec<T> {
    /// The sequence that a file held, or the empty sequence where the file
    /// was new, empty or not to be decoded.
    pub fn open(stored: Option<Vec<T>>) -> (opened: Self)
        ensures
            opened@ == (match stored {
                Some(vec) => vec@,
                None => Seq::empty(),
            }),
    {
        match stored {
            Some(vec) => FileVec { vec },
            None => FileVec { vec: Vec::new() },
        }
    }

    /// Appends `value`.
    pub fn push(&mut self, value: T)
        ensures
            final(self)@ == old(self)@.push(value),
    {
        self.vec.push(value);
    }

    /// Takes the last element off, if there is one.
    pub fn pop(&mut self) -> (value: Option<T>)
        ensures
            old(self)@.len() == 0 ==> value is None && final(self)@ == old(self)@,
            old(self)@.len() > 0 ==> value == Some(old(self)@.last()) && final(self)@ == old(self)@.drop_last(),
    {
        self.vec.pop()
    }

    /// Takes the element at `index` out.
    pub fn remove(&mut self, index: usize) -> (value: T)
        requires
            index < old(self)@.len(),
        ensures
            value == old(self)@[index as int],
            final(self)@ == old(self)@.remove(index as int),
    {
        self.vec.remove(index)
    }

    /// Appends all of `values`, in their order.
    pub fn extend(&mut self, values: Vec<T>)
        ensures
            final(self)@ == old(self)@ + values@,
    {
        let mut values = values;
        self.vec.append(&mut values);
    }

    /// The sequence, to read.
    pub fn as_ref(&self) -> (vec: &Vec<T>)
        ensures
            vec@ == self@,
    {
        &self.vec
    }

    /// The sequence, to change in place. The changes are in the sequence
    /// when the borrow ends.
    pub fn as_mut(&mut self) -> (vec: &mut Vec<T>)
        ensures
            vec@ == old(self)@,
            final(self)@ == final(vec)@,
    {
        &mut self.vec
    }

    /// The element at `index`.
    pub fn index(&self, index: usize) -> (value: &T)
        requires
            index < self@.len(),
        ensures
            *value == self@[index as int],
    {
        &self.vec[index]
    }
}

/// What the file holds of one queued event: the tries that are left, the
/// tag of the event, the program id, the timestamp and the exit code.
/// Fields that the event does not have are zero.
pub type Record = (u32, u8, u16, u32, u8);

/// The MessagePack image of `records`, or `None` where encoding fails.
pub uninterp spec fn msgpack_image(records: Seq<Record>) -> Option<Seq<u8>>;

/// The records that MessagePack decodes from `bytes`, or `None` where
/// `bytes` are no image of records.
pub uninterp spec fn msgpack_records(bytes: Seq<u8>) -> Option<Seq<Record>>;

/// Encodes `records` with `rmp_serde::to_vec`, as an array of arrays of
/// integers. The contract names the image, a function of the records.
#[verifier::external_body]
fn encode_records(records: &Vec<Record>) -> (image: Option<Vec<u8>>)
    ensures
        crate::simple_archive::optional_bytes(image) == msgpack_image(records@),
{
    rmp_serde::to_vec(records).ok()
}

/// Decodes records with `rmp_serde::from_slice`. The contract names what
/// comes out, a function of the bytes.
#[verifier::external_body]
fn decode_records(bytes: &[u8]) -> (records: Option<Vec<Record>>)
    ensures
        (match records {
            Some(records) => Some(records@),
            None => None,
        }) == msgpack_records(bytes@),
{
    rmp_serde::from_slice(bytes).ok()
}

/// The record of a queued event.
pub open spec fn record_of(queued: RetryEvent<Event>) -> Record {
    match queued.event {
        Event::Status(s) => (queued.retries, 1u8, s.program_id, s.timestamp, s.exit_code),
        Event::Result(r) => (queued.retries, 2u8, r.program_id, r.timestamp, 0u8),
        Event::EnableDosimeter => (queued.retries, 3u8, 0u16, 0u32, 0u8),
        Event::DisableDosimeter => (queued.retries, 4u8, 0u16, 0u32, 0u8),
    }
}

/// The queued event of a record, or `None` where the tag names no event.
pub open spec fn event_of(record: Record) -> Option<RetryEvent<Event>> {
    if record.1 == 1 {
        Some(
            RetryEvent {
                retries: record.0,
                event: Event::Status(
                    ProgramStatus { program_id: record.2, timestamp: record.3, exit_code: record.4 },
                ),
            },
        )
    } else if record.1 == 2 {
        Some(
            RetryEvent {
                retries: record.0,
                event: Event::Result(ResultId { program_id: record.2, timestamp: record.3 }),
            },
        )
    } else if record.1 == 3 {
        Some(RetryEvent { retries: record.0, event: Event::EnableDosimeter })
    } else if record.1 == 4 {
        Some(RetryEvent { retries: record.0, event: Event::DisableDosimeter })
    } else {
        None
    }
}

/// The records of a queue.
pub open spec fn records_of(events: Seq<RetryEvent<Event>>) -> Seq<Record> {
    events.map_values(|queued: RetryEvent<Event>| record_of(queued))
}

/// The queue of `records`, or `None` where one of them is no event.
pub open spec fn events_of(records: Seq<Record>) -> Option<Seq<RetryEvent<Event>>> {
    if forall|i: int| 0 <= i < records.len() ==> (#[trigger] event_of(records[i])) is Some {
        Some(records.map_values(|record: Record| event_of(record)->Some_0))
    } else {
        None
    }
}

/// The image of a queue in its file.
pub open spec fn image_of(events: Seq<RetryEvent<Event>>) -> Option<Seq<u8>> {
    msgpack_image(records_of(events))
}

/// The queue that a file with the contents `contents` holds: the empty
/// queue where the file is empty, where it is not to be decoded, and where
/// it decodes to something that is no queue.
pub open spec fn opened(contents: Seq<u8>) -> Seq<RetryEvent<Event>> {
    if contents.len() == 0 {
        Seq::empty()
    } else {
        match msgpack_records(contents) {
            None => Seq::empty(),
            Some(records) => match events_of(records) {
                None => Seq::empty(),
                Some(events) => events,
            },
        }
    }
}

impl FileVec<RetryEvent<Event>> {
    /// Opens the queue from the contents of its file.
    pub fn from_file(contents: &[u8]) -> (queue: Self)
        ensures
            queue@ == opened(contents@),
    {
        if contents.len() == 0 {
            return FileVec { vec: Vec::new() };
        }
        let records = match decode_records(contents) {
            Some(records) => records,
            None => {
                return FileVec { vec: Vec::new() };
            },
        };
        let mut vec: Vec<RetryEvent<Event>> = Vec::new();
        let mut i: usize = 0;
        while i < records.len()
            invariant
                i <= records.len(),
                vec@.len() == i,
                contents@.len() > 0,
                msgpack_records(contents@) == Some(records@),
                forall|j: int| 0 <= j < i ==> (#[trigger] event_of(records@[j])) == Some(vec@[j]),
            decreases records.len() - i,
        {
            let record = records[i];
            let event = if record.1 == 1 {
                Event::Status(
                    ProgramStatus { program_id: record.2, timestamp: record.3, exit_code: record.4 },
                )
            } else if record.1 == 2 {
                Event::Result(ResultId { program_id: record.2, timestamp: record.3 })
            } else if record.1 == 3 {
                Event::EnableDosimeter
            } else if record.1 == 4 {
                Event::DisableDosimeter
            } else {
                assert(event_of(records@[i as int]) is None);
                return FileVec { vec: Vec::new() };
            };
            vec.push(RetryEvent { retries: record.0, event });
            i += 1;
        }
        proof {
            assert(events_of(records@) is Some);
            assert(vec@ =~= events_of(records@)->Some_0);
        }
        FileVec { vec }
    }

    /// The bytes that the file is to hold for the queue as it stands, or
    /// `None` where encoding fails.
    pub fn image(&self) -> (image: Option<Vec<u8>>)
        ensures
            crate::simple_archive::optional_bytes(image) == image_of(self@),
    {
        let mut records: Vec<Record> = Vec::new();
        let mut i: usize = 0;
        while i < self.vec.len()
            invariant
                i <= self.vec@.len(),
                records@.len() == i,
                forall|j: int| 0 <= j < i ==> records@[j] == record_of(#[trigger] self.vec@[j]),
            decreases self.vec.len() - i,
        {
            let queued = self.vec[i];
            let record: Record = match queued.event {
                Event::Status(s) => (queued.retries, 1u8, s.program_id, s.timestamp, s.exit_code),
                Event::Result(r) => (queued.retries, 2u8, r.program_id, r.timestamp, 0u8),
                Event::EnableDosimeter => (queued.retries, 3u8, 0u16, 0u32, 0u8),
                Event::DisableDosimeter => (queued.retries, 4u8, 0u16, 0u32, 0u8),
            };
            records.push(record);
            i += 1;
        }
        proof {
            assert(records@ =~= records_of(self@));
        }
        encode_records(&records)
    }
}

/// Every queued event comes back from its record.
pub proof fn lemma_record_round_trip(queued: RetryEvent<Event>)
    ensures
        event_of(record_of(queued)) == Some(queued),
{
}

/// Reopening the backing file yields the sequence that was in memory when
/// the file was written: a queue that is not empty comes back from its
/// image, wherever MessagePack decodes the records that it encoded.
pub proof fn lemma_reopen_yields_same(events: Seq<RetryEvent<Event>>)
    requires
        image_of(events) is Some,
        msgpack_records(image_of(events)->Some_0) == Some(records_of(events)),
        events.len() > 0 ==> image_of(events)->Some_0.len() > 0,
    ensures
        opened(image_of(events)->Some_0) == events,
{
    let records = records_of(events);
    assert forall|i: int| 0 <= i < records.len() implies (#[trigger] event_of(records[i])) is Some by {
        lemma_record_round_trip(events[i]);
    }
    let back = events_of(records)->Some_0;
    assert(back =~= events) by {
        assert forall|i: int| 0 <= i < events.len() implies back[i] == events[i] by {
            lemma_record_round_trip(events[i]);
        }
    }
    if image_of(events)->Some_0.len() == 0 {
        assert(events =~= Seq::<RetryEvent<Event>>::empty());
    }
}

/// Opening a file whose contents cannot be decoded yields an empty
/// sequence.
pub proof fn lemma_undecodable_opens_empty(contents: Seq<u8>)
    requires
        msgpack_records(contents) is None || events_of(msgpack_records(contents)->Some_0) is None,
    ensures
        opened(contents) == Seq::<RetryEvent<Event>>::empty(),
{
}

} // verus!
