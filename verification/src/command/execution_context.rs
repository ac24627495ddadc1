//! The state that the command handlers and the supervisor share: the event
//! queue, the flags of the running program and the data-ready line.

use crate::bytes::le16;
use crate::filevec::opened;
use crate::filevec::FileVec;
use crate::bytes::le32;
use crate::bytes::push_le16;
use crate::bytes::push_le32;
use vstd::prelude::*;
use vstd::string::StringExecFns;

verus! {

/// How often an event is offered to the on-board computer.
pub const EVENT_SEND_TRIES: u32 = 5;

/// The outcome of one execution of a student program.
#[derive(Clone, Copy, PartialEq, Eq, Debug, Structural)]
pub struct ProgramStatus {
    pub program_id: u16,
    pub timestamp: u32,
    pub exit_code: u8,
}

/// Names the result archive of one execution.
#[derive(Clone, Copy, PartialEq, Eq, Debug, Structural)]
pub struct ResultId {
    pub program_id: u16,
    pub timestamp: u32,
}

/// What the on-board computer is told on its next request for status.
#[derive(Clone, Copy, PartialEq, Eq, Debug, Structural)]
pub enum Event {
    Status(ProgramStatus),
    Result(ResultId),
    EnableDosimeter,
    DisableDosimeter,
}

/// An event with the number of times that it may still be offered.
#[derive(Clone, Copy, PartialEq, Eq, Debug)]
pub struct RetryEvent<T> {
    pub retries: u32,
    pub event: T,
}

impl<T> RetryEvent<T> {
    /// `event` with the full number of tries.
    pub fn new(event: T) -> (queued: Self)
        ensures
            queued.retries == EVENT_SEND_TRIES,
            queued.event == event,
    {
        Self { retries: EVENT_SEND_TRIES, event }
    }
}

impl Event {
    /// The event that a line on the event socket asks for: `dosimeter/on`
    /// and `dosimeter/off` switch the dosimeter; every other line is
    /// refused.
    pub open spec fn named(line: Seq<char>) -> Result<Event, ()> {
        if line == "dosimeter/on"@ {
            Ok(Event::EnableDosimeter)
        } else if line == "dosimeter/off"@ {
            Ok(Event::DisableDosimeter)
        } else {
            Err(())
        }
    }

    /// The event that `s` asks for.
    pub fn from_str(s: &str) -> (r: Result<Event, ()>)
        ensures
            r == Event::named(s@),
    {
        let line = <String as StringExecFns>::from_str(s);
        if line == <String as StringExecFns>::from_str("dosimeter/on") {
            Ok(Event::EnableDosimeter)
        } else if line == <String as StringExecFns>::from_str("dosimeter/off") {
            Ok(Event::DisableDosimeter)
        } else {
            Err(())
        }
    }

    /// The payload that reports this event: a tag, and for a status or a
    /// result the program id and the timestamp, little-endian, with the exit
    /// code behind them for a status.
    pub open spec fn bytes(self) -> Seq<u8> {
        match self {
            Event::Status(s) => seq![1u8] + le16(s.program_id) + le32(s.timestamp)
                + seq![s.exit_code],
            Event::Result(r) => seq![2u8] + le16(r.program_id) + le32(r.timestamp),
            Event::EnableDosimeter => seq![3u8],
            Event::DisableDosimeter => seq![4u8],
        }
    }
}

/// The conversion to bytes is specified by the contract of `from`, which
/// speaks of the view of the bytes.
impl vstd::std_specs::convert::FromSpecImpl<Event> for Vec<u8> {
    open spec fn obeys_from_spec() -> bool {
        false
    }

    open spec fn from_spec(value: Event) -> Self {
        arbitrary()
    }
}

impl From<Event> for Vec<u8> {
    /// The payload that reports `value`.
    fn from(value: Event) -> (v: Self)
        ensures
            v@ == value.bytes(),
    {
        let mut v: Vec<u8> = Vec::new();
        match value {
            Event::Status(s) => {
                v.push(1);
                push_le16(&mut v, s.program_id);
                push_le32(&mut v, s.timestamp);
                v.push(s.exit_code);
                assert(v@ =~= value.bytes());
            },
            Event::Result(r) => {
                v.push(2);
                push_le16(&mut v, r.program_id);
                push_le32(&mut v, r.timestamp);
                assert(v@ =~= value.bytes());
            },
            Event::EnableDosimeter => {
                v.push(3);
                assert(v@ =~= value.bytes());
            },
            Event::DisableDosimeter => {
                v.push(4);
                assert(v@ =~= value.bytes());
            },
        }
        v
    }
}

/// The data-ready line to the on-board computer, as it was last driven.
#[derive(Clone, Copy, PartialEq, Eq, Debug, Structural)]
pub struct UpdatePin {
    pub high: bool,
}

impl UpdatePin {
    /// A line that is low.
    pub fn new() -> (pin: Self)
        ensures
            !pin.high,
    {
        UpdatePin { high: false }
    }

    pub fn set_high(&mut self)
        ensures
            final(self).high,
    {
        self.high = true;
    }

    pub fn set_low(&mut self)
        ensures
            !final(self).high,
    {
        self.high = false;
    }
}

/// The queue of pending events, oldest first.
pub type EventQueue = Seq<RetryEvent<Event>>;

/// Every queued event has at least one try left, and no more than
/// `EVENT_SEND_TRIES`.
pub open spec fn tries_in_range(events: EventQueue) -> bool {
    forall|i: int| 0 <= i < events.len() ==> 1 <= (#[trigger] events[i]).retries <= EVENT_SEND_TRIES
}

/// The index of the earliest status in the queue, if there is one.
pub open spec fn first_status(events: EventQueue) -> Option<int>
    decreases events.len(),
{
    if events.len() == 0 {
        None
    } else if events[0].event is Status {
        Some(0)
    } else {
        match first_status(events.skip(1)) {
            Some(i) => Some(i + 1),
            None => None,
        }
    }
}

/// The index of the event that the next request for status reports: the
/// earliest status, or the earliest event where no status is queued.
pub open spec fn reported_index(events: EventQueue) -> int {
    match first_status(events) {
        Some(i) => i,
        None => 0,
    }
}

/// The payload that answers a request for status: `[0]` for an empty
/// queue, else the bytes of the reported event.
pub open spec fn status_reply(events: EventQueue) -> Seq<u8> {
    if events.len() == 0 {
        seq![0u8]
    } else {
        events[reported_index(events)].event.bytes()
    }
}

/// The queue after a request for status: the reported event has left it,
/// unless it is a result with more than one try left, which stays with one
/// try less.
pub open spec fn after_status(events: EventQueue) -> EventQueue {
    if events.len() == 0 {
        events
    } else {
        let at = reported_index(events);
        let reported = events[at];
        if reported.event is Result && reported.retries > 1 {
            events.update(
                at,
                RetryEvent { retries: (reported.retries - 1) as u32, event: reported.event },
            )
        } else {
            events.remove(at)
        }
    }
}

/// The answer to a request for status fits a data frame with room to spare.
pub proof fn lemma_reply_is_short(events: EventQueue)
    ensures
        1 <= status_reply(events).len() <= 8,
{
    if events.len() > 0 {
        lemma_first_status(events);
    }
}

/// The index of the earliest event for the result `id`, or the length of
/// the queue where there is none.
pub open spec fn result_index(events: EventQueue, id: ResultId) -> int
    decreases events.len(),
{
    if events.len() == 0 {
        0
    } else if events[0].event == Event::Result(id) {
        0
    } else {
        1 + result_index(events.skip(1), id)
    }
}

/// The queue without the earliest event for the result `id`.
pub open spec fn without_result(events: EventQueue, id: ResultId) -> EventQueue {
    let at = result_index(events, id);
    if at < events.len() {
        events.remove(at)
    } else {
        events
    }
}

/// `first_status` finds the earliest status: it is the index of a status
/// before which no status stands, and there is none only where no status
/// is queued.
pub proof fn lemma_first_status(events: EventQueue)
    ensures
        match first_status(events) {
            Some(at) => 0 <= at < events.len() && events[at].event is Status && forall|i: int|
                0 <= i < at ==> !((#[trigger] events[i]).event is Status),
            None => forall|i: int| 0 <= i < events.len() ==> !((#[trigger] events[i]).event is Status),
        },
    decreases events.len(),
{
    if events.len() > 0 && !(events[0].event is Status) {
        let rest = events.skip(1);
        lemma_first_status(rest);
        match first_status(rest) {
            Some(later) => {
                assert(rest[later] == events[later + 1]);
                assert forall|i: int| 0 <= i < later + 1 implies !((
                #[trigger] events[i]).event is Status) by {
                    if i > 0 {
                        assert(rest[i - 1] == events[i]);
                    }
                }
            },
            None => {
                assert forall|i: int| 0 <= i < events.len() implies !((
                #[trigger] events[i]).event is Status) by {
                    if i > 0 {
                        assert(rest[i - 1] == events[i]);
                    }
                }
            },
        }
    }
}

/// The result of `result_index` is an index of the earliest event for the
/// result, or the length of the queue.
pub proof fn lemma_result_index(events: EventQueue, id: ResultId)
    ensures
        0 <= result_index(events, id) <= events.len(),
        result_index(events, id) < events.len() ==> events[result_index(events, id)].event
            == Event::Result(id),
        forall|i: int|
            0 <= i < result_index(events, id) ==> (#[trigger] events[i]).event != Event::Result(id),
    decreases events.len(),
{
    if events.len() > 0 && events[0].event != Event::Result(id) {
        let rest = events.skip(1);
        lemma_result_index(rest, id);
        let later = result_index(rest, id);
        if later < rest.len() {
            assert(rest[later] == events[later + 1]);
        }
        assert forall|i: int| 0 <= i < 1 + later implies (#[trigger] events[i]).event
            != Event::Result(id) by {
            if i > 0 {
                assert(rest[i - 1] == events[i]);
            }
        }
    }
}

/// The state that the dispatcher, the supervisor and the event socket share.
pub struct ExecutionContext {
    /// Whether a supervisor is attached. It stays attached after its program
    /// has ended, until the next program is started or stopped.
    pub supervisor_attached: bool,
    /// Set while a program should run; cleared to tell the supervisor to
    /// stop it, and by the supervisor when the program has ended.
    pub running_flag: bool,
    /// The data-ready line.
    pub update_pin: UpdatePin,
    /// The events that wait for the on-board computer, oldest first.
    pub event_vec: FileVec<RetryEvent<Event>>,
}

impl ExecutionContext {
    /// The invariant of the shared state: every queued event has tries
    /// left, and the data-ready line is high exactly when events are queued.
    pub open spec fn well_formed(&self) -> bool {
        &&& tries_in_range(self.event_vec@)
        &&& self.update_pin.high == (self.event_vec@.len() > 0)
    }

    /// The shared state at start-up, with the queue that the event file
    /// holds; `event_file` are the contents of the file, empty where there
    /// was none. A queue with an event that has no try left, or more than
    /// `EVENT_SEND_TRIES`, makes the file invalid: the queue then starts
    /// empty, as it does for a file that cannot be decoded.
    pub fn new(event_file: &[u8]) -> (context: Self)
        ensures
            context.well_formed(),
            !context.supervisor_attached,
            !context.running_flag,
            context.event_vec@ == (if tries_in_range(opened(event_file@)) {
                opened(event_file@)
            } else {
                Seq::empty()
            }),
    {
        let stored = FileVec::from_file(event_file);
        let ghost queue = stored@;
        let mut valid = true;
        let mut i: usize = 0;
        while i < stored.as_ref().len()
            invariant
                i <= queue.len(),
                stored@ == queue,
                valid == tries_in_range(queue.take(i as int)),
            decreases queue.len() - i,
        {
            let tries = stored.index(i).retries;
            if tries < 1 || tries > EVENT_SEND_TRIES {
                valid = false;
            }
            proof {
                let before = queue.take(i as int);
                let now = queue.take(i + 1);
                assert(now[i as int] == queue[i as int]);
                assert forall|j: int| 0 <= j < before.len() implies before[j] == now[j] by {}
                if tries_in_range(now) {
                    assert forall|j: int| 0 <= j < before.len() implies 1 <= (
                    #[trigger] before[j]).retries <= EVENT_SEND_TRIES by {
                        assert(before[j] == now[j]);
                    }
                }
            }
            i += 1;
        }
        proof {
            assert(queue.take(i as int) =~= queue);
        }
        let mut context = ExecutionContext {
            supervisor_attached: false,
            running_flag: false,
            update_pin: UpdatePin::new(),
            event_vec: if valid {
                stored
            } else {
                FileVec::open(None)
            },
        };
        context.configure_update_pin();
        context
    }

    /// Drives the data-ready line: high where events are queued, low where
    /// none is.
    pub fn configure_update_pin(&mut self)
        ensures
            final(self).update_pin.high == (old(self).event_vec@.len() > 0),
            final(self).event_vec == old(self).event_vec,
            final(self).supervisor_attached == old(self).supervisor_attached,
            final(self).running_flag == old(self).running_flag,
    {
        if self.has_data_ready() {
            self.update_pin.set_high();
        } else {
            self.update_pin.set_low();
        }
    }

    /// Whether a supervisor is attached.
    pub fn is_student_program_running(&self) -> (running: bool)
        ensures
            running == self.supervisor_attached,
    {
        self.supervisor_attached
    }

    /// Whether events are queued.
    pub fn has_data_ready(&self) -> (ready: bool)
        ensures
            ready == (self.event_vec@.len() > 0),
    {
        self.event_vec.as_ref().len() > 0
    }

    /// Answers a request for status from the queue. The reply reports the
    /// earliest status, or the earliest event where no status is queued, or
    /// `[0]` where nothing is. The reported event leaves the queue, unless
    /// it is a result with more than one try left: that one stays, with one
    /// try less. The data-ready line follows the queue.
    pub fn next_status(&mut self) -> (reply: Vec<u8>)
        ensures
            reply@ == status_reply(old(self).event_vec@),
            final(self).event_vec@ == after_status(old(self).event_vec@),
            final(self).update_pin.high == (final(self).event_vec@.len() > 0),
            final(self).supervisor_attached == old(self).supervisor_attached,
            final(self).running_flag == old(self).running_flag,
            old(self).well_formed() ==> final(self).well_formed(),
    {
        if self.event_vec.as_ref().len() == 0 {
            self.configure_update_pin();
            let mut reply: Vec<u8> = Vec::new();
            reply.push(0);
            assert(reply@ =~= seq![0u8]);
            return reply;
        }
        let ghost queue = self.event_vec@;
        let mut index: usize = 0;
        let mut found = false;
        while !found && index < self.event_vec.as_ref().len()
            invariant
                self.event_vec@ == queue,
                index <= queue.len(),
                found ==> index < queue.len() && queue[index as int].event is Status,
                forall|i: int| 0 <= i < index ==> !((#[trigger] queue[i]).event is Status),
            decreases queue.len() - index + (if found { 0int } else { 1int }),
        {
            match self.event_vec.index(index).event {
                Event::Status(_) => {
                    found = true;
                },
                _ => {
                    index += 1;
                },
            }
        }
        if !found {
            index = 0;
        }
        proof {
            lemma_first_status(queue);
            match first_status(queue) {
                Some(at) => {
                    if at < index {
                    }
                },
                None => {},
            }
            assert(index == reported_index(queue));
        }
        let reported = *self.event_vec.index(index);
        let reply = Vec::from(reported.event);
        let stays = match reported.event {
            Event::Result(_) => reported.retries > 1,
            _ => false,
        };
        if stays {
            self.event_vec.as_mut().set(
                index,
                RetryEvent { retries: reported.retries - 1, event: reported.event },
            );
        } else {
            self.event_vec.remove(index);
        }
        self.configure_update_pin();
        reply
    }

    /// Takes the earliest event for the result `id` out of the queue, and
    /// lets the data-ready line follow. Returns whether there was such an
    /// event.
    pub fn delete_result(&mut self, id: ResultId) -> (found: bool)
        ensures
            found == (result_index(old(self).event_vec@, id) < old(self).event_vec@.len()),
            final(self).event_vec@ == without_result(old(self).event_vec@, id),
            final(self).update_pin.high == (final(self).event_vec@.len() > 0),
            final(self).supervisor_attached == old(self).supervisor_attached,
            final(self).running_flag == old(self).running_flag,
            old(self).well_formed() ==> final(self).well_formed(),
    {
        let ghost queue = self.event_vec@;
        let mut index: usize = 0;
        let mut found = false;
        while !found && index < self.event_vec.as_ref().len()
            invariant
                self.event_vec@ == queue,
                index <= queue.len(),
                found ==> index < queue.len() && queue[index as int].event == Event::Result(id),
                forall|i: int| 0 <= i < index ==> (#[trigger] queue[i]).event != Event::Result(id),
            decreases queue.len() - index + (if found { 0int } else { 1int }),
        {
            let matches = match self.event_vec.index(index).event {
                Event::Result(r) => r.program_id == id.program_id && r.timestamp == id.timestamp,
                _ => false,
            };
            if matches {
                found = true;
            } else {
                index += 1;
            }
        }
        proof {
            lemma_result_index(queue, id);
            let at = result_index(queue, id);
            if at < index {
            }
            if index < at {
            }
            assert(index == at);
        }
        if found {
            self.event_vec.remove(index);
        }
        self.configure_update_pin();
        found
    }

    /// Queues `event` with the full number of tries and raises the
    /// data-ready line.
    pub fn push_event(&mut self, event: Event)
        ensures
            final(self).event_vec@ == old(self).event_vec@.push(
                RetryEvent { retries: EVENT_SEND_TRIES, event },
            ),
            final(self).update_pin.high,
            final(self).supervisor_attached == old(self).supervisor_attached,
            final(self).running_flag == old(self).running_flag,
            old(self).well_formed() ==> final(self).well_formed(),
    {
        self.event_vec.push(RetryEvent::new(event));
        self.configure_update_pin();
    }

    /// Records that a supervisor was started: it is attached, and its
    /// program should run.
    pub fn supervisor_started(&mut self)
        ensures
            final(self).supervisor_attached,
            final(self).running_flag,
            final(self).event_vec == old(self).event_vec,
            final(self).update_pin == old(self).update_pin,
    {
        self.supervisor_attached = true;
        self.running_flag = true;
    }

    /// Records the end of an execution, as the supervisor does in one
    /// critical section: the status and then the result of the execution
    /// are queued, each with the full number of tries, the program no
    /// longer runs, and the data-ready line is raised.
    pub fn program_finished(&mut self, status: ProgramStatus)
        ensures
            final(self).event_vec@ == old(self).event_vec@.push(
                RetryEvent { retries: EVENT_SEND_TRIES, event: Event::Status(status) },
            ).push(
                RetryEvent {
                    retries: EVENT_SEND_TRIES,
                    event: Event::Result(
                        ResultId { program_id: status.program_id, timestamp: status.timestamp },
                    ),
                },
            ),
            !final(self).running_flag,
            final(self).update_pin.high,
            final(self).supervisor_attached == old(self).supervisor_attached,
            old(self).well_formed() ==> final(self).well_formed(),
    {
        let result = ResultId { program_id: status.program_id, timestamp: status.timestamp };
        self.event_vec.push(RetryEvent::new(Event::Status(status)));
        self.event_vec.push(RetryEvent::new(Event::Result(result)));
        self.running_flag = false;
        self.update_pin.set_high();
    }
}

} // verus!
