//! The event log: an append-only, timestamped record of what the simulation
//! did, with ids that only grow.

use vstd::prelude::*;

verus! {

#[derive(Clone, Copy, Debug, PartialEq, Eq, Structural)]
pub enum EventType {
    Success,
    Error,
    Info,
}

#[derive(Clone, Debug)]
pub struct EventLogEntry {
    pub id: usize,
    pub timestamp: String,
    pub message: String,
    pub event_type: EventType,
}

/// Entries in the order they were appended; `next_id` is the id of the next.
pub struct EventLog {
    entries: Vec<EventLogEntry>,
    next_id: usize,
}


/// `after` is `before` with one more entry: the next id, `timestamp`,
/// `event_type` and a message that reads `message`.
pub open spec fn appended_one(
    before: &EventLog,
    after: &EventLog,
    timestamp: String,
    event_type: EventType,
    message: Seq<char>,
) -> bool {
    &&& after.spec_next_id() == before.spec_next_id() + 1
    &&& after.spec_entries().len() == before.spec_entries().len() + 1
    &&& after.spec_entries().drop_last() == before.spec_entries()
    &&& after.spec_entries().last().id == before.spec_next_id()
    &&& after.spec_entries().last().timestamp == timestamp
    &&& after.spec_entries().last().event_type == event_type
    &&& after.spec_entries().last().message@ == message
}

/// `before` and `after` hold the same entries and the same next id.
pub open spec fn unchanged(before: &EventLog, after: &EventLog) -> bool {
    after.spec_entries() == before.spec_entries() && after.spec_next_id() == before.spec_next_id()
}

impl EventLog {
    pub closed spec fn spec_entries(&self) -> Seq<EventLogEntry> {
        self.entries@
    }

    pub closed spec fn spec_next_id(&self) -> nat {
        self.next_id as nat
    }

    /// Ids strictly increase along the log and stay below the next id.
    pub open spec fn wf(&self) -> bool {
        &&& forall|i: int, j: int|
            0 <= i < j < self.spec_entries().len() ==> (#[trigger] self.spec_entries()[i]).id
                < (#[trigger] self.spec_entries()[j]).id
        &&& forall|i: int|
            0 <= i < self.spec_entries().len() ==> (#[trigger] self.spec_entries()[i]).id
                < self.spec_next_id()
    }

    /// Whether another entry can be given an id.
    pub open spec fn has_room(&self) -> bool {
        self.spec_next_id() < usize::MAX
    }

    pub fn new() -> (r: Self)
        ensures
            r.wf(),
            r.spec_entries().len() == 0,
            r.spec_next_id() == 0,
    {
        EventLog { entries: Vec::new(), next_id: 0 }
    }

    pub fn entries(&self) -> (r: &Vec<EventLogEntry>)
        ensures
            r@ == self.spec_entries(),
    {
        &self.entries
    }

    pub fn next_id(&self) -> (r: usize)
        ensures
            r == self.spec_next_id(),
    {
        self.next_id
    }

    /// Appends an entry under the next id, which is returned.
    pub fn push(&mut self, timestamp: String, message: String, event_type: EventType) -> (r: usize)
        requires
            old(self).wf(),
            old(self).has_room(),
        ensures
            final(self).wf(),
            r == old(self).spec_next_id(),
            final(self).spec_next_id() == old(self).spec_next_id() + 1,
            final(self).spec_entries() == old(self).spec_entries().push(
                EventLogEntry { id: r, timestamp, message, event_type },
            ),
            appended_one(old(self), final(self), timestamp, event_type, message@),
    {
        let id = self.next_id;
        self.entries.push(EventLogEntry { id, timestamp, message, event_type });
        self.next_id = id + 1;
        proof {
            assert(self.entries@.drop_last() =~= old(self).entries@);
        }
        id
    }

    /// Empties the log; ids keep growing from where they were.
    pub fn clear(&mut self)
        ensures
            final(self).wf(),
            final(self).spec_entries().len() == 0,
            final(self).spec_next_id() == old(self).spec_next_id(),
    {
        self.entries.clear();
    }
}

} // verus!
