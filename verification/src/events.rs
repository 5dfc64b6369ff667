//! The event entity and its reminder rule.

use vstd::prelude::*;

verus! {

/// When an event asks to be notified. Instants and durations are counted in
/// the same unit, as signed 64-bit integers.
#[derive(Clone, Copy, Debug, PartialEq, Eq)]
pub enum Reminder {
    /// Fires once, at a fixed instant.
    Absolute { at: i64 },
    /// Fires once, `delta` before the event's due instant.
    Offset { delta: i64 },
    /// Fires at `anchor`, `anchor + interval`, `anchor + 2 * interval`, ...
    Recurring { anchor: i64, interval: i64 },
    /// A stored rule that could not be understood. It never fires.
    Unrecognized,
}

/// A value of an event's custom data.
#[derive(Clone, Debug, PartialEq, Eq)]
pub enum Value {
    Text(Vec<u8>),
    Integer(i64),
}

/// One entry of an event's custom data: a value under a path.
#[derive(Clone, Debug, PartialEq, Eq)]
pub struct Field {
    pub path: Vec<u8>,
    pub value: Value,
}

/// An event's custom data: fields addressed by path. Where a path occurs
/// more than once, the first entry is the one that is found.
#[derive(Clone, Debug, PartialEq, Eq)]
pub struct Document {
    pub fields: Vec<Field>,
}

/// A user-created event. Text is held as UTF-8 bytes.
#[derive(Clone, Debug, PartialEq, Eq)]
pub struct AppEvent {
    pub id: i64,
    pub title: Vec<u8>,
    pub comment: Option<Vec<u8>>,
    pub complete: bool,
    pub due_ts: Option<i64>,
    pub reminder: Option<Reminder>,
    pub custom_data: Option<Document>,
    pub render: Option<Vec<u8>>,
    /// The latest fire instant that has been acknowledged, if any.
    pub last_fired: Option<i64>,
    pub update_ts: i64,
    pub create_ts: i64,
}

impl AppEvent {
    /// An event was not updated before it was created.
    pub open spec fn wf(&self) -> bool {
        self.update_ts >= self.create_ts
    }

    /// A new, open event with an empty title and nothing else set.
    pub fn new(id: i64, create_ts: i64) -> (e: AppEvent)
        ensures
            e.wf(),
            e.id == id,
            e.title@ == Seq::<u8>::empty(),
            e.comment is None,
            !e.complete,
            e.due_ts is None,
            e.reminder is None,
            e.custom_data is None,
            e.render is None,
            e.last_fired is None,
            e.update_ts == create_ts,
            e.create_ts == create_ts,
    {
        AppEvent {
            id,
            title: Vec::new(),
            comment: None,
            complete: false,
            due_ts: None,
            reminder: None,
            custom_data: None,
            render: None,
            last_fired: None,
            update_ts: create_ts,
            create_ts,
        }
    }
    /// The event with its completion flag set to `complete` at `now`. An
    /// update never moves the update instant back.
    pub open spec fn with_complete(self, complete: bool, now: i64) -> AppEvent {
        AppEvent {
            complete,
            update_ts: if now > self.update_ts {
                now
            } else {
                self.update_ts
            },
            ..self
        }
    }

    /// Completes the event, or reopens it, at `now`.
    pub fn set_complete(&mut self, complete: bool, now: i64)
        ensures
            *final(self) == old(self).with_complete(complete, now),
            old(self).wf() ==> final(self).wf(),
    {
        self.complete = complete;
        if now > self.update_ts {
            self.update_ts = now;
        }
    }
}

} // verus!
