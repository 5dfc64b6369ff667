//! The store adapter: from the stored row of an event to the event, and the
//! address of the database.

use vstd::prelude::*;
use crate::codec::parse_reminder;
use crate::codec::parsed;
use crate::events::AppEvent;
use crate::events::Document;
use crate::events::Reminder;
use crate::payload::entries;
use crate::payload::parse_document;
use crate::payload::reads;
use crate::text::copy_bytes;

verus! {

/// An event as the store holds it: the rules and the custom data as text.
#[derive(Clone, Debug, PartialEq, Eq)]
pub struct EventRow {
    pub id: i64,
    pub title: Vec<u8>,
    pub comment: Option<Vec<u8>>,
    pub complete: bool,
    pub due_ts: Option<i64>,
    pub reminder: Option<Vec<u8>>,
    pub custom_data: Option<Vec<u8>>,
    pub render: Option<Vec<u8>>,
    pub last_fired: Option<i64>,
    pub update_ts: i64,
    pub create_ts: i64,
}

/// Two optional texts are both absent, or hold the same bytes.
pub open spec fn same_text(a: Option<Vec<u8>>, b: Option<Vec<u8>>) -> bool {
    match (a, b) {
        (Some(x), Some(y)) => x@ == y@,
        (None, None) => true,
        _ => false,
    }
}

/// The reminder that a stored text writes; none where there is no text.
pub open spec fn reminder_of(text: Option<Vec<u8>>) -> Option<Reminder> {
    match text {
        Some(t) => Some(parsed(t@)),
        None => None,
    }
}

/// `data` is the custom data that a stored text writes.
pub open spec fn data_of(data: Option<Document>, text: Option<Vec<u8>>) -> bool {
    match (data, text) {
        (Some(doc), Some(t)) => reads(doc.fields@, t@, entries(t@, 0)),
        (None, None) => true,
        _ => false,
    }
}

/// `e` is the event that the row `row` holds.
pub open spec fn loaded(e: AppEvent, row: EventRow) -> bool {
    &&& e.id == row.id
    &&& e.title@ == row.title@
    &&& same_text(e.comment, row.comment)
    &&& e.complete == row.complete
    &&& e.due_ts == row.due_ts
    &&& e.reminder == reminder_of(row.reminder)
    &&& data_of(e.custom_data, row.custom_data)
    &&& same_text(e.render, row.render)
    &&& e.last_fired == row.last_fired
    &&& e.update_ts == row.update_ts
    &&& e.create_ts == row.create_ts
}

/// A copy of a text.
pub fn copy_text(t: &Vec<u8>) -> (c: Vec<u8>)
    ensures
        c@ == t@,
{
    let mut c: Vec<u8> = Vec::new();
    copy_bytes(&mut c, t.as_slice(), 0, t.len());
    assert(c@ =~= t@);
    c
}

/// A copy of an optional text.
pub fn copy_optional(t: &Option<Vec<u8>>) -> (c: Option<Vec<u8>>)
    ensures
        same_text(c, *t),
{
    match t {
        Some(x) => Some(copy_text(x)),
        None => None,
    }
}

/// Reads an event from its row. No row fails: a reminder text that is not
/// understood gives a reminder that never fires.
pub fn load(row: &EventRow) -> (e: AppEvent)
    ensures
        loaded(e, *row),
        row.update_ts >= row.create_ts ==> e.wf(),
{
    let reminder: Option<Reminder> = match &row.reminder {
        Some(t) => Some(parse_reminder(t.as_slice())),
        None => None,
    };
    let custom_data: Option<Document> = match &row.custom_data {
        Some(t) => Some(parse_document(t.as_slice())),
        None => None,
    };
    AppEvent {
        id: row.id,
        title: copy_text(&row.title),
        comment: copy_optional(&row.comment),
        complete: row.complete,
        due_ts: row.due_ts,
        reminder,
        custom_data,
        render: copy_optional(&row.render),
        last_fired: row.last_fired,
        update_ts: row.update_ts,
        create_ts: row.create_ts,
    }
}

/// The scheme that a database address starts with: `sqlite:`.
pub open spec fn scheme() -> Seq<u8> {
    seq![115u8, 113u8, 108u8, 105u8, 116u8, 101u8, 58u8]
}

/// The address of the database file at `path`: the scheme, then the path.
pub fn db_url(path: &[u8]) -> (url: Vec<u8>)
    ensures
        url@ == scheme() + path@,
{
    let mut url: Vec<u8> = vec![115u8, 113u8, 108u8, 105u8, 116u8, 101u8, 58u8];
    assert(url@ =~= scheme());
    copy_bytes(&mut url, path, 0, path.len());
    assert(path@.subrange(0, path@.len() as int) =~= path@);
    url
}

} // verus!
