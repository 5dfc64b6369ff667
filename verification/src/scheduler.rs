//! The scheduler's decisions: the phases of a cycle, which events of a scan
//! are notified, and what an acknowledged firing changes on an event. The
//! caller owns the loop: it reads the store, delivers the notices and writes
//! the acknowledged events back.

use vstd::prelude::*;
use vstd::arithmetic::div_mod::lemma_fundamental_div_mod;
use vstd::arithmetic::div_mod::lemma_mod_bound;
use crate::events::AppEvent;
use crate::events::Reminder;
use crate::codec::write_reminder;
use crate::codec::written;
use crate::reminder::evaluate;
use crate::reminder::fits;
use crate::reminder::lemma_missed_boundaries_coalesce;
use crate::reminder::verdict_at;
use crate::reminder::Verdict;
use crate::render::render;
use crate::render::rendering;

verus! {

/// Where the scheduler stands in its cycle.
#[derive(Clone, Copy, Debug, PartialEq, Eq)]
pub enum Phase {
    Idle,
    Scanning,
    Evaluating,
    Notifying,
    Persisting,
    Stopped,
}

/// What the caller reports to the scheduler.
#[derive(Clone, Copy, Debug, PartialEq, Eq)]
pub enum Signal {
    /// The tick interval has passed.
    Tick,
    /// An explicit wake.
    Wake,
    /// The work of the current phase is done.
    Done,
    /// The scheduler is asked to stop.
    Stop,
}

/// The scheduler's state: its phase, and whether a stop was asked for while
/// a cycle was running.
#[derive(Clone, Copy, Debug, PartialEq, Eq)]
pub struct Scheduler {
    pub phase: Phase,
    pub stop_requested: bool,
}

/// The state after `signal`. A cycle starts from `Idle` on a tick or a wake
/// and runs through its phases in order, one for each `Done`. A stop is
/// honoured at once when idle; inside a cycle it is noted and honoured when
/// persisting is done. Ticks and wakes inside a cycle change nothing.
pub open spec fn after(s: Scheduler, signal: Signal) -> Scheduler {
    match (s.phase, signal) {
        (Phase::Stopped, _) => s,
        (Phase::Idle, Signal::Tick) => Scheduler { phase: Phase::Scanning, stop_requested: false },
        (Phase::Idle, Signal::Wake) => Scheduler { phase: Phase::Scanning, stop_requested: false },
        (Phase::Idle, Signal::Stop) => Scheduler { phase: Phase::Stopped, stop_requested: false },
        (Phase::Idle, Signal::Done) => s,
        (_, Signal::Stop) => Scheduler { phase: s.phase, stop_requested: true },
        (Phase::Scanning, Signal::Done) => Scheduler { phase: Phase::Evaluating, ..s },
        (Phase::Evaluating, Signal::Done) => Scheduler { phase: Phase::Notifying, ..s },
        (Phase::Notifying, Signal::Done) => Scheduler { phase: Phase::Persisting, ..s },
        (Phase::Persisting, Signal::Done) => if s.stop_requested {
            Scheduler { phase: Phase::Stopped, stop_requested: false }
        } else {
            Scheduler { phase: Phase::Idle, stop_requested: false }
        },
        (_, _) => s,
    }
}

impl Scheduler {
    /// An idle scheduler.
    pub fn new() -> (s: Scheduler)
        ensures
            s == (Scheduler { phase: Phase::Idle, stop_requested: false }),
    {
        Scheduler { phase: Phase::Idle, stop_requested: false }
    }

    /// Takes one signal.
    pub fn step(&mut self, signal: Signal)
        ensures
            *final(self) == after(*old(self), signal),
    {
        match self.phase {
            Phase::Stopped => {},
            Phase::Idle => match signal {
                Signal::Tick | Signal::Wake => {
                    self.phase = Phase::Scanning;
                    self.stop_requested = false;
                },
                Signal::Stop => {
                    self.phase = Phase::Stopped;
                    self.stop_requested = false;
                },
                Signal::Done => {},
            },
            Phase::Scanning => match signal {
                Signal::Stop => {
                    self.stop_requested = true;
                },
                Signal::Done => {
                    self.phase = Phase::Evaluating;
                },
                _ => {},
            },
            Phase::Evaluating => match signal {
                Signal::Stop => {
                    self.stop_requested = true;
                },
                Signal::Done => {
                    self.phase = Phase::Notifying;
                },
                _ => {},
            },
            Phase::Notifying => match signal {
                Signal::Stop => {
                    self.stop_requested = true;
                },
                Signal::Done => {
                    self.phase = Phase::Persisting;
                },
                _ => {},
            },
            Phase::Persisting => match signal {
                Signal::Stop => {
                    self.stop_requested = true;
                },
                Signal::Done => {
                    self.phase = if self.stop_requested {
                        Phase::Stopped
                    } else {
                        Phase::Idle
                    };
                    self.stop_requested = false;
                },
                _ => {},
            },
        }
    }
}

/// A stop that arrives inside a cycle does not interrupt it: the phase
/// stays, and the cycle still ends, stopped, after four more `Done` at most.
pub proof fn lemma_stop_waits_for_the_cycle(s: Scheduler)
    requires
        s.phase != Phase::Idle,
        s.phase != Phase::Stopped,
    ensures
        after(s, Signal::Stop).phase == s.phase,
        after(s, Signal::Stop).stop_requested,
        after(
            after(after(after(after(s, Signal::Stop), Signal::Done), Signal::Done), Signal::Done),
            Signal::Done,
        ).phase == Phase::Stopped,
{
}

/// The store's read constraint: an event is scanned where it is open and
/// has a reminder.
pub fn is_candidate(e: &AppEvent) -> (yes: bool)
    ensures
        yes == (!e.complete && e.reminder is Some),
{
    !e.complete && e.reminder.is_some()
}

/// One notification to deliver, and the firing to acknowledge once it is.
#[derive(Clone, Debug, PartialEq, Eq)]
pub struct Notice {
    /// The event's place in the scanned list.
    pub index: usize,
    pub event_id: i64,
    pub fire_instant: i64,
    pub next_anchor: Option<i64>,
    pub text: Vec<u8>,
    /// The offsets in the render rule of the substitutions left empty.
    pub unresolved: Vec<usize>,
}

/// The event is notified at `now`: it is due and its render rule is valid.
pub open spec fn notified(e: AppEvent, now: int) -> bool {
    verdict_at(e, now) is Due && rendering(e.render, e.custom_data, e.title@) is Some
}

/// `n` is the notice of the event `e`, at place `index`, at `now`.
pub open spec fn notice_of(n: Notice, e: AppEvent, index: int, now: int) -> bool {
    &&& n.index == index
    &&& n.event_id == e.id
    &&& verdict_at(e, now) == (Verdict::Due {
        fire_instant: n.fire_instant,
        next_anchor: n.next_anchor,
    })
    &&& rendering(e.render, e.custom_data, e.title@) == Some((n.text@, n.unresolved@))
}

/// The notices of `events[..upto]` are exactly `notices`, in the order of
/// the events.
pub open spec fn plans(notices: Seq<Notice>, events: Seq<AppEvent>, upto: int, now: int) -> bool {
    &&& forall|k: int|
        0 <= k < notices.len() ==> 0 <= #[trigger] notices[k].index < upto && notice_of(
            notices[k],
            events[notices[k].index as int],
            notices[k].index as int,
            now,
        )
    &&& forall|a: int, b: int|
        0 <= a < b < notices.len() ==> #[trigger] notices[a].index < #[trigger] notices[b].index
    &&& forall|i: int|
        0 <= i < upto && #[trigger] notified(events[i], now) ==> exists|k: int|
            0 <= k < notices.len() && #[trigger] notices[k].index == i
}

/// Evaluates every scanned event at `now` and renders the due ones. An event
/// whose render rule is invalid is skipped, so that it does not stop the
/// others; `render_failures` lists those events.
pub fn plan(events: &Vec<AppEvent>, now: i64) -> (notices: Vec<Notice>)
    ensures
        plans(notices@, events@, events@.len() as int, now as int),
{
    let mut notices: Vec<Notice> = Vec::new();
    let mut i: usize = 0;
    while i < events.len()
        invariant
            i <= events@.len(),
            plans(notices@, events@, i as int, now as int),
        decreases events@.len() - i,
    {
        let e = &events[i];
        let ghost before = notices@;
        match evaluate(e, now) {
            Verdict::Due { fire_instant, next_anchor } => {
                match render(&e.render, &e.custom_data, &e.title) {
                    Ok(shown) => {
                        notices.push(
                            Notice {
                                index: i,
                                event_id: e.id,
                                fire_instant,
                                next_anchor,
                                text: shown.text,
                                unresolved: shown.unresolved,
                            },
                        );
                        proof {
                            let last = before.len() as int;
                            assert(notices@[last].index == i);
                            assert forall|j: int|
                                0 <= j < i + 1 && #[trigger] notified(
                                    events@[j],
                                    now as int,
                                ) implies exists|k: int|
                                0 <= k < notices@.len() && #[trigger] notices@[k].index == j by {
                                if j < i {
                                    let k = choose|k: int|
                                        0 <= k < before.len() && #[trigger] before[k].index == j;
                                    assert(notices@[k].index == j);
                                } else {
                                    assert(notices@[last].index == j);
                                }
                            }
                        }
                    },
                    Err(_) => {},
                }
            },
            _ => {},
        }
        i += 1;
    }
    notices
}

/// The event is due at `now` but cannot be notified: its render rule is
/// invalid.
pub open spec fn unrenderable(e: AppEvent, now: int) -> bool {
    verdict_at(e, now) is Due && rendering(e.render, e.custom_data, e.title@) is None
}

/// `places` are exactly the places in `events[..upto]` of the events that
/// are due but cannot be rendered, in the order of the events.
pub open spec fn lists_failures(places: Seq<usize>, events: Seq<AppEvent>, upto: int, now: int) -> bool {
    &&& forall|k: int|
        0 <= k < places.len() ==> 0 <= #[trigger] places[k] < upto && unrenderable(
            events[places[k] as int],
            now,
        )
    &&& forall|a: int, b: int|
        0 <= a < b < places.len() ==> #[trigger] places[a] < #[trigger] places[b]
    &&& forall|i: int|
        0 <= i < upto && #[trigger] unrenderable(events[i], now) ==> exists|k: int|
            0 <= k < places.len() && #[trigger] places[k] == i
}

/// The places of the scanned events that `plan` passes over because their
/// render rule is invalid, for the caller to report: such an event is due,
/// gets no notice and no acknowledgment, and stays due until its rule is
/// mended.
pub fn render_failures(events: &Vec<AppEvent>, now: i64) -> (places: Vec<usize>)
    ensures
        lists_failures(places@, events@, events@.len() as int, now as int),
{
    let mut places: Vec<usize> = Vec::new();
    let mut i: usize = 0;
    while i < events.len()
        invariant
            i <= events@.len(),
            lists_failures(places@, events@, i as int, now as int),
        decreases events@.len() - i,
    {
        let e = &events[i];
        let ghost before = places@;
        match evaluate(e, now) {
            Verdict::Due { fire_instant, next_anchor } => {
                match render(&e.render, &e.custom_data, &e.title) {
                    Ok(_) => {},
                    Err(_) => {
                        places.push(i);
                        proof {
                            let last = before.len() as int;
                            assert(places@[last] == i);
                            assert forall|j: int|
                                0 <= j < i + 1 && #[trigger] unrenderable(
                                    events@[j],
                                    now as int,
                                ) implies exists|k: int|
                                0 <= k < places@.len() && #[trigger] places@[k] == j by {
                                if j < i {
                                    let k = choose|k: int|
                                        0 <= k < before.len() && #[trigger] before[k] == j;
                                    assert(places@[k] == j);
                                } else {
                                    assert(places@[last] == j);
                                }
                            }
                        }
                    },
                }
            },
            _ => {},
        }
        i += 1;
    }
    places
}

/// Every due event is either notified or listed as a render failure, never
/// both: none is passed over in silence.
pub proof fn lemma_due_is_notified_or_reported(e: AppEvent, now: int)
    requires
        verdict_at(e, now) is Due,
    ensures
        notified(e, now) != unrenderable(e, now),
{
}

/// The event after the firing at `fire_instant` was acknowledged at `now`:
/// the firing is marked, a recurring reminder moves to `next_anchor` where
/// there is one, and the event counts as updated at `now`.
pub open spec fn acknowledged_event(
    e: AppEvent,
    fire_instant: i64,
    next_anchor: Option<i64>,
    now: i64,
) -> AppEvent {
    AppEvent {
        last_fired: Some(fire_instant),
        update_ts: if now > e.update_ts {
            now
        } else {
            e.update_ts
        },
        reminder: match (e.reminder, next_anchor) {
            (Some(Reminder::Recurring { anchor, interval }), Some(n)) => Some(
                Reminder::Recurring { anchor: n, interval },
            ),
            _ => e.reminder,
        },
        ..e
    }
}

/// Marks a firing as acknowledged on the event.
pub fn acknowledge(e: &mut AppEvent, fire_instant: i64, next_anchor: Option<i64>, now: i64)
    ensures
        *final(e) == acknowledged_event(*old(e), fire_instant, next_anchor, now),
        old(e).wf() ==> final(e).wf(),
{
    e.last_fired = Some(fire_instant);
    if now > e.update_ts {
        e.update_ts = now;
    }
    match (e.reminder, next_anchor) {
        (Some(Reminder::Recurring { anchor, interval }), Some(n)) => {
            e.reminder = Some(Reminder::Recurring { anchor: n, interval });
        },
        _ => {},
    }
}

/// How an attempt to deliver a notice ended.
#[derive(Clone, Copy, Debug, PartialEq, Eq)]
pub enum Delivery {
    Sent,
    Failed,
}

/// What follows an attempt to deliver a notice.
#[derive(Clone, Copy, Debug, PartialEq, Eq)]
pub enum FollowUp {
    /// The notice is delivered: its firing is acknowledged and persisted.
    Acknowledge,
    /// The notice is handed to the sink once more, at once.
    Retry,
    /// The notice is given up for this cycle. Nothing is persisted, so the
    /// event is due again at the next tick.
    GiveUp,
}

/// The follow-up of the attempt number `attempt`, counted from zero: a
/// failed first attempt is retried once, a failed retry is given up.
pub open spec fn follow_up(attempt: u8, outcome: Delivery) -> FollowUp {
    match outcome {
        Delivery::Sent => FollowUp::Acknowledge,
        Delivery::Failed => if attempt == 0 {
            FollowUp::Retry
        } else {
            FollowUp::GiveUp
        },
    }
}

/// Decides what follows an attempt to deliver a notice.
pub fn after_attempt(attempt: u8, outcome: Delivery) -> (next: FollowUp)
    ensures
        next == follow_up(attempt, outcome),
{
    match outcome {
        Delivery::Sent => FollowUp::Acknowledge,
        Delivery::Failed => if attempt == 0 {
            FollowUp::Retry
        } else {
            FollowUp::GiveUp
        },
    }
}

/// The fields that the store is asked to write for an acknowledged firing.
/// The reminder's text is written only where the reminder changed, so that
/// the stored text of any other rule stays as it is.
#[derive(Clone, Debug, PartialEq, Eq)]
pub struct Acknowledgment {
    pub event_id: i64,
    pub reminder: Option<Vec<u8>>,
    pub last_fired: i64,
    pub update_ts: i64,
}

/// `a` writes back what the acknowledgment of the firing changes on `e`.
pub open spec fn writes_back(
    a: Acknowledgment,
    e: AppEvent,
    fire_instant: i64,
    next_anchor: Option<i64>,
    now: i64,
) -> bool {
    let after = acknowledged_event(e, fire_instant, next_anchor, now);
    &&& a.event_id == e.id
    &&& a.last_fired == fire_instant
    &&& a.update_ts == after.update_ts
    &&& match a.reminder {
        Some(text) => after.reminder != e.reminder && (after.reminder matches Some(r) && text@
            == written(r)),
        None => after.reminder == e.reminder,
    }
}

/// Acknowledges a firing on the event and says what to write to the store.
pub fn persist(e: &mut AppEvent, fire_instant: i64, next_anchor: Option<i64>, now: i64) -> (a:
    Acknowledgment)
    ensures
        *final(e) == acknowledged_event(*old(e), fire_instant, next_anchor, now),
        old(e).wf() ==> final(e).wf(),
        writes_back(a, *old(e), fire_instant, next_anchor, now),
{
    let reminder: Option<Vec<u8>> = match (e.reminder, next_anchor) {
        (Some(Reminder::Recurring { anchor, interval }), Some(n)) => {
            if n != anchor {
                Some(write_reminder(&Reminder::Recurring { anchor: n, interval }))
            } else {
                None
            }
        },
        _ => None,
    };
    acknowledge(e, fire_instant, next_anchor, now);
    Acknowledgment { event_id: e.id, reminder, last_fired: fire_instant, update_ts: e.update_ts }
}

/// Once a due firing is acknowledged, the event is not due again at the
/// same instant.
pub proof fn lemma_acknowledged_is_not_due(e: AppEvent, now: i64)
    requires
        verdict_at(e, now as int) is Due,
    ensures
        verdict_at(
            acknowledged_event(
                e,
                verdict_at(e, now as int)->fire_instant,
                verdict_at(e, now as int)->next_anchor,
                now,
            ),
            now as int,
        ) is NotDue,
{
    match e.reminder {
        Some(Reminder::Recurring { anchor, interval }) => {
            let d = now - anchor;
            let i = interval as int;
            lemma_fundamental_div_mod(d, i);
            lemma_mod_bound(d, i);
            assert(i * (d / i) == (d / i) * i) by (nonlinear_arith);
        },
        _ => {},
    }
}

/// Only open events with a reminder are ever notified: the scan may leave
/// the others out.
pub proof fn lemma_only_candidates_are_notified(e: AppEvent, now: int)
    requires
        notified(e, now),
    ensures
        !e.complete,
        e.reminder is Some,
{
}

/// A recurring reminder that missed several boundaries fires exactly once:
/// seen `rest` after its `k`-th boundary it is due for that boundary, and
/// once that firing is acknowledged it is not due at the same instant, its
/// anchor standing at the boundary after.
pub proof fn lemma_missed_boundaries_fire_once(
    e: AppEvent,
    anchor: i64,
    interval: i64,
    k: int,
    rest: int,
)
    requires
        !e.complete,
        e.reminder == Some(Reminder::Recurring { anchor, interval }),
        interval > 0,
        k >= 0,
        0 <= rest < interval,
        fits(anchor + (k + 1) * interval),
        e.last_fired is None,
        e.update_ts <= anchor + k * interval + rest,
    ensures
        ({
            let now = anchor + k * interval + rest;
            let fire = (anchor + k * interval) as i64;
            let next = (anchor + (k + 1) * interval) as i64;
            let after = acknowledged_event(e, fire, Some(next), now as i64);
            &&& verdict_at(e, now) == (Verdict::Due { fire_instant: fire, next_anchor: Some(next) })
            &&& after.reminder == Some(Reminder::Recurring { anchor: next, interval })
            &&& verdict_at(after, now) == (Verdict::NotDue { next_check: next })
        }),
{
    lemma_missed_boundaries_coalesce(e, anchor, interval, k, rest);
    assert(0 <= k * interval) by (nonlinear_arith)
        requires
            k >= 0,
            interval > 0,
    ;
    assert((k + 1) * interval == k * interval + interval) by (nonlinear_arith);
    let now = anchor + k * interval + rest;
    lemma_acknowledged_is_not_due(e, now as i64);
}

} // verus!
