//! The reminder rule evaluator: is an event due at a given instant?

use vstd::prelude::*;
use vstd::arithmetic::div_mod::lemma_fundamental_div_mod;
use vstd::arithmetic::div_mod::lemma_fundamental_div_mod_converse;
use crate::events::AppEvent;
use crate::events::Reminder;

verus! {

/// What the evaluator says of one event at one instant.
#[derive(Clone, Copy, Debug, PartialEq, Eq)]
pub enum Verdict {
    /// The event fires now, for `fire_instant`. For a recurring reminder
    /// `next_anchor` is the boundary after it, for the caller to persist; it
    /// is `None` for the other kinds, and where that boundary lies beyond
    /// the last instant.
    Due { fire_instant: i64, next_anchor: Option<i64> },
    /// Nothing to do before `next_check`. Seen before the instant the rule
    /// points at, the hint is that instant: the fire instant of a one-shot
    /// rule, the anchor of a recurring one. Seen at or after it, but before
    /// the event's last update (the clock went back), the hint is the
    /// update instant. Seen after an acknowledged firing, the hint is the
    /// next boundary of a recurring rule (the last instant where that lies
    /// beyond it), and the fire instant of a one-shot rule.
    NotDue { next_check: i64 },
    /// The event has no reminder that can ever fire.
    Inapplicable,
}

pub open spec fn fits(x: int) -> bool {
    i64::MIN <= x <= i64::MAX
}

/// The instant the event's reminder points at, seen from `now`: the fixed
/// instant of a one-shot rule; for a recurring rule the latest boundary that
/// is not after `now`, or the anchor while `now` is before it. `None` where
/// the rule can never fire.
pub open spec fn scheduled(e: AppEvent, now: int) -> Option<int> {
    if e.complete {
        None
    } else {
        match e.reminder {
            None => None,
            Some(Reminder::Unrecognized) => None,
            Some(Reminder::Absolute { at }) => Some(at as int),
            Some(Reminder::Offset { delta }) => match e.due_ts {
                Some(due) if fits(due - delta) => Some(due - delta),
                _ => None,
            },
            Some(Reminder::Recurring { anchor, interval }) => if interval <= 0 {
                None
            } else if now < anchor {
                Some(anchor as int)
            } else {
                Some(anchor + ((now - anchor) / (interval as int)) * interval)
            },
        }
    }
}

/// The boundary after `fire` of a recurring reminder; `None` for the other
/// kinds.
pub open spec fn following(e: AppEvent, fire: int) -> Option<int> {
    match e.reminder {
        Some(Reminder::Recurring { anchor, interval }) => Some(fire + interval),
        _ => None,
    }
}

/// The firing at `fire` needs no notification any more: that instant or a
/// later one was acknowledged.
pub open spec fn acknowledged(e: AppEvent, fire: int) -> bool {
    e.last_fired matches Some(a) && a >= fire
}

/// The evaluator's answer, as a function of the event and the instant.
pub open spec fn verdict_at(e: AppEvent, now: int) -> Verdict {
    match scheduled(e, now) {
        None => Verdict::Inapplicable,
        Some(f) => if now < f {
            Verdict::NotDue { next_check: f as i64 }
        } else if now < e.update_ts {
            Verdict::NotDue { next_check: e.update_ts }
        } else if acknowledged(e, f) {
            Verdict::NotDue {
                next_check: match following(e, f) {
                    Some(n) if fits(n) => n as i64,
                    Some(_) => i64::MAX,
                    None => f as i64,
                },
            }
        } else {
            Verdict::Due {
                fire_instant: f as i64,
                next_anchor: match following(e, f) {
                    Some(n) if fits(n) => Some(n as i64),
                    _ => None,
                },
            }
        },
    }
}

/// The instant a live reminder points at, computed.
fn scheduled_instant(e: &AppEvent, now: i64) -> (r: Option<i64>)
    ensures
        r matches Some(f) ==> scheduled(*e, now as int) == Some(f as int),
        r is None ==> scheduled(*e, now as int) is None,
{
    if e.complete {
        return None;
    }
    match e.reminder {
        None => None,
        Some(Reminder::Unrecognized) => None,
        Some(Reminder::Absolute { at }) => Some(at),
        Some(Reminder::Offset { delta }) => match e.due_ts {
            None => None,
            Some(due) => due.checked_sub(delta),
        },
        Some(Reminder::Recurring { anchor, interval }) => {
            if interval <= 0 {
                None
            } else if now < anchor {
                Some(anchor)
            } else {
                let elapsed: i128 = now as i128 - anchor as i128;
                let step: i128 = interval as i128;
                let rest: i128 = elapsed % step;
                proof {
                    lemma_fundamental_div_mod(elapsed as int, step as int);
                    assert(step * (elapsed / step) == (elapsed / step) * step) by (nonlinear_arith);
                }
                let fire: i128 = now as i128 - rest;
                Some(fire as i64)
            }
        },
    }
}

/// Decides whether `e` is due at `now`. Nothing is changed: the caller
/// persists an acknowledgment or an advanced anchor.
pub fn evaluate(e: &AppEvent, now: i64) -> (v: Verdict)
    ensures
        v == verdict_at(*e, now as int),
{
    match scheduled_instant(e, now) {
        None => Verdict::Inapplicable,
        Some(f) => {
            let next: Option<i64> = match e.reminder {
                Some(Reminder::Recurring { anchor, interval }) => f.checked_add(interval),
                _ => None,
            };
            let recurring: bool = match e.reminder {
                Some(Reminder::Recurring { anchor, interval }) => true,
                _ => false,
            };
            let acked: bool = match e.last_fired {
                Some(a) => a >= f,
                None => false,
            };
            if now < f {
                Verdict::NotDue { next_check: f }
            } else if now < e.update_ts {
                Verdict::NotDue { next_check: e.update_ts }
            } else if acked {
                let hint: i64 = match next {
                    Some(n) => n,
                    None => if recurring { i64::MAX } else { f },
                };
                Verdict::NotDue { next_check: hint }
            } else {
                Verdict::Due { fire_instant: f, next_anchor: next }
            }
        },
    }
}

/// An event without a reminder, or with one that is not understood, is
/// inapplicable at every instant: it is never due.
pub proof fn lemma_no_rule_is_inapplicable(e: AppEvent, now: int)
    requires
        e.reminder is None || e.reminder == Some(Reminder::Unrecognized),
    ensures
        verdict_at(e, now) == Verdict::Inapplicable,
{
}

/// A complete event is never reported as due.
pub proof fn lemma_complete_is_never_due(e: AppEvent, now: int)
    requires
        e.complete,
    ensures
        verdict_at(e, now) == Verdict::Inapplicable,
{
}

/// A due event fires for an instant that is not after `now`, and `now` is
/// not before the event's last update.
pub proof fn lemma_due_is_not_early(e: AppEvent, now: i64)
    requires
        verdict_at(e, now as int) is Due,
    ensures
        verdict_at(e, now as int)->fire_instant <= now,
        e.update_ts <= now,
        !e.complete,
{
    match e.reminder {
        Some(Reminder::Recurring { anchor, interval }) => {
            lemma_latest_boundary(anchor as int, interval as int, now as int);
        },
        _ => {},
    }
}

/// The latest boundary of a recurring rule that is not after `now` lies
/// less than one interval before `now`.
pub proof fn lemma_latest_boundary(anchor: int, interval: int, now: int)
    requires
        interval > 0,
        anchor <= now,
    ensures
        anchor <= anchor + ((now - anchor) / interval) * interval <= now,
        now < anchor + ((now - anchor) / interval) * interval + interval,
{
    let d = now - anchor;
    lemma_fundamental_div_mod(d, interval);
    assert(interval * (d / interval) == (d / interval) * interval) by (nonlinear_arith);
    assert(0 <= d % interval < interval) by (nonlinear_arith)
        requires
            interval > 0,
    ;
    assert(0 <= (d / interval) * interval) by (nonlinear_arith)
        requires
            interval > 0,
            d >= 0,
    ;
}

/// An open offset reminder that was not acknowledged fires exactly at the
/// due instant less the delta, where the event was not updated after that.
pub proof fn lemma_offset_fires_at_its_instant(e: AppEvent, due: i64, delta: i64)
    requires
        !e.complete,
        e.due_ts == Some(due),
        e.reminder == Some(Reminder::Offset { delta }),
        fits(due - delta),
        e.last_fired is None,
        e.update_ts <= due - delta,
    ensures
        verdict_at(e, due - delta) == (Verdict::Due {
            fire_instant: (due - delta) as i64,
            next_anchor: None,
        }),
{
}

/// An open offset reminder is not due one instant before its fire instant,
/// and the hint is the fire instant, whenever the event was last updated.
pub proof fn lemma_offset_waits_for_its_instant(e: AppEvent, due: i64, delta: i64)
    requires
        !e.complete,
        e.due_ts == Some(due),
        e.reminder == Some(Reminder::Offset { delta }),
        fits(due - delta),
    ensures
        verdict_at(e, due - delta - 1) == (Verdict::NotDue { next_check: (due - delta) as i64 }),
{
}

/// A one-shot rule seen before its fire instant is not due, and the hint is
/// the fire instant, whatever else the event holds.
pub proof fn lemma_one_shot_waits(e: AppEvent, now: int)
    requires
        e.reminder is Some,
        !(e.reminder->Some_0 is Recurring),
        scheduled(e, now) matches Some(f) && now < f,
    ensures
        verdict_at(e, now) == (Verdict::NotDue { next_check: scheduled(e, now)->Some_0 as i64 }),
{
}

/// A recurring rule seen before its anchor is not due, and the hint is the
/// anchor.
pub proof fn lemma_recurring_waits_for_its_anchor(
    e: AppEvent,
    anchor: i64,
    interval: i64,
    now: int,
)
    requires
        !e.complete,
        e.reminder == Some(Reminder::Recurring { anchor, interval }),
        interval > 0,
        now < anchor,
    ensures
        verdict_at(e, now) == (Verdict::NotDue { next_check: anchor }),
{
}

/// While the clock stands before the event's last update, the event is not
/// due.
pub proof fn lemma_clock_skew_is_not_due(e: AppEvent, now: int)
    requires
        now < e.update_ts,
    ensures
        !(verdict_at(e, now) is Due),
{
}

/// A recurring reminder that was never acknowledged, seen `rest` after its
/// `k`-th boundary and before the next, fires once, for that boundary, and
/// hands out the boundary after it: the boundaries missed before are not
/// replayed.
pub proof fn lemma_missed_boundaries_coalesce(
    e: AppEvent,
    anchor: i64,
    interval: i64,
    k: int,
    rest: int,
)
    requires
        !e.complete,
        e.reminder == Some(Reminder::Recurring { anchor, interval }),
        interval > 0,
        k >= 0,
        0 <= rest < interval,
        fits(anchor + (k + 1) * interval),
        e.last_fired is None,
        e.update_ts <= anchor + k * interval + rest,
    ensures
        verdict_at(e, anchor + k * interval + rest) == (Verdict::Due {
            fire_instant: (anchor + k * interval) as i64,
            next_anchor: Some((anchor + (k + 1) * interval) as i64),
        }),
{
    let i = interval as int;
    let now = anchor + k * i + rest;
    assert(0 <= k * i) by (nonlinear_arith)
        requires
            k >= 0,
            i > 0,
    ;
    assert((k + 1) * i == k * i + i) by (nonlinear_arith);
    lemma_fundamental_div_mod_converse(now - anchor, i, k, rest);
}

/// Seen just after its third boundary, a recurring reminder of an interval
/// of two or more fires once, for the third boundary, and moves its anchor
/// to the fourth.
pub proof fn lemma_fires_once_after_three_intervals(e: AppEvent, anchor: i64, interval: i64)
    requires
        !e.complete,
        e.reminder == Some(Reminder::Recurring { anchor, interval }),
        interval >= 2,
        fits(anchor + 4 * interval),
        e.last_fired is None,
        e.update_ts <= anchor + 3 * interval + 1,
    ensures
        verdict_at(e, anchor + 3 * interval + 1) == (Verdict::Due {
            fire_instant: (anchor + 3 * interval) as i64,
            next_anchor: Some((anchor + 4 * interval) as i64),
        }),
{
    lemma_missed_boundaries_coalesce(e, anchor, interval, 3, 1);
}

/// A recurring rule whose interval is not positive is inapplicable.
pub proof fn lemma_idle_interval_is_inapplicable(e: AppEvent, anchor: i64, interval: i64, now: int)
    requires
        e.reminder == Some(Reminder::Recurring { anchor, interval }),
        interval <= 0,
    ensures
        verdict_at(e, now) == Verdict::Inapplicable,
{
}

} // verus!
