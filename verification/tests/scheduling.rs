use event_reminders::events::AppEvent;
use event_reminders::events::Reminder;
use event_reminders::scheduler::acknowledge;
use event_reminders::scheduler::after_attempt;
use event_reminders::scheduler::persist;
use event_reminders::scheduler::Acknowledgment;
use event_reminders::scheduler::Delivery;
use event_reminders::scheduler::FollowUp;
use event_reminders::scheduler::is_candidate;
use event_reminders::scheduler::plan;
use event_reminders::scheduler::render_failures;
use event_reminders::scheduler::Phase;
use event_reminders::scheduler::Scheduler;
use event_reminders::scheduler::Signal;

fn titled(id: i64, title: &str, reminder: Option<Reminder>) -> AppEvent {
    let mut e = AppEvent::new(id, 0);
    e.title = title.as_bytes().to_vec();
    e.reminder = reminder;
    e
}

#[test]
fn a_cycle_runs_through_its_phases() {
    let mut s = Scheduler::new();
    assert_eq!(s, Scheduler { phase: Phase::Idle, stop_requested: false });
    s.step(Signal::Done);
    assert_eq!(s.phase, Phase::Idle);
    s.step(Signal::Tick);
    assert_eq!(s.phase, Phase::Scanning);
    s.step(Signal::Tick);
    assert_eq!(s.phase, Phase::Scanning);
    s.step(Signal::Done);
    assert_eq!(s.phase, Phase::Evaluating);
    s.step(Signal::Wake);
    assert_eq!(s.phase, Phase::Evaluating);
    s.step(Signal::Done);
    assert_eq!(s.phase, Phase::Notifying);
    s.step(Signal::Done);
    assert_eq!(s.phase, Phase::Persisting);
    s.step(Signal::Done);
    assert_eq!(s, Scheduler { phase: Phase::Idle, stop_requested: false });
    s.step(Signal::Wake);
    assert_eq!(s.phase, Phase::Scanning);
}

#[test]
fn a_stop_waits_for_the_end_of_the_cycle() {
    let mut s = Scheduler::new();
    s.step(Signal::Tick);
    s.step(Signal::Done);
    s.step(Signal::Stop);
    assert_eq!(s, Scheduler { phase: Phase::Evaluating, stop_requested: true });
    s.step(Signal::Done);
    assert_eq!(s.phase, Phase::Notifying);
    s.step(Signal::Done);
    assert_eq!(s.phase, Phase::Persisting);
    s.step(Signal::Done);
    assert_eq!(s, Scheduler { phase: Phase::Stopped, stop_requested: false });
    s.step(Signal::Tick);
    s.step(Signal::Done);
    assert_eq!(s.phase, Phase::Stopped);
}

#[test]
fn an_idle_scheduler_stops_at_once() {
    let mut s = Scheduler::new();
    s.step(Signal::Stop);
    assert_eq!(s, Scheduler { phase: Phase::Stopped, stop_requested: false });
}

#[test]
fn candidates_are_open_events_with_a_reminder() {
    let mut e = titled(1, "a", Some(Reminder::Absolute { at: 0 }));
    assert!(is_candidate(&e));
    e.complete = true;
    assert!(!is_candidate(&e));
    assert!(!is_candidate(&titled(2, "b", None)));
    assert!(is_candidate(&titled(3, "c", Some(Reminder::Unrecognized))));
}

#[test]
fn plan_notifies_the_due_events_in_order() {
    let mut broken = titled(12, "broken", Some(Reminder::Absolute { at: 100 }));
    broken.render = Some(b"{oops".to_vec());
    let mut ruled = titled(14, "ruled", Some(Reminder::Recurring { anchor: 0, interval: 60 }));
    ruled.render = Some(b"every minute {n}".to_vec());
    let events = vec![
        titled(10, "later", Some(Reminder::Absolute { at: 500 })),
        titled(11, "now", Some(Reminder::Absolute { at: 100 })),
        broken,
        titled(13, "none", None),
        ruled,
    ];
    let notices = plan(&events, 125);
    assert_eq!(notices.len(), 2);
    assert_eq!(notices[0].index, 1);
    assert_eq!(notices[0].event_id, 11);
    assert_eq!(notices[0].fire_instant, 100);
    assert_eq!(notices[0].next_anchor, None);
    assert_eq!(notices[0].text, b"now".to_vec());
    assert!(notices[0].unresolved.is_empty());
    assert_eq!(notices[1].index, 4);
    assert_eq!(notices[1].event_id, 14);
    assert_eq!(notices[1].fire_instant, 120);
    assert_eq!(notices[1].next_anchor, Some(180));
    assert_eq!(notices[1].text, b"every minute ".to_vec());
    assert_eq!(notices[1].unresolved, vec![13]);
    assert!(plan(&Vec::new(), 125).is_empty());
    assert!(plan(&events, -1).is_empty());
}

#[test]
fn acknowledged_events_are_not_planned_again() {
    let mut events = vec![
        titled(1, "once", Some(Reminder::Absolute { at: 100 })),
        titled(2, "often", Some(Reminder::Recurring { anchor: 0, interval: 60 })),
    ];
    let notices = plan(&events, 125);
    assert_eq!(notices.len(), 2);
    for n in notices.iter() {
        acknowledge(&mut events[n.index], n.fire_instant, n.next_anchor, 125);
    }
    assert!(plan(&events, 125).is_empty());
    let again = plan(&events, 180);
    assert_eq!(again.len(), 1);
    assert_eq!(again[0].event_id, 2);
    assert_eq!(again[0].fire_instant, 180);
}

#[test]
fn acknowledge_keeps_the_later_update_instant() {
    let mut e = titled(1, "once", Some(Reminder::Absolute { at: 100 }));
    e.update_ts = 300;
    acknowledge(&mut e, 100, Some(7), 200);
    assert_eq!(e.update_ts, 300);
    assert_eq!(e.last_fired, Some(100));
    assert_eq!(e.reminder, Some(Reminder::Absolute { at: 100 }));
    assert_eq!(e.title, b"once".to_vec());
    assert_eq!(e.create_ts, 0);
}

#[test]
fn a_failed_delivery_is_retried_once() {
    assert_eq!(after_attempt(0, Delivery::Sent), FollowUp::Acknowledge);
    assert_eq!(after_attempt(1, Delivery::Sent), FollowUp::Acknowledge);
    assert_eq!(after_attempt(0, Delivery::Failed), FollowUp::Retry);
    assert_eq!(after_attempt(1, Delivery::Failed), FollowUp::GiveUp);
    assert_eq!(after_attempt(255, Delivery::Failed), FollowUp::GiveUp);
}

#[test]
fn persist_writes_the_advanced_anchor() {
    let mut e = titled(4, "often", Some(Reminder::Recurring { anchor: 0, interval: 60 }));
    let fields = persist(&mut e, 120, Some(180), 125);
    assert_eq!(
        fields,
        Acknowledgment {
            event_id: 4,
            reminder: Some(b"every:180:60".to_vec()),
            last_fired: 120,
            update_ts: 125,
        }
    );
    assert_eq!(e.reminder, Some(Reminder::Recurring { anchor: 180, interval: 60 }));
    assert_eq!(e.last_fired, Some(120));
    assert_eq!(e.update_ts, 125);
}

#[test]
fn persist_leaves_the_text_of_a_one_shot_rule() {
    let mut e = titled(5, "once", Some(Reminder::Offset { delta: 100 }));
    e.due_ts = Some(1000);
    let fields = persist(&mut e, 900, None, 900);
    assert_eq!(
        fields,
        Acknowledgment { event_id: 5, reminder: None, last_fired: 900, update_ts: 900 }
    );
    assert_eq!(e.reminder, Some(Reminder::Offset { delta: 100 }));
    assert_eq!(e.last_fired, Some(900));
    let mut e = titled(6, "same", Some(Reminder::Recurring { anchor: 7, interval: 60 }));
    let fields = persist(&mut e, 7, Some(7), 8);
    assert_eq!(fields.reminder, None);
}

#[test]
fn render_failures_lists_the_due_events_with_an_invalid_rule() {
    let mut broken = titled(12, "broken", Some(Reminder::Absolute { at: 100 }));
    broken.render = Some(b"{oops".to_vec());
    let mut later = titled(13, "broken later", Some(Reminder::Absolute { at: 500 }));
    later.render = Some(b"}".to_vec());
    let mut idle = titled(14, "broken, no reminder", None);
    idle.render = Some(b"{".to_vec());
    let mut again = titled(15, "broken again", Some(Reminder::Recurring { anchor: 0, interval: 60 }));
    again.render = Some(b"{}".to_vec());
    let events = vec![
        titled(11, "fine", Some(Reminder::Absolute { at: 100 })),
        broken,
        later,
        idle,
        again,
    ];
    assert_eq!(render_failures(&events, 125), vec![1, 4]);
    assert_eq!(render_failures(&events, 500), vec![1, 2, 4]);
    assert_eq!(render_failures(&events, -1), Vec::<usize>::new());
    assert_eq!(render_failures(&Vec::new(), 125), Vec::<usize>::new());
    let notices = plan(&events, 125);
    assert_eq!(notices.len(), 1);
    assert_eq!(notices[0].index, 0);
}
