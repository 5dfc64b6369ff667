use event_reminders::codec::parse_number;
use event_reminders::codec::parse_reminder;
use event_reminders::codec::write_reminder;
use event_reminders::events::Document;
use event_reminders::events::Field;
use event_reminders::events::Reminder;
use event_reminders::events::Value;
use event_reminders::payload::parse_document;
use event_reminders::payload::parse_value;
use event_reminders::reminder::evaluate;
use event_reminders::reminder::Verdict;
use event_reminders::render::render;
use event_reminders::store::copy_optional;
use event_reminders::store::copy_text;
use event_reminders::store::db_url;
use event_reminders::store::load;
use event_reminders::store::EventRow;

fn number(s: &str) -> Option<i64> {
    parse_number(s.as_bytes(), 0, s.len())
}

#[test]
fn numbers_are_read() {
    assert_eq!(number("0"), Some(0));
    assert_eq!(number("-0"), Some(0));
    assert_eq!(number("007"), Some(7));
    assert_eq!(number("1234567890"), Some(1234567890));
    assert_eq!(number("-42"), Some(-42));
    assert_eq!(number("9223372036854775807"), Some(i64::MAX));
    assert_eq!(number("-9223372036854775808"), Some(i64::MIN));
    assert_eq!(parse_number(b"ab12cd", 2, 4), Some(12));
}

#[test]
fn malformed_numbers_are_refused() {
    for s in ["", "-", "+1", "1a", "a1", " 1", "1 ", "--1", "1-", "9223372036854775808",
        "-9223372036854775809", "99999999999999999999999999999999999999999999", "1.5"]
    {
        assert_eq!(number(s), None);
    }
}

#[test]
fn reminders_are_read() {
    assert_eq!(parse_reminder(b"at:1700000000"), Reminder::Absolute { at: 1700000000 });
    assert_eq!(parse_reminder(b"at:-5"), Reminder::Absolute { at: -5 });
    assert_eq!(parse_reminder(b"offset:100"), Reminder::Offset { delta: 100 });
    assert_eq!(parse_reminder(b"every:0:60"), Reminder::Recurring { anchor: 0, interval: 60 });
    assert_eq!(parse_reminder(b"every:5:0"), Reminder::Recurring { anchor: 5, interval: 0 });
    assert_eq!(parse_reminder(b"every:5:-3"), Reminder::Recurring { anchor: 5, interval: -3 });
}

#[test]
fn later_fields_of_a_reminder_are_ignored() {
    assert_eq!(parse_reminder(b"at:10:utc"), Reminder::Absolute { at: 10 });
    assert_eq!(parse_reminder(b"offset:100:"), Reminder::Offset { delta: 100 });
    assert_eq!(parse_reminder(b"every:0:60:skip:x"), Reminder::Recurring { anchor: 0, interval: 60 });
}

#[test]
fn malformed_reminders_are_not_understood() {
    for s in ["", "at", "at:", "at:x", "AT:1", "at :1", "weekly:1", ":1", "offset", "offset:1x",
        "every", "every:1", "every:1:", "every:1:x", "every::1", "at:9223372036854775808"]
    {
        assert_eq!(parse_reminder(s.as_bytes()), Reminder::Unrecognized);
    }
    assert_eq!(parse_reminder(&[0xff, 0xfe, b':', b'1']), Reminder::Unrecognized);
}

#[test]
fn reminders_are_written() {
    assert_eq!(write_reminder(&Reminder::Absolute { at: 17 }), b"at:17".to_vec());
    assert_eq!(write_reminder(&Reminder::Offset { delta: -100 }), b"offset:-100".to_vec());
    assert_eq!(
        write_reminder(&Reminder::Recurring { anchor: 180, interval: 60 }),
        b"every:180:60".to_vec()
    );
    assert_eq!(write_reminder(&Reminder::Unrecognized), Vec::<u8>::new());
}

#[test]
fn written_reminders_read_back() {
    for r in [
        Reminder::Absolute { at: 0 },
        Reminder::Absolute { at: i64::MIN },
        Reminder::Offset { delta: i64::MAX },
        Reminder::Offset { delta: -1 },
        Reminder::Recurring { anchor: i64::MIN, interval: i64::MAX },
        Reminder::Recurring { anchor: 12, interval: -4 },
        Reminder::Unrecognized,
    ] {
        assert_eq!(parse_reminder(&write_reminder(&r)), r);
    }
}

#[test]
fn values_are_read() {
    assert_eq!(parse_value(b"x=12", 2, 4), Value::Integer(12));
    assert_eq!(parse_value(b"x=-12", 2, 5), Value::Integer(-12));
    assert_eq!(parse_value(b"x=12a", 2, 5), Value::Text(b"12a".to_vec()));
    assert_eq!(parse_value(b"x=", 2, 2), Value::Text(Vec::new()));
}

#[test]
fn payloads_are_read() {
    let doc = parse_document(b"user.name=Ada\ncount=42\n\nnote\n=lost\nmotto=a=b\nlast=-1");
    assert_eq!(
        doc,
        Document {
            fields: vec![
                Field { path: b"user.name".to_vec(), value: Value::Text(b"Ada".to_vec()) },
                Field { path: b"count".to_vec(), value: Value::Integer(42) },
                Field { path: b"motto".to_vec(), value: Value::Text(b"a=b".to_vec()) },
                Field { path: b"last".to_vec(), value: Value::Integer(-1) },
            ],
        }
    );
    assert_eq!(parse_document(b""), Document { fields: vec![] });
    assert_eq!(parse_document(b"\n\n"), Document { fields: vec![] });
    assert_eq!(
        parse_document(b"k=\n"),
        Document { fields: vec![Field { path: b"k".to_vec(), value: Value::Text(Vec::new()) }] }
    );
}

#[test]
fn texts_are_copied() {
    assert_eq!(copy_text(&b"abc".to_vec()), b"abc".to_vec());
    assert_eq!(copy_text(&Vec::new()), Vec::<u8>::new());
    assert_eq!(copy_optional(&Some(b"abc".to_vec())), Some(b"abc".to_vec()));
    assert_eq!(copy_optional(&None), None);
}

#[test]
fn database_address_has_the_scheme() {
    assert_eq!(db_url(b"/home/ada/data.db"), b"sqlite:/home/ada/data.db".to_vec());
    assert_eq!(db_url(b""), b"sqlite:".to_vec());
}

#[test]
fn rows_are_loaded() {
    let row = EventRow {
        id: 9,
        title: b"Water plants".to_vec(),
        comment: Some(b"balcony".to_vec()),
        complete: false,
        due_ts: Some(1000),
        reminder: Some(b"every:0:60".to_vec()),
        custom_data: Some(b"pots=3\nwho=Ada".to_vec()),
        render: Some(b"{who}: {pots} pots".to_vec()),
        last_fired: Some(60),
        update_ts: 70,
        create_ts: 5,
    };
    let e = load(&row);
    assert_eq!(e.id, 9);
    assert_eq!(e.title, b"Water plants".to_vec());
    assert_eq!(e.comment, Some(b"balcony".to_vec()));
    assert!(!e.complete);
    assert_eq!(e.due_ts, Some(1000));
    assert_eq!(e.reminder, Some(Reminder::Recurring { anchor: 0, interval: 60 }));
    assert_eq!(e.render, Some(b"{who}: {pots} pots".to_vec()));
    assert_eq!(e.last_fired, Some(60));
    assert_eq!(e.update_ts, 70);
    assert_eq!(e.create_ts, 5);
    assert_eq!(evaluate(&e, 125), Verdict::Due { fire_instant: 120, next_anchor: Some(180) });
    let shown = render(&e.render, &e.custom_data, &e.title).unwrap();
    assert_eq!(shown.text, b"Ada: 3 pots".to_vec());
}

#[test]
fn rows_with_a_malformed_reminder_never_fire() {
    let row = EventRow {
        id: 1,
        title: Vec::new(),
        comment: None,
        complete: false,
        due_ts: None,
        reminder: Some(b"whenever".to_vec()),
        custom_data: None,
        render: None,
        last_fired: None,
        update_ts: 0,
        create_ts: 0,
    };
    let e = load(&row);
    assert_eq!(e.reminder, Some(Reminder::Unrecognized));
    assert_eq!(e.custom_data, None);
    assert_eq!(e.comment, None);
    for now in [i64::MIN, 0, i64::MAX] {
        assert_eq!(evaluate(&e, now), Verdict::Inapplicable);
    }
}
