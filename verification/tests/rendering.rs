use event_reminders::events::Document;
use event_reminders::events::Field;
use event_reminders::events::Value;
use event_reminders::render::expand_rule;
use event_reminders::render::locate;
use event_reminders::render::render;
use event_reminders::render::show;
use event_reminders::render::RenderError;
use event_reminders::render::Rendered;
use event_reminders::text::copy_bytes;
use event_reminders::text::find;
use event_reminders::text::push_calendar;
use event_reminders::text::push_clock;
use event_reminders::text::push_decimal;
use event_reminders::text::push_digits;
use event_reminders::text::push_two_digits;
use event_reminders::text::same_bytes;

fn text_field(path: &str, value: &str) -> Field {
    Field { path: path.as_bytes().to_vec(), value: Value::Text(value.as_bytes().to_vec()) }
}

fn int_field(path: &str, value: i64) -> Field {
    Field { path: path.as_bytes().to_vec(), value: Value::Integer(value) }
}

fn sample() -> Option<Document> {
    Some(Document {
        fields: vec![
            text_field("user.name", "Ada"),
            int_field("count", 42),
            int_field("debt", -7),
            int_field("at", 3661),
            text_field("user.name", "Grace"),
        ],
    })
}

fn run(rule: &str, data: &Option<Document>) -> Result<Rendered, RenderError> {
    render(&Some(rule.as_bytes().to_vec()), data, &b"title".to_vec())
}

fn text_of(rule: &str, data: &Option<Document>) -> String {
    String::from_utf8(run(rule, data).unwrap().text).unwrap()
}

#[test]
fn absent_rule_gives_the_title() {
    let title = b"Pay rent".to_vec();
    for data in [None, Some(Document { fields: vec![] }), sample()] {
        let shown = render(&None, &data, &title).unwrap();
        assert_eq!(shown.text, title);
        assert!(shown.unresolved.is_empty());
    }
    let shown = render(&None, &None, &Vec::new()).unwrap();
    assert_eq!(shown.text, Vec::<u8>::new());
}

#[test]
fn literal_rule_is_copied() {
    assert_eq!(text_of("just text: no braces", &sample()), "just text: no braces");
    assert_eq!(text_of("", &sample()), "");
}

#[test]
fn fields_are_substituted() {
    assert_eq!(text_of("Hi {user.name}, {count} left", &sample()), "Hi Ada, 42 left");
    assert_eq!(text_of("{debt}", &sample()), "-7");
    assert_eq!(text_of("{count}{count}", &sample()), "4242");
}

#[test]
fn first_field_of_a_path_is_found() {
    assert_eq!(text_of("{user.name}", &sample()), "Ada");
}

#[test]
fn directives_format_integers() {
    assert_eq!(text_of("{at:time}", &sample()), "01:01:01");
    assert_eq!(text_of("{count:signed}", &sample()), "+42");
    assert_eq!(text_of("{debt:signed}", &sample()), "-7");
    assert_eq!(text_of("{debt:time}", &sample()), "-7");
    assert_eq!(text_of("{user.name:time}", &sample()), "Ada");
}

#[test]
fn unknown_directives_are_ignored() {
    assert_eq!(text_of("{count:roman}", &sample()), "42");
    assert_eq!(text_of("{count:}", &sample()), "42");
    assert_eq!(text_of("{count:time:zone}", &sample()), "42");
    assert_eq!(text_of("{at:times}", &sample()), "3661");
}

#[test]
fn dates_follow_the_calendar() {
    let days = [
        (0, "1970-01-01"),
        (86399, "1970-01-01"),
        (86400, "1970-01-02"),
        (951782400, "2000-02-29"),
        (951868800, "2000-03-01"),
        (1709251199, "2024-02-29"),
        (1709251200, "2024-03-01"),
        (1735689599, "2024-12-31"),
        (1735689600, "2025-01-01"),
        (4107542400, "2100-03-01"),
        (253402300799, "9999-12-31"),
        (253402300800, "10000-01-01"),
    ];
    for (instant, day) in days {
        let data = Some(Document { fields: vec![int_field("t", instant)] });
        assert_eq!(text_of("{t:date}", &data), day);
    }
    let data = Some(Document { fields: vec![int_field("t", -1), text_field("s", "x")] });
    assert_eq!(text_of("{t:date}", &data), "-1");
    assert_eq!(text_of("{s:date}", &data), "x");
}

#[test]
fn time_of_day_wraps_at_midnight() {
    let data = Some(Document { fields: vec![int_field("t", 86400 + 86399), int_field("z", 0)] });
    assert_eq!(text_of("{t:time}", &data), "23:59:59");
    assert_eq!(text_of("{z:time}", &data), "00:00:00");
}

#[test]
fn extreme_integers_are_written() {
    let data = Some(Document { fields: vec![int_field("lo", i64::MIN), int_field("hi", i64::MAX)] });
    assert_eq!(text_of("{lo}", &data), "-9223372036854775808");
    assert_eq!(text_of("{hi}", &data), "9223372036854775807");
    assert_eq!(text_of("{hi:signed}", &data), "+9223372036854775807");
}

#[test]
fn missing_field_leaves_a_gap_and_a_warning() {
    let shown = run("Hello {name}!", &sample()).unwrap();
    assert_eq!(shown.text, b"Hello !".to_vec());
    assert_eq!(shown.unresolved, vec![6]);
    let shown = run("Hello {name}!", &None).unwrap();
    assert_eq!(shown.text, b"Hello !".to_vec());
    assert_eq!(shown.unresolved, vec![6]);
    let shown = run("{a}{count}{b:time}", &sample()).unwrap();
    assert_eq!(shown.text, b"42".to_vec());
    assert_eq!(shown.unresolved, vec![0, 10]);
}

#[test]
fn invalid_rules_fail() {
    for rule in ["{", "}", "a}b", "{a", "{a{b}", "{a{b}}", "{}", "{:time}", "ok {x} then {", "{x}}"] {
        assert_eq!(run(rule, &sample()), Err(RenderError::InvalidRule));
        assert_eq!(run(rule, &None), Err(RenderError::InvalidRule));
    }
}

#[test]
fn any_bytes_are_taken() {
    let rule: Vec<u8> = vec![0xff, 0x00, b'{', 0xfe, b'}', 0x80];
    let data = Some(Document {
        fields: vec![Field { path: vec![0xfe], value: Value::Text(vec![0xc3, 0x28]) }],
    });
    let shown = render(&Some(rule), &data, &Vec::new()).unwrap();
    assert_eq!(shown.text, vec![0xff, 0x00, 0xc3, 0x28, 0x80]);
    let long: Vec<u8> = vec![b'{'; 10000];
    assert_eq!(render(&Some(long), &None, &Vec::new()), Err(RenderError::InvalidRule));
    let long: Vec<u8> = vec![b'x'; 10000];
    assert_eq!(render(&Some(long.clone()), &None, &Vec::new()).unwrap().text, long);
}

#[test]
fn expand_rule_on_plain_fields() {
    let fields = sample().unwrap().fields;
    let shown = expand_rule(b"{count}/{nope}", &fields).unwrap();
    assert_eq!(shown.text, b"42/".to_vec());
    assert_eq!(shown.unresolved, vec![8]);
    assert_eq!(expand_rule(b"}", &fields), Err(RenderError::InvalidRule));
}

#[test]
fn locate_finds_the_first_match() {
    let fields = sample().unwrap().fields;
    assert_eq!(locate(&fields, b"{user.name}", 1, 10), Some(0));
    assert_eq!(locate(&fields, b"{count}", 1, 6), Some(1));
    assert_eq!(locate(&fields, b"{count}", 1, 5), None);
    assert_eq!(locate(&fields, b"", 0, 0), None);
}

#[test]
fn show_appends_the_value() {
    let mut out = b">".to_vec();
    show(&mut out, &Value::Integer(59), b"time", 0, 4);
    show(&mut out, &Value::Text(b"|".to_vec()), b"time", 0, 4);
    show(&mut out, &Value::Integer(59), b"time", 0, 3);
    show(&mut out, &Value::Integer(5), b"signed", 0, 6);
    assert_eq!(out, b">00:00:59|59+5".to_vec());
}

#[test]
fn find_returns_the_first_of_two_bytes() {
    assert_eq!(find(b"ab{cd}", 0, 6, b'{', b'}'), 2);
    assert_eq!(find(b"ab{cd}", 3, 6, b'{', b'}'), 5);
    assert_eq!(find(b"ab{cd}", 3, 5, b'{', b'}'), 5);
    assert_eq!(find(b"abc", 0, 3, b'{', b'}'), 3);
    assert_eq!(find(b"abc", 2, 2, b'c', b'c'), 2);
}

#[test]
fn same_bytes_compares_a_range() {
    assert!(same_bytes(b"hello", 1, 3, b"el"));
    assert!(!same_bytes(b"hello", 1, 3, b"ell"));
    assert!(!same_bytes(b"hello", 1, 3, b"eL"));
    assert!(same_bytes(b"hello", 2, 2, b""));
}

#[test]
fn copy_bytes_appends_a_range() {
    let mut out = b"ab".to_vec();
    copy_bytes(&mut out, b"hello", 1, 4);
    assert_eq!(out, b"abell".to_vec());
    copy_bytes(&mut out, b"hello", 5, 5);
    assert_eq!(out, b"abell".to_vec());
}

#[test]
fn numbers_are_written_in_decimal() {
    let mut out = Vec::new();
    push_digits(&mut out, 0);
    out.push(b' ');
    push_digits(&mut out, 907);
    out.push(b' ');
    push_digits(&mut out, u64::MAX);
    out.push(b' ');
    push_decimal(&mut out, -10);
    out.push(b' ');
    push_decimal(&mut out, 10);
    out.push(b' ');
    push_two_digits(&mut out, 7);
    out.push(b' ');
    push_two_digits(&mut out, 99);
    out.push(b' ');
    push_clock(&mut out, 45296);
    out.push(b' ');
    push_calendar(&mut out, 45296);
    assert_eq!(out, b"0 907 18446744073709551615 -10 10 07 99 12:34:56 1970-01-01".to_vec());
}

#[test]
fn calendar_follows_month_lengths() {
    let (mut y, mut m, mut d) = (1970i64, 1i64, 1i64);
    for day in 0..150000i64 {
        let mut out = Vec::new();
        push_calendar(&mut out, day * 86400 + 86399);
        assert_eq!(String::from_utf8(out).unwrap(), format!("{:04}-{:02}-{:02}", y, m, d));
        let leap = y % 4 == 0 && (y % 100 != 0 || y % 400 == 0);
        let length = match m {
            2 => if leap { 29 } else { 28 },
            4 | 6 | 9 | 11 => 30,
            _ => 31,
        };
        if d < length {
            d += 1;
        } else if m < 12 {
            m += 1;
            d = 1;
        } else {
            y += 1;
            m = 1;
            d = 1;
        }
    }
}

#[test]
fn many_substitutions_keep_all_plain_text() {
    let shown = run("a{x}b{count}c{y:date}d{user.name}e{z}", &sample()).unwrap();
    assert_eq!(shown.text, b"ab42cdAdae".to_vec());
    assert_eq!(shown.unresolved, vec![1, 13, 34]);
    let shown = run("a{x}b{count}c{y:date}d{user.name}e{z}", &None).unwrap();
    assert_eq!(shown.text, b"abcde".to_vec());
    assert_eq!(shown.unresolved, vec![1, 5, 13, 22, 34]);
}
