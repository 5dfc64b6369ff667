//! The stored text of a reminder rule.
//!
//! A rule is written as fields separated by colons: `at:<instant>`,
//! `offset:<delta>` or `every:<anchor>:<interval>`. A number is an optional
//! minus sign and decimal digits. Fields after those that a kind needs are
//! ignored; a text of any other shape is a rule that is not understood.

use vstd::prelude::*;
use crate::events::Reminder;
use crate::reminder::fits;
use crate::render::COLON;
use crate::text::decimal;
use crate::text::digits;
use crate::text::find;
use crate::text::lemma_scan_stops;
use crate::text::push_decimal;
use crate::text::same_bytes;
use crate::text::scan;

verus! {

pub open spec fn is_digit(b: u8) -> bool {
    48 <= b <= 57
}

/// Every byte of `s[start..end]` is a decimal digit.
pub open spec fn all_digits(s: Seq<u8>, start: int, end: int) -> bool {
    forall|k: int| start <= k < end ==> is_digit(#[trigger] s[k])
}

/// The number that the digits `s[start..end]` write.
pub open spec fn magnitude(s: Seq<u8>, start: int, end: int) -> nat
    decreases end - start,
{
    if end <= start {
        0
    } else {
        magnitude(s, start, end - 1) * 10 + (s[end - 1] - 48) as nat
    }
}

/// The number that `s[start..end]` writes, where it is an optional minus
/// sign before one digit or more and the number is a 64-bit instant.
pub open spec fn number(s: Seq<u8>, start: int, end: int) -> Option<int> {
    let negative = start < end && s[start] == 45;
    let from = if negative {
        start + 1
    } else {
        start
    };
    let m = magnitude(s, from, end) as int;
    let v = if negative {
        -m
    } else {
        m
    };
    if from < end && all_digits(s, from, end) && fits(v) {
        Some(v)
    } else {
        None
    }
}

/// Reading more digits does not make the number smaller.
pub proof fn lemma_magnitude_grows(s: Seq<u8>, start: int, mid: int, end: int)
    requires
        start <= mid <= end,
    ensures
        magnitude(s, start, mid) <= magnitude(s, start, end),
    decreases end - mid,
{
    if mid < end {
        lemma_magnitude_grows(s, start, mid, end - 1);
    }
}

/// Reads a number.
pub fn parse_number(s: &[u8], start: usize, end: usize) -> (r: Option<i64>)
    requires
        start <= end <= s@.len(),
    ensures
        match number(s@, start as int, end as int) {
            Some(v) => r == Some(v as i64),
            None => r is None,
        },
{
    let negative: bool = start < end && s[start] == 45;
    let from: usize = if negative { start + 1 } else { start };
    if from >= end {
        return None;
    }
    let mut acc: u128 = 0;
    let mut k: usize = from;
    while k < end
        invariant
            from <= k <= end <= s@.len(),
            negative == (start < end && s@[start as int] == 45),
            from == if negative { start + 1 } else { start as int },
            all_digits(s@, from as int, k as int),
            acc == magnitude(s@, from as int, k as int),
            acc <= 9223372036854775808,
        decreases end - k,
    {
        let b: u8 = s[k];
        if b < 48 || b > 57 {
            assert(!is_digit(s@[k as int]));
            return None;
        }
        acc = acc * 10 + (b - 48) as u128;
        k += 1;
        if acc > 9223372036854775808 {
            proof {
                lemma_magnitude_grows(s@, from as int, k as int, end as int);
            }
            return None;
        }
    }
    let v: i128 = if negative { -(acc as i128) } else { acc as i128 };
    if v > 9223372036854775807 {
        None
    } else {
        Some(v as i64)
    }
}

/// The kind `at`.
pub open spec fn at_name() -> Seq<u8> {
    seq![97u8, 116u8]
}

/// The kind `offset`.
pub open spec fn offset_name() -> Seq<u8> {
    seq![111u8, 102u8, 102u8, 115u8, 101u8, 116u8]
}

/// The kind `every`.
pub open spec fn every_name() -> Seq<u8> {
    seq![101u8, 118u8, 101u8, 114u8, 121u8]
}

/// The end of the field that starts at `start`: the next colon, or the end
/// of the text.
pub open spec fn field_end(s: Seq<u8>, start: int) -> int {
    scan(s, start, s.len() as int, COLON, COLON)
}

/// The rule that a stored text writes.
pub open spec fn parsed(s: Seq<u8>) -> Reminder {
    let k = field_end(s, 0);
    let e1 = field_end(s, k + 1);
    let e2 = field_end(s, e1 + 1);
    let kind = s.subrange(0, k);
    if k >= s.len() {
        Reminder::Unrecognized
    } else {
        match number(s, k + 1, e1) {
            None => Reminder::Unrecognized,
            Some(first) => if kind == at_name() {
                Reminder::Absolute { at: first as i64 }
            } else if kind == offset_name() {
                Reminder::Offset { delta: first as i64 }
            } else if kind == every_name() && e1 < s.len() {
                match number(s, e1 + 1, e2) {
                    Some(second) => Reminder::Recurring {
                        anchor: first as i64,
                        interval: second as i64,
                    },
                    None => Reminder::Unrecognized,
                }
            } else {
                Reminder::Unrecognized
            },
        }
    }
}

/// Reads a stored reminder rule. A text that is not understood gives
/// `Unrecognized`, never a failure.
pub fn parse_reminder(s: &[u8]) -> (r: Reminder)
    ensures
        r == parsed(s@),
{
    let n: usize = s.len();
    let k: usize = find(s, 0, n, COLON, COLON);
    if k >= n {
        return Reminder::Unrecognized;
    }
    let e1: usize = find(s, k + 1, n, COLON, COLON);
    let first: i64 = match parse_number(s, k + 1, e1) {
        Some(v) => v,
        None => {
            return Reminder::Unrecognized;
        },
    };
    let at: Vec<u8> = vec![97u8, 116u8];
    let offset: Vec<u8> = vec![111u8, 102u8, 102u8, 115u8, 101u8, 116u8];
    let every: Vec<u8> = vec![101u8, 118u8, 101u8, 114u8, 121u8];
    assert(at@ =~= at_name());
    assert(offset@ =~= offset_name());
    assert(every@ =~= every_name());
    if same_bytes(s, 0, k, at.as_slice()) {
        Reminder::Absolute { at: first }
    } else if same_bytes(s, 0, k, offset.as_slice()) {
        Reminder::Offset { delta: first }
    } else if same_bytes(s, 0, k, every.as_slice()) && e1 < n {
        let e2: usize = find(s, e1 + 1, n, COLON, COLON);
        match parse_number(s, e1 + 1, e2) {
            Some(second) => Reminder::Recurring { anchor: first, interval: second },
            None => Reminder::Unrecognized,
        }
    } else {
        Reminder::Unrecognized
    }
}

/// The text that writes a rule. A rule that was not understood has no text
/// of its own: it is written as the empty text, which reads back as not
/// understood.
pub open spec fn written(r: Reminder) -> Seq<u8> {
    match r {
        Reminder::Absolute { at } => at_name() + seq![COLON] + decimal(at as int),
        Reminder::Offset { delta } => offset_name() + seq![COLON] + decimal(delta as int),
        Reminder::Recurring { anchor, interval } => every_name() + seq![COLON] + decimal(
            anchor as int,
        ) + seq![COLON] + decimal(interval as int),
        Reminder::Unrecognized => Seq::empty(),
    }
}

/// Writes a rule as the text to store.
pub fn write_reminder(r: &Reminder) -> (text: Vec<u8>)
    ensures
        text@ == written(*r),
{
    match r {
        Reminder::Absolute { at } => {
            let mut text: Vec<u8> = vec![97u8, 116u8, 58u8];
            push_decimal(&mut text, *at);
            assert(text@ =~= written(*r));
            text
        },
        Reminder::Offset { delta } => {
            let mut text: Vec<u8> = vec![111u8, 102u8, 102u8, 115u8, 101u8, 116u8, 58u8];
            push_decimal(&mut text, *delta);
            assert(text@ =~= written(*r));
            text
        },
        Reminder::Recurring { anchor, interval } => {
            let mut text: Vec<u8> = vec![101u8, 118u8, 101u8, 114u8, 121u8, 58u8];
            push_decimal(&mut text, *anchor);
            text.push(58u8);
            push_decimal(&mut text, *interval);
            assert(text@ =~= written(*r));
            text
        },
        Reminder::Unrecognized => Vec::new(),
    }
}

/// The decimal digits of a number are digits, one at least.
pub proof fn lemma_digits_are_digits(n: nat)
    ensures
        digits(n).len() >= 1,
        forall|k: int| 0 <= k < digits(n).len() ==> is_digit(#[trigger] digits(n)[k]),
    decreases n,
{
    if n >= 10 {
        lemma_digits_are_digits(n / 10);
    }
}

/// Where the text holds the decimal digits of `n`, they read as `n`.
pub proof fn lemma_digits_read_back(s: Seq<u8>, start: int, n: nat)
    requires
        0 <= start,
        start + digits(n).len() <= s.len(),
        s.subrange(start, start + digits(n).len()) == digits(n),
    ensures
        magnitude(s, start, start + digits(n).len()) == n,
    decreases n,
{
    let len = digits(n).len() as int;
    let part = s.subrange(start, start + len);
    assert(part[len - 1] == s[start + len - 1]);
    if n >= 10 {
        assert(s.subrange(start, start + len - 1) =~= digits(n / 10)) by {
            assert forall|k: int| 0 <= k < len - 1 implies s[start + k] == #[trigger] digits(n / 10)[k] by {
                assert(part[k] == s[start + k]);
            }
        }
        lemma_digits_read_back(s, start, n / 10);
    } else {
        assert(magnitude(s, start, start) == 0);
    }
}

/// Where the text holds a 64-bit number in decimal, it reads as that number.
pub proof fn lemma_decimal_reads_back(s: Seq<u8>, start: int, end: int, v: i64)
    requires
        0 <= start <= end <= s.len(),
        s.subrange(start, end) == decimal(v as int),
    ensures
        number(s, start, end) == Some(v as int),
{
    let part = s.subrange(start, end);
    let m: nat = if v < 0 {
        (-v) as nat
    } else {
        v as nat
    };
    let from = if v < 0 {
        start + 1
    } else {
        start
    };
    lemma_digits_are_digits(m);
    assert(part.len() == end - start);
    assert(decimal(v as int).len() == digits(m).len() + from - start);
    assert(part[0] == s[start]);
    assert(v < 0 ==> part[0] == 45);
    assert(v >= 0 ==> part[0] == digits(m)[0]);
    assert(s.subrange(from, end) =~= digits(m)) by {
        assert forall|k: int| 0 <= k < end - from implies s[from + k] == #[trigger] digits(m)[k] by {
            assert(part[k + from - start] == s[from + k]);
        }
    }
    assert(is_digit(digits(m)[0]));
    assert forall|k: int| from <= k < end implies is_digit(#[trigger] s[k]) by {
        assert(s[k] == digits(m)[k - from]);
    }
    lemma_digits_read_back(s, from, m);
}

/// No byte of a number in decimal is a colon.
pub proof fn lemma_decimal_has_no_colon(v: i64)
    ensures
        decimal(v as int).len() >= 1,
        forall|k: int| 0 <= k < decimal(v as int).len() ==> #[trigger] decimal(v as int)[k] != COLON,
{
    let m: nat = if v < 0 {
        (-v) as nat
    } else {
        v as nat
    };
    lemma_digits_are_digits(m);
    assert forall|k: int| 0 <= k < decimal(v as int).len() implies #[trigger] decimal(
        v as int,
    )[k] != COLON by {
        if v < 0 && k > 0 {
            assert(decimal(v as int)[k] == digits(m)[k - 1]);
            assert(is_digit(digits(m)[k - 1]));
        } else if v >= 0 {
            assert(is_digit(digits(m)[k]));
        }
    }
}

/// A rule that is written and read again is the same rule.
pub proof fn lemma_written_reads_back(r: Reminder)
    ensures
        parsed(written(r)) == r,
{
    let s = written(r);
    let len = s.len() as int;
    match r {
        Reminder::Absolute { at } => {
            lemma_decimal_has_no_colon(at);
            let d = decimal(at as int);
            assert forall|k: int| 0 <= k < d.len() implies s[3 + k] == #[trigger] d[k] by {}
            lemma_scan_stops(s, 0, 2, len, COLON, COLON);
            lemma_scan_stops(s, 3, len, len, COLON, COLON);
            assert(s.subrange(0, 2) =~= at_name());
            assert(s.subrange(3, len) =~= d);
            lemma_decimal_reads_back(s, 3, len, at);
        },
        Reminder::Offset { delta } => {
            lemma_decimal_has_no_colon(delta);
            let d = decimal(delta as int);
            assert forall|k: int| 0 <= k < d.len() implies s[7 + k] == #[trigger] d[k] by {}
            lemma_scan_stops(s, 0, 6, len, COLON, COLON);
            lemma_scan_stops(s, 7, len, len, COLON, COLON);
            assert(s.subrange(0, 6) =~= offset_name());
            assert(s.subrange(7, len) =~= d);
            lemma_decimal_reads_back(s, 7, len, delta);
            assert(offset_name().len() != at_name().len());
        },
        Reminder::Recurring { anchor, interval } => {
            lemma_decimal_has_no_colon(anchor);
            lemma_decimal_has_no_colon(interval);
            let a = decimal(anchor as int);
            let i = decimal(interval as int);
            let e1 = 6 + a.len() as int;
            assert(len == e1 + 1 + i.len());
            assert forall|k: int| 0 <= k < a.len() implies s[6 + k] == #[trigger] a[k] by {}
            assert(s[e1] == COLON);
            assert forall|k: int| 0 <= k < i.len() implies s[e1 + 1 + k] == #[trigger] i[k] by {}
            lemma_scan_stops(s, 0, 5, len, COLON, COLON);
            lemma_scan_stops(s, 6, e1, len, COLON, COLON);
            lemma_scan_stops(s, e1 + 1, len, len, COLON, COLON);
            assert(s.subrange(0, 5) =~= every_name());
            assert(s.subrange(6, e1) =~= a);
            assert(s.subrange(e1 + 1, len) =~= i);
            lemma_decimal_reads_back(s, 6, e1, anchor);
            lemma_decimal_reads_back(s, e1 + 1, len, interval);
            assert(every_name().len() != at_name().len());
            assert(every_name().len() != offset_name().len());
        },
        Reminder::Unrecognized => {},
    }
}

} // verus!
